//! A traffic-light controller for a crossing of a north-south and an
//! east-west road. The lights cycle green/red, yellow/red, red/green,
//! red/yellow, each phase lasting a fixed number of clock ticks.

use vstd::prelude::*;
use vstd::string::*;

verus! {

/// The lights of the crossing: the first letter is the north-south light,
/// the second the east-west light (G green, Y yellow, R red).
#[derive(Debug, PartialEq, Eq, Structural, Clone, Copy)]
pub enum LightState {
    GR,
    YR,
    RG,
    RY,
}

/// How many ticks a phase lasts at least: the controller leaves it on the
/// first tick count that exceeds this.
pub open spec fn phase_ticks(state: LightState) -> nat {
    match state {
        LightState::GR => 30,
        LightState::YR => 5,
        LightState::RG => 60,
        LightState::RY => 5,
    }
}

/// The phase that follows `state`.
pub open spec fn following(state: LightState) -> LightState {
    match state {
        LightState::GR => LightState::YR,
        LightState::YR => LightState::RG,
        LightState::RG => LightState::RY,
        LightState::RY => LightState::GR,
    }
}

/// The phase to switch to after `time` ticks in `state`, if it is time to switch.
pub open spec fn next_light(state: LightState, time: nat) -> Option<LightState> {
    if time > phase_ticks(state) {
        Some(following(state))
    } else {
        None
    }
}

/// The state of the controller: the lights currently shown.
pub struct SystemState {
    pub current_state: LightState,
}

impl SystemState {
    /// A controller showing `initial_state`.
    pub fn new(initial_state: LightState) -> (s: Self)
        ensures
            s.current_state == initial_state,
    {
        SystemState { current_state: initial_state }
    }

    /// Moves to the next phase when `time` ticks exceed the current phase's
    /// length, and returns the new lights; returns `None` and keeps the
    /// lights otherwise.
    pub fn update_state(&mut self, time: usize) -> (r: Option<&LightState>)
        ensures
            next_light(old(self).current_state, time as nat) matches Some(s) ==> {
                &&& final(self).current_state == s
                &&& r == Some(&s)
            },
            next_light(old(self).current_state, time as nat) is None ==> {
                &&& final(self).current_state == old(self).current_state
                &&& r is None
            },
    {
        let new_state = match self.current_state {
            LightState::GR if time > 30 => Some(LightState::YR),
            LightState::YR if time > 5 => Some(LightState::RG),
            LightState::RG if time > 60 => Some(LightState::RY),
            LightState::RY if time > 5 => Some(LightState::GR),
            _ => None,
        };
        match new_state {
            Some(s) => {
                self.current_state = s;
                Some(&self.current_state)
            },
            None => None,
        }
    }
}

/// The two light commands that show `state`.
pub open spec fn light_commands(state: LightState) -> (Seq<char>, Seq<char>) {
    match state {
        LightState::GR => ("EW-R"@, "NS-G"@),
        LightState::YR => ("NS-Y"@, "EW-R"@),
        LightState::RG => ("NS-R"@, "EW-G"@),
        LightState::RY => ("NS-R"@, "EW-Y"@),
    }
}

/// The commands to send to the lights so that they show `state`.
pub fn convert_state_to_command(state: &LightState) -> (cmds: (&'static str, &'static str))
    ensures
        (cmds.0@, cmds.1@) == light_commands(*state),
{
    match state {
        LightState::GR => ("EW-R", "NS-G"),
        LightState::YR => ("NS-Y", "EW-R"),
        LightState::RG => ("NS-R", "EW-G"),
        LightState::RY => ("NS-R", "EW-Y"),
    }
}

/// The controller's main loop state: the lights and the ticks counted in the
/// current phase.
pub struct TrafficController {
    pub lights: SystemState,
    pub ticks: usize,
}

impl TrafficController {
    /// The tick count never runs past the current phase's length.
    pub open spec fn wf(&self) -> bool {
        self.ticks <= phase_ticks(self.lights.current_state)
    }

    /// A controller that starts in the north-south green phase.
    pub fn new() -> (c: Self)
        ensures
            c.wf(),
            c.lights.current_state == LightState::GR,
            c.ticks == 0,
    {
        TrafficController { lights: SystemState::new(LightState::GR), ticks: 0 }
    }

    /// Handles one message: `TICK` counts a tick; any message then gives the
    /// lights a chance to change. Returns the new lights when they change,
    /// which also restarts the tick count.
    pub fn on_message(&mut self, message: &str) -> (changed: Option<LightState>)
        requires
            old(self).wf(),
        ensures
            final(self).wf(),
            ({
                let t = if message@ == "TICK"@ {
                    old(self).ticks + 1
                } else {
                    old(self).ticks as int
                };
                match next_light(old(self).lights.current_state, t as nat) {
                    Some(s) => {
                        &&& changed == Some(s)
                        &&& final(self).lights.current_state == s
                        &&& final(self).ticks == 0
                    },
                    None => {
                        &&& changed is None
                        &&& final(self).lights.current_state == old(self).lights.current_state
                        &&& final(self).ticks == t
                    },
                }
            }),
    {
        if String::from_str(message) == String::from_str("TICK") {
            self.ticks = self.ticks + 1;
        }
        let ticks = self.ticks;
        match self.lights.update_state(ticks) {
            Some(s) => {
                let s = *s;
                self.ticks = 0;
                Some(s)
            },
            None => None,
        }
    }
}

/// Four phase changes bring the lights back to where they started.
pub proof fn lemma_cycle_returns(state: LightState)
    ensures
        following(following(following(following(state)))) == state,
{
}

/// Every phase shows red one way: the two roads never both have a light other than red.
pub proof fn lemma_one_way_red(state: LightState)
    ensures
        ({
            let (a, b) = light_commands(state);
            a.last() == 'R' || b.last() == 'R'
        }),
{
    reveal_strlit("EW-R");
    reveal_strlit("NS-R");
    reveal_strlit("NS-G");
    reveal_strlit("NS-Y");
    reveal_strlit("EW-G");
    reveal_strlit("EW-Y");
}

/// The lights switch once the phase's ticks are exceeded, and only then:
/// north-south green gives way to yellow after more than 30 ticks, yellow to
/// red (east-west green) after more than 5, east-west green to yellow after
/// more than 60, and that yellow back to north-south green after more than 5.
pub proof fn lemma_lights_switch_after_their_time(t: nat)
    ensures
        next_light(LightState::GR, t) == (if t > 30 { Some(LightState::YR) } else { None }),
        next_light(LightState::YR, t) == (if t > 5 { Some(LightState::RG) } else { None }),
        next_light(LightState::RG, t) == (if t > 60 { Some(LightState::RY) } else { None }),
        next_light(LightState::RY, t) == (if t > 5 { Some(LightState::GR) } else { None }),
{
}

/// Waiting longer never undoes a switch: once the ticks are enough to leave
/// a phase, any larger tick count leaves it for the same next phase.
pub proof fn lemma_switch_is_monotone(state: LightState, t: nat, u: nat)
    requires
        t <= u,
        next_light(state, t) is Some,
    ensures
        next_light(state, u) == next_light(state, t),
{
}

} // verus!