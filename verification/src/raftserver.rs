//! The decisions of a Raft server's main loop: console commands, heartbeats,
//! command-line arguments and the election timeout. The loop itself, with
//! its threads, sockets and timers, runs in the application.

use crate::raftconsensus::{update_request, AppendEntriesRequest, RaftConsensus};
use crate::raftlog::entries_view;
use crate::shared::{InternalMessage, RaftNetMessage, Role};
use crate::text::{split_words, words};
use rand::Rng;
use vstd::prelude::*;
use vstd::string::*;

verus! {

/// A candidate's request for votes.
#[derive(Debug, Clone, Copy)]
pub struct RequestVote {
    pub term: usize,
    pub candidate_id: usize,
    pub last_log_index: usize,
    pub last_log_term: usize,
}

/// An answer to a `RequestVote`.
#[derive(Debug, Clone, Copy)]
#[allow(non_snake_case)]
pub struct RequestVoteResponse {
    pub term: usize,
    pub voteGranted: bool,
}

/// The debugging console of a server.
pub struct RaftConsole {
    pub server_id: usize,
}

impl RaftConsole {
    /// The console of server `server_id`.
    pub fn new(server_id: usize) -> (c: Self)
        ensures
            c.server_id == server_id,
    {
        RaftConsole { server_id }
    }
}

/// What the server does with a line typed at its console.
#[derive(Debug, PartialEq, Eq, Structural, Clone, Copy)]
pub enum ConsoleAction {
    /// A blank line: nothing.
    Ignore,
    /// Show the consensus state.
    ShowState,
    /// Show the log.
    ShowLog,
    /// The server now plays this role.
    SetRole(Role),
    /// The line is not a console command.
    Unknown,
}

/// The action for a console line: `state`, `log`, `leader`, `follower` or
/// `candidate`, exactly; nothing for a blank line; unknown otherwise.
pub open spec fn console_action(command: Seq<char>) -> ConsoleAction {
    if words(command).len() == 0 {
        ConsoleAction::Ignore
    } else if command == "state"@ {
        ConsoleAction::ShowState
    } else if command == "log"@ {
        ConsoleAction::ShowLog
    } else if command == "leader"@ {
        ConsoleAction::SetRole(Role::Leader)
    } else if command == "follower"@ {
        ConsoleAction::SetRole(Role::Follower)
    } else if command == "candidate"@ {
        ConsoleAction::SetRole(Role::Candidate)
    } else {
        ConsoleAction::Unknown
    }
}

/// Carries out a console line: a role command changes the server's role;
/// the action returned tells the caller what to show.
pub fn handle_console_command(consensus: &mut RaftConsensus, command: &str) -> (action:
    ConsoleAction)
    ensures
        action == console_action(command@),
        action matches ConsoleAction::SetRole(r) ==> *final(consensus) == (RaftConsensus {
            role: r,
            ..*old(consensus)
        }),
        !(action is SetRole) ==> *final(consensus) == *old(consensus),
{
    let w = split_words(command);
    let line = String::from_str(command);
    let action = if w.len() == 0 {
        ConsoleAction::Ignore
    } else if line == String::from_str("state") {
        ConsoleAction::ShowState
    } else if line == String::from_str("log") {
        ConsoleAction::ShowLog
    } else if line == String::from_str("leader") {
        ConsoleAction::SetRole(Role::Leader)
    } else if line == String::from_str("follower") {
        ConsoleAction::SetRole(Role::Follower)
    } else if line == String::from_str("candidate") {
        ConsoleAction::SetRole(Role::Candidate)
    } else {
        ConsoleAction::Unknown
    };
    if let ConsoleAction::SetRole(r) = action {
        consensus.role = r;
    }
    action
}

/// Whether `out` holds a request for server `id`.
pub open spec fn sent_to(out: Seq<(usize, AppendEntriesRequest)>, id: usize) -> bool {
    exists|k: int| 0 <= k < out.len() && (#[trigger] out[k]).0 == id
}

/// `out` is what a server in state `c` sends on a clock tick: a leader sends
/// every other server, in increasing order of number, the request that
/// brings it up to date; other servers send nothing.
pub open spec fn heartbeat_spec(c: RaftConsensus, out: Seq<(usize, AppendEntriesRequest)>) -> bool {
    &&& c.role != Role::Leader ==> out.len() == 0
    &&& c.role == Role::Leader ==> {
        &&& forall|k: int|
            0 <= k < out.len() ==> {
                let (id, r) = #[trigger] out[k];
                &&& 1 <= id <= c.num_servers
                &&& id != c.server_id
                &&& r.term == c.current_term
                &&& r.leader_id == c.server_id
                &&& r.leader_commit_index == c.commit_index
                &&& (r.prev_index, r.prev_term, entries_view(r.entries@)) == update_request(
                    c.log@,
                    c.next_index@[id as int],
                )
            }
        &&& forall|k1: int, k2: int|
            0 <= k1 < k2 < out.len() ==> (#[trigger] out[k1]).0 < (#[trigger] out[k2]).0
        &&& forall|id: usize|
            1 <= id <= c.num_servers && id != c.server_id ==> #[trigger] sent_to(out, id)
    }
}

/// The requests a server sends on a clock tick: a leader sends every other
/// server, in increasing order of number, the request that brings it up to
/// date; other servers send nothing.
pub fn heartbeat_requests(consensus: &RaftConsensus) -> (out: Vec<(usize, AppendEntriesRequest)>)
    requires
        consensus.wf(),
    ensures
        heartbeat_spec(*consensus, out@),
{
    let mut out: Vec<(usize, AppendEntriesRequest)> = Vec::new();
    if consensus.role != Role::Leader {
        return out;
    }
    let n = consensus.num_servers;
    assert(consensus.next_index.len() == n + 1);
    let mut id: usize = 1;
    while id <= n
        invariant
            consensus.wf(),
            consensus.role == Role::Leader,
            n == consensus.num_servers,
            n < usize::MAX,
            1 <= id <= n + 1,
            forall|k: int|
                0 <= k < out@.len() ==> {
                    let (i, r) = #[trigger] out@[k];
                    &&& 1 <= i < id
                    &&& i != consensus.server_id
                    &&& r.term == consensus.current_term
                    &&& r.leader_id == consensus.server_id
                    &&& r.leader_commit_index == consensus.commit_index
                    &&& (r.prev_index, r.prev_term, entries_view(r.entries@)) == update_request(
                        consensus.log@,
                        consensus.next_index@[i as int],
                    )
                },
            forall|k1: int, k2: int|
                0 <= k1 < k2 < out@.len() ==> (#[trigger] out@[k1]).0 < (#[trigger] out@[k2]).0,
            forall|j: usize|
                1 <= j < id && j != consensus.server_id ==> #[trigger] sent_to(out@, j),
        decreases n + 1 - id,
    {
        let ghost before = out@;
        if id != consensus.server_id {
            let request = consensus.update_follower(id);
            out.push((id, request));
            assert(out@[out@.len() - 1].0 == id);
            assert(sent_to(out@, id));
        }
        assert forall|j: usize| 1 <= j < id && j != consensus.server_id implies #[trigger] sent_to(
            out@,
            j,
        ) by {
            assert(sent_to(before, j));
            let k = choose|k: int| 0 <= k < before.len() && (#[trigger] before[k]).0 == j;
            assert(out@[k] == before[k]);
        }
        id = id + 1;
    }
    out
}

/// Why the command line of a server was refused.
#[derive(Debug, PartialEq, Eq, Structural, Clone, Copy)]
pub enum ArgError {
    /// No server number was given.
    MissingServerId,
    /// No number of servers was given.
    MissingServerCount,
    /// An argument is not a number.
    NotANumber,
    /// The server number is not between 1 and 5.
    ServerIdOutOfRange,
}

/// What reading `s` as a `usize` gives: an optional `+` followed by one or
/// more ASCII digits, when the value fits.
pub open spec fn parse_usize_result(s: Seq<char>) -> Option<usize> {
    let d = if s.len() > 0 && s[0] == '+' {
        s.drop_first()
    } else {
        s
    };
    if d.len() > 0 && crate::text::all_digits(d) && crate::text::digits_value(d) <= usize::MAX {
        Some(crate::text::digits_value(d) as usize)
    } else {
        None
    }
}

/// Reads `s` as a decimal `usize`.
///
/// Calls std's `str::parse::<usize>`, whose documentation accepts exactly an
/// optional `+` followed by ASCII digits, and fails on anything else and on
/// values out of range. The error is dropped: `None` stands for it.
#[verifier::external_body]
pub(crate) fn parse_usize(s: &str) -> (r: Option<usize>)
    ensures
        r == parse_usize_result(s@),
{
    s.parse::<usize>().ok()
}

/// The server number given on the command line, which must be between 1 and 5.
pub open spec fn server_id_outcome(arg: Option<Seq<char>>) -> Result<usize, ArgError> {
    match arg {
        None => Err(ArgError::MissingServerId),
        Some(s) => match parse_usize_result(s) {
            None => Err(ArgError::NotANumber),
            Some(id) => if id == 0 || id > 5 {
                Err(ArgError::ServerIdOutOfRange)
            } else {
                Ok(id)
            },
        },
    }
}

/// The view of an optional string slice.
pub open spec fn opt_arg_view(arg: Option<&str>) -> Option<Seq<char>> {
    match arg {
        Some(s) => Some(s@),
        None => None,
    }
}

/// Reads the server number from the first command-line argument.
pub fn parse_server_id(arg: Option<&str>) -> (r: Result<usize, ArgError>)
    ensures
        r == server_id_outcome(opt_arg_view(arg)),
{
    match arg {
        None => Err(ArgError::MissingServerId),
        Some(s) => match parse_usize(s) {
            None => Err(ArgError::NotANumber),
            Some(id) => if id == 0 || id > 5 {
                Err(ArgError::ServerIdOutOfRange)
            } else {
                Ok(id)
            },
        },
    }
}

/// Reads the server number and the number of servers from the first two
/// command-line arguments.
pub fn parse_args(id_arg: Option<&str>, count_arg: Option<&str>) -> (r: Result<
    (usize, usize),
    ArgError,
>)
    ensures
        match server_id_outcome(opt_arg_view(id_arg)) {
            Err(e) => r == Err::<(usize, usize), ArgError>(e),
            Ok(id) => match opt_arg_view(count_arg) {
                None => r == Err::<(usize, usize), ArgError>(ArgError::MissingServerCount),
                Some(s) => match parse_usize_result(s) {
                    None => r == Err::<(usize, usize), ArgError>(ArgError::NotANumber),
                    Some(n) => r == Ok::<(usize, usize), ArgError>((id, n)),
                },
            },
        },
{
    let id = match parse_server_id(id_arg) {
        Ok(id) => id,
        Err(e) => return Err(e),
    };
    match count_arg {
        None => Err(ArgError::MissingServerCount),
        Some(s) => match parse_usize(s) {
            None => Err(ArgError::NotANumber),
            Some(n) => Ok((id, n)),
        },
    }
}

/// Draws a number between `lo` and `hi`, both included.
///
/// Calls `rand::rng().random_range(lo..=hi)` (rand 0.9). rand documents that
/// the value lies in the inclusive range given and that only an empty range
/// panics, which `lo <= hi` rules out; the thread's generator panics only if
/// the operating system's random source cannot seed it, which no argument
/// here can rule out. Which value comes is left to chance, so nothing more
/// is claimed.
#[verifier::external_body]
fn random_in(lo: u64, hi: u64) -> (r: u64)
    requires
        lo <= hi,
    ensures
        lo <= r <= hi,
{
    rand::rng().random_range(lo..=hi)
}

/// How many seconds a follower waits to hear from a leader before it stands
/// for election: drawn at random, between 3 and 5, afresh on each call.
pub fn election_timeout_secs() -> (secs: u64)
    ensures
        3 <= secs <= 5,
{
    random_in(3, 5)
}

/// The numbers from 1 to `n` other than `me`, in increasing order.
pub open spec fn others(n: nat, me: usize) -> Seq<usize>
    decreases n,
{
    if n == 0 {
        Seq::empty()
    } else if n == me {
        others((n - 1) as nat, me)
    } else {
        others((n - 1) as nat, me).push(n as usize)
    }
}

/// The numbers of the other servers of the cluster, in increasing order.
pub fn other_servers(consensus: &RaftConsensus) -> (ids: Vec<usize>)
    requires
        consensus.wf(),
    ensures
        ids@ == others(consensus.num_servers as nat, consensus.server_id),
{
    let n = consensus.num_servers;
    assert(consensus.next_index.len() == n + 1);
    let mut ids: Vec<usize> = Vec::new();
    let mut id: usize = 1;
    while id <= n
        invariant
            n == consensus.num_servers,
            n < usize::MAX,
            1 <= id <= n + 1,
            ids@ == others((id - 1) as nat, consensus.server_id),
        decreases n + 1 - id,
    {
        if id != consensus.server_id {
            ids.push(id);
        }
        id = id + 1;
    }
    ids
}

/// What the main loop of a server does after an event.
#[derive(Debug)]
pub enum ServerAction {
    Nothing,
    /// Show the consensus state.
    ShowState,
    /// Show the log.
    ShowLog,
    /// Report a console line that is not a command.
    UnknownCommand(String),
    /// Send the request for votes to each of the servers listed.
    RequestVotes(Vec<usize>, RequestVote),
    /// Send each server listed its request.
    AppendEntries(Vec<(usize, AppendEntriesRequest)>),
    /// Report a request for votes received.
    VoteRequested(RequestVote),
}

/// Whether an event shows that a leader or a candidate is active: a request
/// for votes or for appending entries from another server.
pub open spec fn event_hears_leader(message: InternalMessage) -> bool {
    match message {
        InternalMessage::IncomingRaftMessage(RaftNetMessage::RequestVote(_)) => true,
        InternalMessage::IncomingRaftMessage(RaftNetMessage::AppendEntries(_)) => true,
        _ => false,
    }
}

/// Handles one event of the server's queue: console lines act on the role
/// or ask for output, the election timer makes the server a candidate that
/// asks every other server for its vote, a clock tick makes a leader send
/// its heartbeats, and requests from other servers are reported. Returns the
/// action for the caller and whether the election timer should count the
/// event as word from a leader: it does for requests from other servers,
/// and always while the server leads or stands for election.
pub fn handle_event(consensus: &mut RaftConsensus, message: InternalMessage) -> (out: (
    ServerAction,
    bool,
))
    requires
        old(consensus).wf(),
        message is StartElection ==> old(consensus).current_term < usize::MAX,
    ensures
        final(consensus).wf(),
        out.1 == (event_hears_leader(message) || final(consensus).role == Role::Leader
            || final(consensus).role == Role::Candidate),
        match message {
            InternalMessage::ConsoleCommand(command) => {
                &&& match console_action(command@) {
                    ConsoleAction::ShowState => out.0 is ShowState,
                    ConsoleAction::ShowLog => out.0 is ShowLog,
                    ConsoleAction::Unknown => out.0 matches ServerAction::UnknownCommand(c)
                        && c@ == command@,
                    _ => out.0 is Nothing,
                }
                &&& match console_action(command@) {
                    ConsoleAction::SetRole(r) => *final(consensus) == (RaftConsensus {
                        role: r,
                        ..*old(consensus)
                    }),
                    _ => *final(consensus) == *old(consensus),
                }
            },
            InternalMessage::StartElection => {
                &&& *final(consensus) == (RaftConsensus {
                    role: Role::Candidate,
                    current_term: (old(consensus).current_term + 1) as usize,
                    voted_for: Some(old(consensus).server_id),
                    ..*old(consensus)
                })
                &&& out.0 matches ServerAction::RequestVotes(ids, request) && {
                    &&& ids@ == others(old(consensus).num_servers as nat, old(consensus).server_id)
                    &&& request.term == old(consensus).current_term + 1
                    &&& request.candidate_id == old(consensus).server_id
                    &&& request.last_log_index == old(consensus).log@.len() - 1
                    &&& request.last_log_term == old(consensus).log@.last().0
                }
            },
            InternalMessage::Tick => {
                &&& *final(consensus) == *old(consensus)
                &&& out.0 matches ServerAction::AppendEntries(requests) && heartbeat_spec(
                    *old(consensus),
                    requests@,
                )
            },
            InternalMessage::IncomingRaftMessage(RaftNetMessage::RequestVote(request)) => {
                &&& *final(consensus) == *old(consensus)
                &&& out.0 == ServerAction::VoteRequested(request)
            },
            _ => {
                &&& *final(consensus) == *old(consensus)
                &&& out.0 is Nothing
            },
        },
{
    let heard = match &message {
        InternalMessage::IncomingRaftMessage(RaftNetMessage::RequestVote(_)) => true,
        InternalMessage::IncomingRaftMessage(RaftNetMessage::AppendEntries(_)) => true,
        _ => false,
    };
    let action = match message {
        InternalMessage::ConsoleCommand(command) => {
            match handle_console_command(consensus, command.as_str()) {
                ConsoleAction::ShowState => ServerAction::ShowState,
                ConsoleAction::ShowLog => ServerAction::ShowLog,
                ConsoleAction::Unknown => ServerAction::UnknownCommand(command),
                _ => ServerAction::Nothing,
            }
        },
        InternalMessage::StartElection => {
            let request = consensus.start_election();
            let ids = other_servers(consensus);
            ServerAction::RequestVotes(ids, request)
        },
        InternalMessage::Tick => ServerAction::AppendEntries(heartbeat_requests(consensus)),
        InternalMessage::IncomingRaftMessage(RaftNetMessage::RequestVote(request)) => {
            ServerAction::VoteRequested(request)
        },
        _ => ServerAction::Nothing,
    };
    (action, heard || consensus.role == Role::Leader || consensus.role == Role::Candidate)
}

} // verus!
