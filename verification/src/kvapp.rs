//! The replicated state machine: a key-value store that applies the
//! commands of the Raft log in order.

use crate::kvcommand::{command_outcome, incr_overflows, incr_would_overflow, update_store};
use crate::kvstore::KVStore;
use crate::raftlog::{EntryView, RaftLog};
use crate::text::strings_view;
use vstd::prelude::*;

verus! {

/// The dictionary after applying `commands` one after the other.
pub open spec fn apply_all(m: Map<Seq<char>, Seq<char>>, commands: Seq<Seq<char>>) -> Map<
    Seq<char>,
    Seq<char>,
>
    decreases commands.len(),
{
    if commands.len() == 0 {
        m
    } else {
        command_outcome(apply_all(m, commands.drop_last()), commands.last()).0
    }
}

/// The replies to `commands` applied one after the other to `m`.
pub open spec fn replies_of(m: Map<Seq<char>, Seq<char>>, commands: Seq<Seq<char>>) -> Seq<
    Seq<char>,
>
    decreases commands.len(),
{
    if commands.len() == 0 {
        Seq::empty()
    } else {
        replies_of(m, commands.drop_last()).push(
            command_outcome(apply_all(m, commands.drop_last()), commands.last()).1,
        )
    }
}

/// Whether applying `commands` in order to `m` never increments a value past `i32::MAX`.
pub open spec fn applies_cleanly(m: Map<Seq<char>, Seq<char>>, commands: Seq<Seq<char>>) -> bool
    decreases commands.len(),
{
    if commands.len() == 0 {
        true
    } else {
        applies_cleanly(m, commands.drop_last()) && !incr_overflows(
            apply_all(m, commands.drop_last()),
            commands.last(),
        )
    }
}

/// The commands of the log entries from index `from` up to, not including, `to`.
pub open spec fn commands_between(log: Seq<EntryView>, from: int, to: int) -> Seq<Seq<char>> {
    log.subrange(from, to).map_values(|e: EntryView| e.1)
}

/// Why applying the committed entries stopped before the commit index.
#[derive(Debug, PartialEq, Eq, Structural)]
pub enum ApplyStop {
    /// The `incr` at this index would take a value past `i32::MAX`.
    Overflow(usize),
    /// The log has no entry at this index.
    MissingEntry(usize),
}

/// The key-value state machine and how far into the log it has applied.
pub struct KVApp {
    pub store: KVStore,
    pub last_applied: usize,
}

impl KVApp {
    /// An empty store that has applied nothing.
    pub fn new() -> (app: Self)
        ensures
            app.store@ == Map::<Seq<char>, Seq<char>>::empty(),
            app.last_applied == 0,
    {
        KVApp { store: KVStore::new(), last_applied: 0 }
    }

    /// Carries out one command line on the store and returns the reply.
    pub fn update_store(&mut self, input: String) -> (reply: std::io::Result<String>)
        requires
            !incr_overflows(old(self).store@, input@),
        ensures
            reply matches Ok(r) && (final(self).store@, r@) == command_outcome(
                old(self).store@,
                input@,
            ),
            final(self).last_applied == old(self).last_applied,
    {
        update_store(input, &mut self.store)
    }

    /// Applies one committed command to the store and returns its reply.
    pub fn apply_command(&mut self, command: String) -> (reply: String)
        requires
            !incr_overflows(old(self).store@, command@),
        ensures
            (final(self).store@, reply@) == command_outcome(old(self).store@, command@),
            final(self).last_applied == old(self).last_applied,
    {
        match update_store(command, &mut self.store) {
            Ok(reply) => reply,
            Err(_) => String::new(),
        }
    }

    /// Applies, in log order, every entry after the last applied one up to
    /// `commit_index`, and returns their replies. An `incr` that would take a
    /// value past `i32::MAX` stops it: the commands before it stay applied
    /// and its index comes back as the error.
    pub fn apply_committed(&mut self, log: &RaftLog, commit_index: usize) -> (result: Result<
        Vec<String>,
        usize,
    >)
        requires
            commit_index < log@.len(),
        ensures
            old(self).last_applied >= commit_index ==> {
                &&& final(self).last_applied == old(self).last_applied
                &&& final(self).store@ == old(self).store@
                &&& result matches Ok(replies) && replies@.len() == 0
            },
            old(self).last_applied < commit_index ==> {
                let all = commands_between(log@, old(self).last_applied + 1, commit_index + 1);
                &&& result is Ok <==> applies_cleanly(old(self).store@, all)
                &&& result matches Ok(replies) ==> {
                    &&& final(self).last_applied == commit_index
                    &&& final(self).store@ == apply_all(old(self).store@, all)
                    &&& strings_view(replies@) == replies_of(old(self).store@, all)
                }
                &&& result matches Err(i) ==> {
                    let done = commands_between(log@, old(self).last_applied + 1, i as int);
                    &&& old(self).last_applied < i <= commit_index
                    &&& final(self).last_applied == i - 1
                    &&& final(self).store@ == apply_all(old(self).store@, done)
                    &&& incr_overflows(final(self).store@, log@[i as int].1)
                }
            },
    {
        let ghost start = self.last_applied;
        let ghost m0 = self.store@;
        let ghost all = commands_between(log@, start + 1, commit_index + 1);
        let mut replies: Vec<String> = Vec::new();
        proof {
            if start < commit_index {
                assert(commands_between(log@, start + 1, start + 1) =~= Seq::<Seq<char>>::empty());
            }
        }
        let mut stopped_at: Option<usize> = None;
        while stopped_at.is_none() && commit_index > self.last_applied
            invariant
                commit_index < log@.len(),
                all == commands_between(log@, start + 1, commit_index + 1),
                start <= self.last_applied,
                start >= commit_index ==> self.last_applied == start && stopped_at is None,
                start < commit_index ==> self.last_applied <= commit_index,
                start < commit_index ==> self.store@ == apply_all(
                    m0,
                    commands_between(log@, start + 1, self.last_applied + 1),
                ),
                start < commit_index ==> applies_cleanly(
                    m0,
                    commands_between(log@, start + 1, self.last_applied + 1),
                ),
                start >= commit_index ==> self.store@ == m0,
                start < commit_index ==> strings_view(replies@) == replies_of(
                    m0,
                    commands_between(log@, start + 1, self.last_applied + 1),
                ),
                start >= commit_index ==> replies@.len() == 0,
                stopped_at matches Some(i) ==> {
                    &&& i == self.last_applied + 1
                    &&& self.last_applied < commit_index
                    &&& incr_overflows(self.store@, log@[i as int].1)
                    &&& !applies_cleanly(m0, all)
                },
            decreases commit_index - self.last_applied, (if stopped_at is None { 1int } else { 0int }),
        {
            let next = self.last_applied + 1;
            let ghost done = commands_between(log@, start + 1, next as int);
            let ghost upto = commands_between(log@, start + 1, next + 1);
            proof {
                assert(upto.drop_last() =~= done);
                assert(upto.last() == log@[next as int].1);
                assert(all.take(upto.len() as int) =~= upto);
                assert(log.entries@[next as int]@.1 == log@[next as int].1);
            }
            if incr_would_overflow(log.entries[next].command.as_str(), &self.store) {
                proof {
                    assert(!applies_cleanly(m0, upto));
                    if applies_cleanly(m0, all) {
                        lemma_applies_cleanly_prefix(m0, all, upto.len() as int);
                    }
                }
                stopped_at = Some(next);
            } else {
                let command = log.entries[next].command.clone();
                let reply = self.apply_command(command);
                let ghost before = replies@;
                replies.push(reply);
                assert(strings_view(replies@) =~= strings_view(before).push(reply@));
                self.last_applied = next;
            }
        }
        if let Some(i) = stopped_at {
            return Err(i);
        }
        proof {
            if start < commit_index {
                assert(commands_between(log@, start + 1, self.last_applied + 1) == all);
            }
        }
        Ok(replies)
    }

    /// Applies, in log order, every entry after the last applied one up to
    /// `commit_index`, as far as the log reaches. Stops with the index of an
    /// `incr` that would take a value past `i32::MAX`, or, once every entry
    /// the log has is applied, with the index of the first entry it lacks.
    pub fn apply_up_to(&mut self, log: &RaftLog, commit_index: usize) -> (result: Result<
        Vec<String>,
        ApplyStop,
    >)
        requires
            log@.len() >= 1,
        ensures
            ({
                let last = log@.len() - 1;
                let la = old(self).last_applied;
                let reach = if commit_index <= last {
                    commit_index as int
                } else {
                    last
                };
                let all = commands_between(log@, la + 1, reach + 1);
                &&& la >= commit_index ==> {
                    &&& *final(self) == *old(self)
                    &&& result matches Ok(replies) && replies@.len() == 0
                }
                &&& la < commit_index && la >= reach ==> {
                    &&& *final(self) == *old(self)
                    &&& result == Err::<Vec<String>, ApplyStop>(ApplyStop::MissingEntry((la + 1) as usize))
                }
                &&& la < commit_index && la < reach ==> {
                    &&& (result matches Err(ApplyStop::Overflow(_))) <==> !applies_cleanly(old(self).store@, all)
                    &&& result matches Err(ApplyStop::Overflow(i)) ==> {
                        let done = commands_between(log@, la + 1, i as int);
                        &&& la < i <= reach
                        &&& final(self).last_applied == i - 1
                        &&& final(self).store@ == apply_all(old(self).store@, done)
                        &&& incr_overflows(final(self).store@, log@[i as int].1)
                    }
                    &&& !(result matches Err(ApplyStop::Overflow(_))) ==> {
                        &&& final(self).last_applied == reach
                        &&& final(self).store@ == apply_all(old(self).store@, all)
                    }
                    &&& result matches Ok(replies) ==> {
                        &&& commit_index <= last
                        &&& strings_view(replies@) == replies_of(old(self).store@, all)
                    }
                    &&& result matches Err(ApplyStop::MissingEntry(i)) ==> {
                        &&& commit_index > last
                        &&& i == last + 1
                    }
                }
            }),
    {
        if commit_index <= self.last_applied {
            return Ok(Vec::new());
        }
        let last = log.entries.len() - 1;
        if self.last_applied >= last {
            return Err(ApplyStop::MissingEntry(self.last_applied + 1));
        }
        let reach = if commit_index <= last {
            commit_index
        } else {
            last
        };
        match self.apply_committed(log, reach) {
            Err(i) => Err(ApplyStop::Overflow(i)),
            Ok(replies) => {
                if commit_index > last {
                    Err(ApplyStop::MissingEntry(last + 1))
                } else {
                    Ok(replies)
                }
            },
        }
    }
}

/// Applying a prefix of commands that apply cleanly also applies cleanly.
pub proof fn lemma_applies_cleanly_prefix(
    m: Map<Seq<char>, Seq<char>>,
    commands: Seq<Seq<char>>,
    k: int,
)
    requires
        0 <= k <= commands.len(),
        applies_cleanly(m, commands),
    ensures
        applies_cleanly(m, commands.take(k)),
    decreases commands.len(),
{
    if k < commands.len() {
        assert(commands.drop_last().take(k) =~= commands.take(k));
        lemma_applies_cleanly_prefix(m, commands.drop_last(), k);
    } else {
        assert(commands.take(k) =~= commands);
    }
}

/// Applying two runs of commands one after the other is applying them joined:
/// catching up to a commit index in several steps gives the same store as in one.
pub proof fn lemma_apply_all_concat(
    m: Map<Seq<char>, Seq<char>>,
    a: Seq<Seq<char>>,
    b: Seq<Seq<char>>,
)
    ensures
        apply_all(m, a + b) == apply_all(apply_all(m, a), b),
    decreases b.len(),
{
    if b.len() == 0 {
        assert(a + b =~= a);
    } else {
        assert((a + b).drop_last() =~= a + b.drop_last());
        assert((a + b).last() == b.last());
        lemma_apply_all_concat(m, a, b.drop_last());
    }
}

} // verus!
