//! A Raft log with private entries, whose append always checks the term of
//! the entry before the new ones, the placeholder's too.

use crate::raftlog::{
    append_outcome, has_conflict, lemma_append_idempotent, lemma_append_result,
    lemma_append_succeeds, lemma_append_places_entries,
    lemma_append_replaces_conflicts, lemma_empty_append_keeps_log, lemma_matching_terms_is,
    EntryView,
};
use vstd::prelude::*;

verus! {

/// One entry of the log: its term and its command.
pub struct LogEntry {
    term_index: usize,
    command: String,
}

impl View for LogEntry {
    type V = EntryView;

    closed spec fn view(&self) -> EntryView {
        (self.term_index, self.command@)
    }
}

impl LogEntry {
    /// An entry of term `term_index` holding `command`.
    pub fn new(term_index: usize, command: String) -> (e: Self)
        ensures
            e@ == (term_index, command@),
    {
        LogEntry { term_index, command }
    }

    /// The term of the entry.
    pub fn term_index(&self) -> (t: usize)
        ensures
            t == self@.0,
    {
        self.term_index
    }

    /// The command of the entry.
    pub fn command(&self) -> (c: &String)
        ensures
            c@ == self@.1,
    {
        &self.command
    }
}

/// The views of a sequence of entries.
pub open spec fn log_entries_view(v: Seq<LogEntry>) -> Seq<EntryView> {
    v.map_values(|e: LogEntry| e@)
}

/// The log and the success flag after placing `entries` after `prev_index`.
///
/// It fails, changing nothing, when `prev_index` is past the end of the log
/// or the entry there is not of term `prev_term` (the placeholder included).
/// Otherwise it is the append of the general log: entries in place with the
/// same terms as the new ones are kept, the first entry whose term differs
/// and all that follow it are deleted, and the rest of `entries` is added.
pub open spec fn checked_append_outcome(
    log: Seq<EntryView>,
    prev_index: int,
    prev_term: usize,
    entries: Seq<EntryView>,
) -> (Seq<EntryView>, bool) {
    if 0 <= prev_index < log.len() && log[prev_index].0 != prev_term {
        (log, false)
    } else {
        append_outcome(log, prev_index, prev_term, entries)
    }
}

/// A log of entries, starting with a placeholder of term 0.
pub struct RaftLog {
    log: Vec<LogEntry>,
}

impl View for RaftLog {
    type V = Seq<EntryView>;

    closed spec fn view(&self) -> Seq<EntryView> {
        log_entries_view(self.log@)
    }
}

impl RaftLog {
    /// A log holding only the placeholder entry: term 0, empty command.
    pub fn new() -> (log: Self)
        ensures
            log@ == seq![(0usize, Seq::<char>::empty())],
    {
        let mut entries: Vec<LogEntry> = Vec::new();
        entries.push(LogEntry::new(0, String::new()));
        let log = RaftLog { log: entries };
        assert(log@ =~= seq![(0usize, Seq::<char>::empty())]);
        log
    }

    /// The number of entries, the placeholder included.
    pub fn len(&self) -> (n: usize)
        ensures
            n == self@.len(),
    {
        self.log.len()
    }

    /// The entry at position `index`.
    pub fn entry(&self, index: usize) -> (e: &LogEntry)
        requires
            index < self@.len(),
        ensures
            e@ == self@[index as int],
    {
        &self.log[index]
    }

    /// Adds a new entry of `leader_term` with `command` at the end of the log.
    pub fn add_new_command(&mut self, leader_term: usize, command: String)
        ensures
            final(self)@ == old(self)@.push((leader_term, command@)),
    {
        self.log.push(LogEntry::new(leader_term, command));
        assert(self@ =~= old(self)@.push((leader_term, command@)));
    }

    /// Places `entries` after `prev_index` when the log has an entry there of
    /// `prev_term`; entries in place from another term than the new entry for
    /// their position are deleted with all that follow them. Returns whether
    /// the entries were accepted.
    pub fn append_entries(&mut self, prev_index: usize, prev_term: usize, entries: Vec<LogEntry>) -> (success: bool)
        ensures
            (final(self)@, success) == checked_append_outcome(
                old(self)@,
                prev_index as int,
                prev_term,
                log_entries_view(entries@),
            ),
    {
        let ghost log = self@;
        let ghost new = log_entries_view(entries@);
        if prev_index >= self.log.len() {
            return false;
        }
        if self.log[prev_index].term_index != prev_term {
            return false;
        }
        let start = prev_index + 1;
        let slice_len = self.log.len() - start;
        let ghost rest = log.skip(start as int);
        let mut n: usize = 0;
        while n < slice_len && n < entries.len() && self.log[start + n].term_index
            == entries[n].term_index
            invariant
                start + slice_len == self.log.len(),
                self@ == log,
                new == log_entries_view(entries@),
                rest == log.skip(start as int),
                n <= slice_len,
                n <= entries.len(),
                forall|j: int| 0 <= j < n ==> #[trigger] rest[j].0 == new[j].0,
            decreases slice_len - n,
        {
            assert(rest[n as int].0 == self.log@[start + n].term_index);
            n = n + 1;
        }
        proof {
            if n < slice_len && n < entries.len() {
                assert(rest[n as int].0 == self.log@[start + n].term_index);
            }
            lemma_matching_terms_is(rest, new, n as int);
        }
        let conflict = n < slice_len && n < entries.len();
        let mut entries = entries;
        let mut tail = entries.split_off(n);
        assert(log_entries_view(tail@) =~= new.skip(n as int));
        if conflict {
            self.log.truncate(start + n);
            assert(self@ =~= log.take(start + n));
        }
        self.log.append(&mut tail);
        proof {
            if n < slice_len && n < new.len() {
                assert(self@ =~= log.take(start + n) + new.skip(n as int));
            } else {
                assert(self@ =~= log + new.skip(n as int));
            }
        }
        true
    }
}

/// Adds two numbers.
pub fn add(left: u64, right: u64) -> (sum: u64)
    requires
        left + right <= u64::MAX,
    ensures
        sum == left + right,
{
    left + right
}

/// Appending fails, changing nothing, when `prev_index` is past the end of
/// the log or its entry is of another term than `prev_term`.
pub proof fn lemma_checked_append_checks_prev(
    log: Seq<EntryView>,
    prev_index: int,
    prev_term: usize,
    entries: Seq<EntryView>,
)
    requires
        prev_index >= log.len() || (0 <= prev_index && log[prev_index].0 != prev_term),
    ensures
        checked_append_outcome(log, prev_index, prev_term, entries) == (log, false),
{
}

/// An empty list of entries never changes the log, whether it is accepted or not.
pub proof fn lemma_checked_empty_append_keeps_log(log: Seq<EntryView>, prev_index: int, prev_term: usize)
    ensures
        checked_append_outcome(log, prev_index, prev_term, Seq::empty()).0 == log,
{
    lemma_empty_append_keeps_log(log, prev_index, prev_term);
}

/// After a successful append, the log up to `prev_index` is what it was, and
/// each new entry's term stands at its position after `prev_index`.
pub proof fn lemma_checked_append_places_entries(
    log: Seq<EntryView>,
    prev_index: int,
    prev_term: usize,
    entries: Seq<EntryView>,
)
    requires
        checked_append_outcome(log, prev_index, prev_term, entries).1,
    ensures
        ({
            let after = checked_append_outcome(log, prev_index, prev_term, entries).0;
            &&& after.len() >= prev_index + 1 + entries.len()
            &&& after.take(prev_index + 1) == log.take(prev_index + 1)
            &&& forall|i: int|
                0 <= i < entries.len() ==> #[trigger] after[prev_index + 1 + i].0 == entries[i].0
        }),
{
    lemma_append_places_entries(log, prev_index, prev_term, entries);
}

/// When a new entry's term differs from that of the entry in place at its
/// position, a successful append deletes that entry and all that follow it:
/// the log ends with the new entries.
pub proof fn lemma_checked_append_replaces_conflicts(
    log: Seq<EntryView>,
    prev_index: int,
    prev_term: usize,
    entries: Seq<EntryView>,
    j: int,
)
    requires
        checked_append_outcome(log, prev_index, prev_term, entries).1,
        0 <= j < entries.len(),
        prev_index + 1 + j < log.len(),
        log[prev_index + 1 + j].0 != entries[j].0,
    ensures
        checked_append_outcome(log, prev_index, prev_term, entries).0.len() == prev_index + 1
            + entries.len(),
{
    lemma_append_replaces_conflicts(log, prev_index, prev_term, entries, j);
}

/// Appending the same entries a second time gives the same log and the same
/// answer as the first time.
pub proof fn lemma_checked_append_idempotent(
    log: Seq<EntryView>,
    prev_index: int,
    prev_term: usize,
    entries: Seq<EntryView>,
)
    ensures
        ({
            let once = checked_append_outcome(log, prev_index, prev_term, entries);
            checked_append_outcome(once.0, prev_index, prev_term, entries) == once
        }),
{
    let once = checked_append_outcome(log, prev_index, prev_term, entries);
    if once.1 {
        lemma_append_places_entries(log, prev_index, prev_term, entries);
        lemma_append_idempotent(log, prev_index, prev_term, entries);
        assert(once.0[prev_index] == once.0.take(prev_index + 1)[prev_index]);
        assert(log[prev_index] == log.take(prev_index + 1)[prev_index]);
    }
}

/// An append fails only on a hole or a wrong previous term: when the log has
/// an entry of `prev_term` at `prev_index`, the entries are accepted; and
/// appending right after the last entry adds them all at the end.
pub proof fn lemma_checked_append_succeeds(
    log: Seq<EntryView>,
    prev_index: int,
    prev_term: usize,
    entries: Seq<EntryView>,
)
    requires
        0 <= prev_index < log.len(),
        log[prev_index].0 == prev_term,
    ensures
        checked_append_outcome(log, prev_index, prev_term, entries).1,
        prev_index == log.len() - 1 ==> checked_append_outcome(
            log,
            prev_index,
            prev_term,
            entries,
        ).0 == log + entries,
{
    lemma_append_succeeds(log, prev_index, prev_term, entries);
    if prev_index == log.len() - 1 {
        assert(log.skip(prev_index + 1) =~= Seq::<EntryView>::empty());
        assert(entries.skip(0) =~= entries);
    }
}

/// What a successful append leaves: the log up to `prev_index` as it was;
/// at each position after it either the new entry or the entry already
/// there, which then has the same term; when a new entry conflicts with the
/// one in place, the log ends with the new entries; otherwise every entry
/// already in the log stays and the log only grows as far as the new
/// entries reach.
pub proof fn lemma_checked_append_result(
    log: Seq<EntryView>,
    prev_index: int,
    prev_term: usize,
    entries: Seq<EntryView>,
)
    requires
        checked_append_outcome(log, prev_index, prev_term, entries).1,
    ensures
        ({
            let after = checked_append_outcome(log, prev_index, prev_term, entries).0;
            let p = prev_index;
            &&& 0 <= p < log.len()
            &&& log[p].0 == prev_term
            &&& after.take(p + 1) == log.take(p + 1)
            &&& forall|i: int|
                0 <= i < entries.len() ==> {
                    &&& #[trigger] after[p + 1 + i].0 == entries[i].0
                    &&& after[p + 1 + i] == entries[i] || (p + 1 + i < log.len() && after[p + 1
                        + i] == log[p + 1 + i])
                }
            &&& has_conflict(log, p, entries) ==> after.len() == p + 1 + entries.len()
            &&& !has_conflict(log, p, entries) ==> {
                &&& after.len() == if log.len() >= p + 1 + entries.len() {
                    log.len() as int
                } else {
                    p + 1 + entries.len()
                }
                &&& forall|k: int| 0 <= k < log.len() ==> #[trigger] after[k] == log[k]
            }
        }),
{
    lemma_append_result(log, prev_index, prev_term, entries);
}

} // verus!