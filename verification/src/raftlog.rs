//! The replicated log of Raft: entries of a term and a command, with the
//! leader's `add_new_command` and the followers' `append_entries`.
//!
//! The log starts with a placeholder entry of term 0 at index 0, so that
//! appending after index 0 needs no special case.

use vstd::prelude::*;

verus! {

/// An entry as the proofs see it: its term and the characters of its command.
pub type EntryView = (usize, Seq<char>);

/// One entry of the log: the leader's term when it was created, and a
/// command for the application.
#[derive(Debug, PartialEq)]
pub struct RaftLogEntry {
    pub term: usize,
    pub command: String,
}

impl View for RaftLogEntry {
    type V = EntryView;

    open spec fn view(&self) -> EntryView {
        (self.term, self.command@)
    }
}

impl Clone for RaftLogEntry {
    fn clone(&self) -> (e: Self)
        ensures
            e@ == self@,
    {
        RaftLogEntry { term: self.term, command: self.command.clone() }
    }
}

impl RaftLogEntry {
    /// An entry of `term` holding `command`.
    pub fn new(term: usize, command: String) -> (e: Self)
        ensures
            e@ == (term, command@),
    {
        RaftLogEntry { term, command }
    }
}

/// The views of a sequence of entries.
pub open spec fn entries_view(v: Seq<RaftLogEntry>) -> Seq<EntryView> {
    v.map_values(|e: RaftLogEntry| e@)
}

/// The number of leading positions at which `a` and `b` hold entries of the same term.
pub open spec fn matching_terms(a: Seq<EntryView>, b: Seq<EntryView>) -> nat
    decreases a.len(),
{
    if a.len() == 0 || b.len() == 0 || a[0].0 != b[0].0 {
        0
    } else {
        1 + matching_terms(a.drop_first(), b.drop_first())
    }
}

/// `matching_terms` is the first position where the terms differ or one sequence ends.
pub proof fn lemma_matching_terms_is(a: Seq<EntryView>, b: Seq<EntryView>, n: int)
    requires
        0 <= n <= a.len(),
        n <= b.len(),
        forall|j: int| 0 <= j < n ==> #[trigger] a[j].0 == b[j].0,
        n == a.len() || n == b.len() || a[n].0 != b[n].0,
    ensures
        matching_terms(a, b) == n,
    decreases n,
{
    if n > 0 {
        assert(a[0].0 == b[0].0);
        assert forall|j: int| 0 <= j < n - 1 implies #[trigger] a.drop_first()[j].0
            == b.drop_first()[j].0 by {
            assert(a[j + 1].0 == b[j + 1].0);
        }
        lemma_matching_terms_is(a.drop_first(), b.drop_first(), n - 1);
    }
}

/// `matching_terms` is at most either length, and the terms agree before it.
pub proof fn lemma_matching_terms_bounds(a: Seq<EntryView>, b: Seq<EntryView>)
    ensures
        matching_terms(a, b) <= a.len(),
        matching_terms(a, b) <= b.len(),
        forall|j: int| 0 <= j < matching_terms(a, b) ==> #[trigger] a[j].0 == b[j].0,
        matching_terms(a, b) < a.len() && matching_terms(a, b) < b.len() ==> a[matching_terms(
            a,
            b,
        ) as int].0 != b[matching_terms(a, b) as int].0,
    decreases a.len(),
{
    if a.len() == 0 || b.len() == 0 || a[0].0 != b[0].0 {
    } else {
        lemma_matching_terms_bounds(a.drop_first(), b.drop_first());
        assert forall|j: int| 0 <= j < matching_terms(a, b) implies #[trigger] a[j].0 == b[j].0 by {
            if j > 0 {
                assert(a.drop_first()[j - 1] == a[j]);
                assert(b.drop_first()[j - 1] == b[j]);
            }
        }
    }
}

/// The log and the success flag after a leader asks to place `entries` after
/// position `prev_index`, whose entry it expects to be of term `prev_term`.
///
/// It fails, changing nothing, when `prev_index` is past the end of the log
/// or (in a log with more than the placeholder) its entry is of another
/// term. Otherwise entries already in place with the same terms are kept; at
/// the first position where the terms differ the log is cut, and the rest of
/// `entries` is added.
pub open spec fn append_outcome(
    log: Seq<EntryView>,
    prev_index: int,
    prev_term: usize,
    entries: Seq<EntryView>,
) -> (Seq<EntryView>, bool) {
    if prev_index < 0 || prev_index >= log.len() {
        (log, false)
    } else if log.len() > 1 && log[prev_index].0 != prev_term {
        (log, false)
    } else {
        let rest = log.skip(prev_index + 1);
        let n = matching_terms(rest, entries);
        if n < rest.len() && n < entries.len() {
            (log.take(prev_index + 1 + n) + entries.skip(n as int), true)
        } else {
            (log + entries.skip(n as int), true)
        }
    }
}

/// A log of entries, starting with a placeholder.
#[derive(Debug, PartialEq)]
pub struct RaftLog {
    pub entries: Vec<RaftLogEntry>,
}

impl View for RaftLog {
    type V = Seq<EntryView>;

    open spec fn view(&self) -> Seq<EntryView> {
        entries_view(self.entries@)
    }
}

impl RaftLog {
    /// A log holding only the placeholder entry: term 0, empty command.
    pub fn new() -> (log: Self)
        ensures
            log@ == seq![(0usize, Seq::<char>::empty())],
    {
        let mut entries: Vec<RaftLogEntry> = Vec::new();
        entries.push(RaftLogEntry::new(0, String::new()));
        let log = RaftLog { entries };
        assert(log@ =~= seq![(0usize, Seq::<char>::empty())]);
        log
    }

    /// Adds a new entry of `leader_term` with `command` at the end of the log.
    pub fn add_new_command(&mut self, leader_term: usize, command: String)
        ensures
            final(self)@ == old(self)@.push((leader_term, command@)),
    {
        self.entries.push(RaftLogEntry::new(leader_term, command));
        assert(self@ =~= old(self)@.push((leader_term, command@)));
    }

    /// Places `entries` after position `prev_index`, provided the log has an
    /// entry there and (unless it holds only the placeholder) that entry is of
    /// `prev_term`. Conflicting entries after it are replaced. Returns
    /// whether the entries were accepted.
    pub fn append_entries(
        &mut self,
        prev_index: usize,
        prev_term: usize,
        entries: Vec<RaftLogEntry>,
    ) -> (success: bool)
        ensures
            (final(self)@, success) == append_outcome(
                old(self)@,
                prev_index as int,
                prev_term,
                entries_view(entries@),
            ),
    {
        let ghost log = self@;
        let ghost new = entries_view(entries@);
        if prev_index >= self.entries.len() {
            return false;
        }
        if self.entries.len() > 1 && self.entries[prev_index].term != prev_term {
            return false;
        }
        let start = prev_index + 1;
        let slice_len = self.entries.len() - start;
        let ghost rest = log.skip(start as int);
        let mut n: usize = 0;
        while n < slice_len && n < entries.len() && self.entries[start + n].term
            == entries[n].term
            invariant
                start + slice_len == self.entries.len(),
                self@ == log,
                new == entries_view(entries@),
                rest == log.skip(start as int),
                n <= slice_len,
                n <= entries.len(),
                forall|j: int| 0 <= j < n ==> #[trigger] rest[j].0 == new[j].0,
            decreases slice_len - n,
        {
            assert(rest[n as int].0 == self.entries@[start + n].term);
            n = n + 1;
        }
        proof {
            if n < slice_len && n < entries.len() {
                assert(rest[n as int].0 == self.entries@[start + n].term);
            }
            lemma_matching_terms_is(rest, new, n as int);
        }
        let conflict = n < slice_len && n < entries.len();
        let mut entries = entries;
        let mut tail = entries.split_off(n);
        assert(entries_view(tail@) =~= new.skip(n as int));
        if conflict {
            self.entries.truncate(start + n);
            assert(self@ =~= log.take(start + n));
        }
        self.entries.append(&mut tail);
        proof {
            if n < slice_len && n < new.len() {
                assert(self@ =~= log.take(start + n) + new.skip(n as int));
            } else {
                assert(self@ =~= log + new.skip(n as int));
            }
        }
        true
    }
}


/// Placing entries after a position the log does not have fails and leaves
/// the log as it was: the log never gets a hole.
pub proof fn lemma_append_past_end_fails(
    log: Seq<EntryView>,
    prev_index: int,
    prev_term: usize,
    entries: Seq<EntryView>,
)
    requires
        prev_index >= log.len(),
    ensures
        append_outcome(log, prev_index, prev_term, entries) == (log, false),
{
}

/// Placing entries after an entry of another term than `prev_term` fails and
/// leaves the log as it was, unless the log holds only its placeholder.
pub proof fn lemma_append_term_mismatch_fails(
    log: Seq<EntryView>,
    prev_index: int,
    prev_term: usize,
    entries: Seq<EntryView>,
)
    requires
        log.len() > 1,
        0 <= prev_index < log.len(),
        log[prev_index].0 != prev_term,
    ensures
        append_outcome(log, prev_index, prev_term, entries) == (log, false),
{
}

/// An empty list of entries never changes the log, whether it is accepted or not.
pub proof fn lemma_empty_append_keeps_log(log: Seq<EntryView>, prev_index: int, prev_term: usize)
    ensures
        append_outcome(log, prev_index, prev_term, Seq::empty()).0 == log,
{
    let e = Seq::<EntryView>::empty();
    if 0 <= prev_index < log.len() && !(log.len() > 1 && log[prev_index].0 != prev_term) {
        let rest = log.skip(prev_index + 1);
        lemma_matching_terms_bounds(rest, e);
        assert(log + e.skip(0) =~= log);
    }
}

/// After a successful append, the log up to `prev_index` is what it was,
/// and each new entry's term stands at its position after `prev_index`.
pub proof fn lemma_append_places_entries(
    log: Seq<EntryView>,
    prev_index: int,
    prev_term: usize,
    entries: Seq<EntryView>,
)
    requires
        append_outcome(log, prev_index, prev_term, entries).1,
    ensures
        ({
            let after = append_outcome(log, prev_index, prev_term, entries).0;
            &&& after.len() >= prev_index + 1 + entries.len()
            &&& after.take(prev_index + 1) == log.take(prev_index + 1)
            &&& forall|i: int|
                0 <= i < entries.len() ==> #[trigger] after[prev_index + 1 + i].0 == entries[i].0
        }),
{
    let rest = log.skip(prev_index + 1);
    let n = matching_terms(rest, entries);
    lemma_matching_terms_bounds(rest, entries);
    let after = append_outcome(log, prev_index, prev_term, entries).0;
    assert(after.take(prev_index + 1) =~= log.take(prev_index + 1));
    assert forall|i: int| 0 <= i < entries.len() implies #[trigger] after[prev_index + 1 + i].0
        == entries[i].0 by {
        if i < n {
            assert(after[prev_index + 1 + i] == log[prev_index + 1 + i]);
            assert(rest[i] == log[prev_index + 1 + i]);
        } else {
            assert(after[prev_index + 1 + i] == entries.skip(n as int)[i - n]);
        }
    }
}

/// When a new entry conflicts with the entry in place at its position (their
/// terms differ), a successful append deletes that entry and all that follow
/// it: the log ends with the new entries.
pub proof fn lemma_append_replaces_conflicts(
    log: Seq<EntryView>,
    prev_index: int,
    prev_term: usize,
    entries: Seq<EntryView>,
    j: int,
)
    requires
        append_outcome(log, prev_index, prev_term, entries).1,
        0 <= j < entries.len(),
        prev_index + 1 + j < log.len(),
        log[prev_index + 1 + j].0 != entries[j].0,
    ensures
        append_outcome(log, prev_index, prev_term, entries).0.len() == prev_index + 1
            + entries.len(),
{
    let rest = log.skip(prev_index + 1);
    lemma_matching_terms_bounds(rest, entries);
    assert(rest[j] == log[prev_index + 1 + j]);
}

/// Appending the same entries a second time leaves the log as the first time
/// did; and it succeeds again when the first did, except when the first
/// append went to a log holding only an entry of a term other than
/// `prev_term` and brought new entries.
pub proof fn lemma_append_idempotent(
    log: Seq<EntryView>,
    prev_index: int,
    prev_term: usize,
    entries: Seq<EntryView>,
)
    ensures
        ({
            let (once, ok1) = append_outcome(log, prev_index, prev_term, entries);
            let (twice, ok2) = append_outcome(once, prev_index, prev_term, entries);
            &&& twice == once
            &&& !(log.len() == 1 && entries.len() > 0 && log[0].0 != prev_term) ==> ok2 == ok1
        }),
{
    let (once, ok1) = append_outcome(log, prev_index, prev_term, entries);
    if ok1 {
        lemma_append_places_entries(log, prev_index, prev_term, entries);
        assert(once[prev_index] == once.take(prev_index + 1)[prev_index]);
        assert(log[prev_index] == log.take(prev_index + 1)[prev_index]);
        let rest2 = once.skip(prev_index + 1);
        assert forall|j: int| 0 <= j < entries.len() implies #[trigger] rest2[j].0
            == entries[j].0 by {
            assert(rest2[j] == once[prev_index + 1 + j]);
        }
        lemma_matching_terms_is(rest2, entries, entries.len() as int);
        assert(once + entries.skip(entries.len() as int) =~= once);
    }
}

/// Whether some new entry has a different term from the entry already in
/// place at its position after `prev_index`.
pub open spec fn has_conflict(log: Seq<EntryView>, prev_index: int, entries: Seq<EntryView>) -> bool {
    exists|i: int|
        0 <= i < entries.len() && prev_index + 1 + i < log.len() && #[trigger] log[prev_index + 1
            + i].0 != entries[i].0
}

/// An append fails only on a hole or a wrong previous term: when the log has
/// an entry at `prev_index` and (unless it holds only the placeholder) that
/// entry is of `prev_term`, the entries are accepted, whatever the terms of
/// the entries already after it.
pub proof fn lemma_append_succeeds(
    log: Seq<EntryView>,
    prev_index: int,
    prev_term: usize,
    entries: Seq<EntryView>,
)
    requires
        0 <= prev_index < log.len(),
        log.len() == 1 || log[prev_index].0 == prev_term,
    ensures
        append_outcome(log, prev_index, prev_term, entries).1,
{
}

/// What a successful append leaves: the log up to `prev_index` as it was;
/// at each position after it either the new entry or the entry already
/// there, which then has the same term; when a new entry conflicts with the
/// one in place, the log ends with the new entries; otherwise every entry
/// already in the log stays and the log only grows as far as the new
/// entries reach.
pub proof fn lemma_append_result(
    log: Seq<EntryView>,
    prev_index: int,
    prev_term: usize,
    entries: Seq<EntryView>,
)
    requires
        append_outcome(log, prev_index, prev_term, entries).1,
    ensures
        ({
            let after = append_outcome(log, prev_index, prev_term, entries).0;
            let p = prev_index;
            &&& 0 <= p < log.len()
            &&& after.take(p + 1) == log.take(p + 1)
            &&& forall|i: int|
                0 <= i < entries.len() ==> {
                    &&& #[trigger] after[p + 1 + i].0 == entries[i].0
                    &&& after[p + 1 + i] == entries[i] || (p + 1 + i < log.len() && after[p + 1
                        + i] == log[p + 1 + i])
                }
            &&& has_conflict(log, p, entries) ==> after.len() == p + 1 + entries.len()
            &&& !has_conflict(log, p, entries) ==> {
                &&& after.len() == if log.len() >= p + 1 + entries.len() {
                    log.len() as int
                } else {
                    p + 1 + entries.len()
                }
                &&& forall|k: int| 0 <= k < log.len() ==> #[trigger] after[k] == log[k]
            }
        }),
{
    let p = prev_index;
    let rest = log.skip(p + 1);
    let n = matching_terms(rest, entries);
    lemma_matching_terms_bounds(rest, entries);
    let after = append_outcome(log, prev_index, prev_term, entries).0;
    assert(after.take(p + 1) =~= log.take(p + 1));
    assert forall|i: int| 0 <= i < entries.len() implies {
        &&& #[trigger] after[p + 1 + i].0 == entries[i].0
        &&& after[p + 1 + i] == entries[i] || (p + 1 + i < log.len() && after[p + 1 + i] == log[p
            + 1 + i])
    } by {
        if i < n {
            assert(after[p + 1 + i] == log[p + 1 + i]);
            assert(rest[i] == log[p + 1 + i]);
        } else {
            assert(after[p + 1 + i] == entries.skip(n as int)[i - n]);
        }
    }
    if n < rest.len() && n < entries.len() {
        assert(rest[n as int] == log[p + 1 + n]);
        assert(log[p + 1 + n].0 != entries[n as int].0);
        assert(has_conflict(log, p, entries));
    } else {
        assert(!has_conflict(log, p, entries)) by {
            assert forall|i: int|
                0 <= i < entries.len() && p + 1 + i < log.len() implies #[trigger] log[p + 1
                + i].0 == entries[i].0 by {
                assert(rest[i] == log[p + 1 + i]);
            }
        }
    }
}

} // verus!