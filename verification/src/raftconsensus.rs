//! The consensus state of one Raft server and its log-replication rules:
//! what a leader sends a follower, how a follower takes it, what it answers,
//! and how the leader takes the answer.
//!
//! Messages are values here; turning them into text for the network is left
//! to the caller.

use crate::raftlog::{
    append_outcome, entries_view, lemma_append_succeeds, lemma_empty_append_keeps_log, EntryView,
    RaftLog, RaftLogEntry,
};
use crate::raftserver::{parse_usize, parse_usize_result, RequestVote};
use crate::shared::{
    asc_sort_median, count_at_least, lemma_median_is_largest_majority, lemma_median_majority,
    lower_median, Role,
};
use crate::text::{
    all_digits, is_ascii_digit, lemma_nat_decimal_reads_back, nat_decimal, strings_view,
    usize_to_string,
};
use vstd::string::*;
use vstd::prelude::*;

verus! {

/// A leader's request that a follower place entries after `prev_index`.
#[derive(Debug)]
pub struct AppendEntriesRequest {
    pub term: usize,
    pub leader_id: usize,
    pub leader_commit_index: usize,
    pub prev_index: usize,
    pub prev_term: usize,
    pub entries: Vec<RaftLogEntry>,
}

/// A follower's answer to an `AppendEntriesRequest`.
#[derive(Debug)]
pub struct AppendEntriesResponse {
    pub follower_id: usize,
    pub match_index: usize,
    pub term: usize,
    pub success: bool,
}

/// The consensus state of one server.
///
/// Servers are numbered from 1 to `num_servers`; the per-server vectors
/// `next_index` and `match_index` have a slot for each number and an unused
/// slot 0.
pub struct RaftConsensus {
    pub server_id: usize,
    pub num_servers: usize,
    pub role: Role,
    pub outbound: Vec<String>,
    pub current_term: usize,
    pub voted_for: Option<usize>,
    pub log: RaftLog,
    pub commit_index: usize,
    pub last_applied: usize,
    pub next_index: Vec<usize>,
    pub match_index: Vec<usize>,
}

/// What a leader sends the follower whose next index is `next`: the entry at
/// `next` after the one before it, or, when `next` is 0 or past the log, an
/// empty request after the placeholder.
pub open spec fn update_request(log: Seq<EntryView>, next: usize) -> (usize, usize, Seq<EntryView>) {
    if next == 0 || next >= log.len() {
        (0, 0, Seq::empty())
    } else {
        ((next - 1) as usize, log[next - 1].0, log.subrange(next as int, next + 1))
    }
}

/// The commit index of a leader with `log` in `term` once its match indices
/// are `match_index` (slot 0 unused): the lower median of the match indices
/// when the leader's entry there is of `term`, else `commit` unchanged.
pub open spec fn leader_commit_index(
    log: Seq<EntryView>,
    term: usize,
    commit: usize,
    match_index: Seq<usize>,
) -> usize {
    let m = lower_median(match_index.skip(1));
    if m < log.len() && log[m as int].0 == term {
        m
    } else {
        commit
    }
}

/// The line that queues `text` for server `to`: the number in decimal, a
/// space, and the text.
pub open spec fn addressed(to: usize, text: Seq<char>) -> Seq<char> {
    nat_decimal(to as nat) + seq![' '] + text
}

/// The number of characters of `s` before its first space (all of them
/// when it has none).
pub open spec fn space_free_len(s: Seq<char>) -> nat
    decreases s.len(),
{
    if s.len() == 0 || s[0] == ' ' {
        0
    } else {
        1 + space_free_len(s.drop_first())
    }
}

/// What a queued line says: the server number before its first space and
/// the text after it; `None` when there is no space or no number before it.
pub open spec fn split_addressed_result(s: Seq<char>) -> Option<(usize, Seq<char>)> {
    let i = space_free_len(s) as int;
    if i == s.len() {
        None
    } else {
        match parse_usize_result(s.take(i)) {
            Some(to) => Some((to, s.skip(i + 1))),
            None => None,
        }
    }
}

impl RaftConsensus {
    /// The per-server vectors have a slot for every server and the log holds
    /// at least its placeholder.
    pub open spec fn wf(&self) -> bool {
        &&& self.next_index@.len() == self.num_servers + 1
        &&& self.match_index@.len() == self.num_servers + 1
        &&& self.log@.len() >= 1
    }

    /// A server in term 1 with only the placeholder in its log; it expects
    /// every other server to need its entry 1 next and to match nothing yet.
    pub fn new(server_id: usize, num_servers: usize, role: Role) -> (c: Self)
        requires
            num_servers < usize::MAX,
        ensures
            c.wf(),
            c.server_id == server_id,
            c.num_servers == num_servers,
            c.role == role,
            c.outbound@ == Seq::<String>::empty(),
            c.current_term == 1,
            c.voted_for is None,
            c.log@ == seq![(0usize, Seq::<char>::empty())],
            c.commit_index == 0,
            c.last_applied == 0,
            forall|i: int| 0 <= i <= num_servers ==> c.next_index@[i] == 1 && c.match_index@[i] == 0,
    {
        let mut next_index: Vec<usize> = Vec::new();
        let mut match_index: Vec<usize> = Vec::new();
        let mut i: usize = 0;
        while i <= num_servers
            invariant
                num_servers < usize::MAX,
                i <= num_servers + 1,
                next_index@.len() == i,
                match_index@.len() == i,
                forall|j: int| 0 <= j < i ==> next_index@[j] == 1 && match_index@[j] == 0,
            decreases num_servers + 1 - i,
        {
            next_index.push(1);
            match_index.push(0);
            i = i + 1;
        }
        RaftConsensus {
            server_id,
            num_servers,
            role,
            outbound: Vec::new(),
            current_term: 1,
            voted_for: None,
            log: RaftLog::new(),
            commit_index: 0,
            last_applied: 0,
            next_index,
            match_index,
        }
    }

    /// A leader adds a client's command to its log, in its current term.
    pub fn new_client_command(&mut self, command: String)
        requires
            old(self).role == Role::Leader,
        ensures
            final(self).log@ == old(self).log@.push((old(self).current_term, command@)),
            *final(self) == (RaftConsensus { log: final(self).log, ..*old(self) }),
    {
        let term = self.current_term;
        self.log.add_new_command(term, command);
    }

    /// The request a leader sends to bring `follower_id` up to date: the
    /// entry at the follower's next index, after the entry before it.
    pub fn update_follower(&self, follower_id: usize) -> (request: AppendEntriesRequest)
        requires
            self.wf(),
            self.role == Role::Leader,
            self.server_id != follower_id,
            follower_id < self.next_index@.len(),
        ensures
            request.term == self.current_term,
            request.leader_id == self.server_id,
            request.leader_commit_index == self.commit_index,
            (request.prev_index, request.prev_term, entries_view(request.entries@))
                == update_request(self.log@, self.next_index@[follower_id as int]),
    {
        let next_index = self.next_index[follower_id];
        if next_index == 0 || next_index >= self.log.entries.len() {
            let request = AppendEntriesRequest {
                term: self.current_term,
                leader_id: self.server_id,
                leader_commit_index: self.commit_index,
                prev_index: 0,
                prev_term: 0,
                entries: Vec::new(),
            };
            assert(entries_view(request.entries@) =~= Seq::<EntryView>::empty());
            request
        } else {
            let mut entries: Vec<RaftLogEntry> = Vec::new();
            entries.push(self.log.entries[next_index].clone());
            let request = AppendEntriesRequest {
                term: self.current_term,
                leader_id: self.server_id,
                leader_commit_index: self.commit_index,
                prev_index: next_index - 1,
                prev_term: self.log.entries[next_index - 1].term,
                entries,
            };
            assert(entries_view(request.entries@) =~= self.log@.subrange(
                next_index as int,
                next_index + 1,
            ));
            request
        }
    }

    /// A leader takes a follower's answer. On success it records how far the
    /// follower's log matches its own; the lower median of the match indices
    /// then becomes the commit index, provided the leader's entry there is of
    /// its current term (entries of earlier terms are never committed by
    /// counting copies). On failure from a follower not ahead in term it
    /// steps the follower's next index back by one.
    pub fn handle_append_entries_response(&mut self, message: AppendEntriesResponse)
        requires
            old(self).wf(),
            message.follower_id < old(self).next_index@.len(),
            message.success ==> message.match_index < usize::MAX,
            !message.success && message.term <= old(self).current_term ==> old(
                self,
            ).next_index@[message.follower_id as int] > 0,
        ensures
            final(self).wf(),
            message.success ==> {
                &&& final(self).match_index@ == old(self).match_index@.update(
                    message.follower_id as int,
                    message.match_index,
                )
                &&& final(self).next_index@ == old(self).next_index@.update(
                    message.follower_id as int,
                    (message.match_index + 1) as usize,
                )
                &&& final(self).commit_index == leader_commit_index(
                    old(self).log@,
                    old(self).current_term,
                    old(self).commit_index,
                    final(self).match_index@,
                )
                &&& *final(self) == (RaftConsensus {
                    match_index: final(self).match_index,
                    next_index: final(self).next_index,
                    commit_index: final(self).commit_index,
                    ..*old(self)
                })
            },
            !message.success && message.term <= old(self).current_term ==> {
                &&& final(self).next_index@ == old(self).next_index@.update(
                    message.follower_id as int,
                    (old(self).next_index@[message.follower_id as int] - 1) as usize,
                )
                &&& *final(self) == (RaftConsensus { next_index: final(self).next_index, ..*old(self) })
            },
            !message.success && message.term > old(self).current_term ==> *final(self) == *old(
                self,
            ),
    {
        let f = message.follower_id;
        if message.success {
            self.match_index.set(f, message.match_index);
            self.next_index.set(f, message.match_index + 1);
            let m = asc_sort_median(self.match_index.clone());
            if m < self.log.entries.len() && self.log.entries[m].term == self.current_term {
                self.commit_index = m;
            }
        } else if message.term <= self.current_term {
            let n = self.next_index[f];
            self.next_index.set(f, n - 1);
        }
    }

    /// A follower takes a leader's request. A request from an older term is
    /// refused and changes nothing. Otherwise the follower takes the
    /// request's term if it is newer, raises its commit index to the
    /// leader's if that is higher, and appends the entries to its log.
    /// Returns the leader and whether the entries were accepted.
    pub fn handle_append_entries_request(&mut self, message: AppendEntriesRequest) -> (answer: (
        usize,
        bool,
    ))
        requires
            old(self).wf(),
            old(self).role == Role::Follower,
        ensures
            final(self).wf(),
            answer.0 == message.leader_id,
            message.term < old(self).current_term ==> {
                &&& !answer.1
                &&& *final(self) == *old(self)
            },
            message.term >= old(self).current_term ==> {
                &&& final(self).current_term == message.term
                &&& final(self).commit_index == if message.leader_commit_index > old(
                    self,
                ).commit_index {
                    message.leader_commit_index
                } else {
                    old(self).commit_index
                }
                &&& (final(self).log@, answer.1) == append_outcome(
                    old(self).log@,
                    message.prev_index as int,
                    message.prev_term,
                    entries_view(message.entries@),
                )
                &&& *final(self) == (RaftConsensus {
                    log: final(self).log,
                    commit_index: final(self).commit_index,
                    current_term: final(self).current_term,
                    ..*old(self)
                })
            },
    {
        if message.term < self.current_term {
            return (message.leader_id, false);
        }
        self.current_term = message.term;
        if message.leader_commit_index > self.commit_index {
            self.commit_index = message.leader_commit_index;
        }
        let ok = self.log.append_entries(message.prev_index, message.prev_term, message.entries);
        proof {
            lemma_append_keeps_placeholder(
                old(self).log@,
                message.prev_index as int,
                message.prev_term,
                entries_view(message.entries@),
            );
        }
        (message.leader_id, ok)
    }

    /// A follower's answer to `leader_id`: how far its log reaches, its
    /// term, and whether it accepted the request.
    pub fn respond_to_leader(&self, leader_id: usize, success: bool) -> (answer: (
        usize,
        AppendEntriesResponse,
    ))
        requires
            self.wf(),
            self.role == Role::Follower,
        ensures
            answer.0 == leader_id,
            answer.1.follower_id == self.server_id,
            answer.1.match_index == self.log@.len() - 1,
            answer.1.term == self.current_term,
            answer.1.success == success,
    {
        let message = AppendEntriesResponse {
            follower_id: self.server_id,
            match_index: self.log.entries.len() - 1,
            term: self.current_term,
            success,
        };
        (leader_id, message)
    }

    /// Queues a message for sending.
    pub fn send(&mut self, message: String)
        ensures
            final(self).outbound@ == old(self).outbound@.push(message),
            *final(self) == (RaftConsensus { outbound: final(self).outbound, ..*old(self) }),
    {
        self.outbound.push(message);
    }

    /// Queues `text` for the server numbered `to`, as the line `"to text"`.
    pub fn queue_message(&mut self, to: usize, text: &str)
        ensures
            strings_view(final(self).outbound@) == strings_view(old(self).outbound@).push(
                addressed(to, text@),
            ),
            *final(self) == (RaftConsensus { outbound: final(self).outbound, ..*old(self) }),
    {
        let number = usize_to_string(to);
        let spaced = number.concat(" ");
        let line = spaced.concat(text);
        proof {
            reveal_strlit(" ");
            assert(" "@ =~= seq![' ']);
            assert(line@ =~= addressed(to, text@));
        }
        self.send(line);
        assert(strings_view(self.outbound@) =~= strings_view(old(self).outbound@).push(
            addressed(to, text@),
        ));
    }

    /// Hands over every queued message, oldest first, and empties the queue.
    pub fn take_outbound(&mut self) -> (messages: Vec<String>)
        ensures
            messages@ == old(self).outbound@,
            final(self).outbound@ == Seq::<String>::empty(),
            *final(self) == (RaftConsensus { outbound: final(self).outbound, ..*old(self) }),
    {
        let mut messages: Vec<String> = Vec::new();
        std::mem::swap(&mut messages, &mut self.outbound);
        messages
    }

    /// The server stands for election: it becomes a candidate in the next
    /// term, votes for itself, and returns the request for votes describing
    /// its log.
    pub fn start_election(&mut self) -> (request: RequestVote)
        requires
            old(self).wf(),
            old(self).current_term < usize::MAX,
        ensures
            final(self).role == Role::Candidate,
            final(self).current_term == old(self).current_term + 1,
            final(self).voted_for == Some(old(self).server_id),
            *final(self) == (RaftConsensus {
                role: Role::Candidate,
                current_term: final(self).current_term,
                voted_for: Some(old(self).server_id),
                ..*old(self)
            }),
            request.term == final(self).current_term,
            request.candidate_id == old(self).server_id,
            request.last_log_index == old(self).log@.len() - 1,
            request.last_log_term == old(self).log@.last().0,
    {
        self.role = Role::Candidate;
        self.current_term = self.current_term + 1;
        self.voted_for = Some(self.server_id);
        let last_log_index = self.log.entries.len() - 1;
        let last_log_term = self.log.entries[last_log_index].term;
        RequestVote {
            term: self.current_term,
            candidate_id: self.server_id,
            last_log_index,
            last_log_term,
        }
    }
}

/// An append never removes the placeholder: the log keeps at least one entry.
pub proof fn lemma_append_keeps_placeholder(
    log: Seq<EntryView>,
    prev_index: int,
    prev_term: usize,
    entries: Seq<EntryView>,
)
    requires
        log.len() >= 1,
    ensures
        append_outcome(log, prev_index, prev_term, entries).0.len() >= 1,
        append_outcome(log, prev_index, prev_term, entries).0[0] == log[0],
{
    if append_outcome(log, prev_index, prev_term, entries).1 {
        crate::raftlog::lemma_append_places_entries(log, prev_index, prev_term, entries);
        let after = append_outcome(log, prev_index, prev_term, entries).0;
        assert(after[0] == after.take(prev_index + 1)[0]);
        assert(log[0] == log.take(prev_index + 1)[0]);
    }
}

/// When a follower accepts the request a leader built for it from a next
/// index `next` inside the leader's log, the follower's log has, at `next`,
/// an entry of the same term as the leader's entry there, and its entries
/// before `next` are as they were.
pub proof fn lemma_accepted_update_matches_leader(
    leader_log: Seq<EntryView>,
    next: usize,
    follower_log: Seq<EntryView>,
)
    requires
        ({
            let (prev_index, prev_term, entries) = update_request(leader_log, next);
            append_outcome(follower_log, prev_index as int, prev_term, entries).1
        }),
        0 < next < leader_log.len(),
    ensures
        ({
            let (prev_index, prev_term, entries) = update_request(leader_log, next);
            let after = append_outcome(follower_log, prev_index as int, prev_term, entries).0;
            &&& after.len() > next
            &&& after[next as int].0 == leader_log[next as int].0
            &&& after.take(next as int) == follower_log.take(next as int)
        }),
{
    let (prev_index, prev_term, entries) = update_request(leader_log, next);
    crate::raftlog::lemma_append_places_entries(follower_log, prev_index as int, prev_term, entries);
    let after = append_outcome(follower_log, prev_index as int, prev_term, entries).0;
    assert(after[prev_index + 1 + 0].0 == entries[0].0);
}

/// A leader's commit index either stays where it was or moves to an entry
/// of the leader's own term that more than half of the servers hold.
pub proof fn lemma_commit_index_has_majority(
    log: Seq<EntryView>,
    term: usize,
    commit: usize,
    match_index: Seq<usize>,
)
    requires
        match_index.len() >= 2,
    ensures
        ({
            let c = leader_commit_index(log, term, commit, match_index);
            ||| c == commit
            ||| {
                &&& c < log.len()
                &&& log[c as int].0 == term
                &&& count_at_least(match_index.skip(1), c) * 2 > match_index.len() - 1
            }
        }),
{
    lemma_median_majority(match_index.skip(1));
}

/// A leader commits the largest index held by a majority of the servers
/// when its entry there is of the leader's term: if more than half of the
/// match indices (slot 0 left out) are at least `v`, no larger index has such
/// a majority, and the leader's entry `v` is of `term`, the commit index
/// becomes `v`, whatever it was.
pub proof fn lemma_leader_commits_majority_entry(
    log: Seq<EntryView>,
    term: usize,
    commit: usize,
    match_index: Seq<usize>,
    v: usize,
)
    requires
        match_index.len() >= 2,
        v < log.len(),
        log[v as int].0 == term,
        count_at_least(match_index.skip(1), v) * 2 > match_index.len() - 1,
        forall|w: usize|
            w > v ==> #[trigger] count_at_least(match_index.skip(1), w) * 2 <= match_index.len()
                - 1,
    ensures
        leader_commit_index(log, term, commit, match_index) == v,
{
    let s = match_index.skip(1);
    let m = lower_median(s);
    lemma_median_majority(s);
    if m > v {
        assert(count_at_least(s, m) * 2 <= match_index.len() - 1);
    }
    if v > m {
        lemma_median_is_largest_majority(s, v);
    }
}

/// The request a leader builds for a follower is accepted by every follower
/// whose log agrees with the leader's up to the entry before the follower's
/// next index: it carries the leader's entry at that index, after the index
/// and term of the leader's entry before it, and once accepted the follower
/// holds an entry of the same term there. When the next index is 0 or past
/// the leader's log, the request is an empty one after the placeholder,
/// which any follower whose placeholder is of term 0 accepts without change.
pub proof fn lemma_update_request_accepted(
    leader_log: Seq<EntryView>,
    next: usize,
    follower_log: Seq<EntryView>,
)
    requires
        leader_log.len() >= 1,
        follower_log.len() >= 1,
        follower_log[0].0 == 0,
        0 < next < leader_log.len() ==> follower_log.len() >= next && follower_log.take(next as int)
            == leader_log.take(next as int),
    ensures
        ({
            let (prev_index, prev_term, entries) = update_request(leader_log, next);
            let (after, ok) = append_outcome(follower_log, prev_index as int, prev_term, entries);
            &&& ok
            &&& 0 < next < leader_log.len() ==> {
                &&& prev_index == next - 1
                &&& prev_term == leader_log[next - 1].0
                &&& entries == seq![leader_log[next as int]]
                &&& after.len() > next
                &&& after[next as int].0 == leader_log[next as int].0
                &&& after.take(next as int) == follower_log.take(next as int)
            }
            &&& !(0 < next < leader_log.len()) ==> {
                &&& prev_index == 0
                &&& prev_term == 0
                &&& entries.len() == 0
                &&& after == follower_log
            }
        }),
{
    let (prev_index, prev_term, entries) = update_request(leader_log, next);
    if 0 < next < leader_log.len() {
        assert(follower_log[next - 1] == follower_log.take(next as int)[next - 1]);
        assert(leader_log[next - 1] == leader_log.take(next as int)[next - 1]);
        lemma_append_succeeds(follower_log, prev_index as int, prev_term, entries);
        lemma_accepted_update_matches_leader(leader_log, next, follower_log);
        assert(entries =~= seq![leader_log[next as int]]);
    } else {
        lemma_append_succeeds(follower_log, 0, 0, entries);
        lemma_empty_append_keeps_log(follower_log, 0, 0);
    }
}

/// Reads a queued line back: the server number and the text for it.
pub fn split_addressed(line: &str) -> (r: Option<(usize, String)>)
    ensures
        match split_addressed_result(line@) {
            Some((to, text)) => r matches Some((t, u)) && t == to && u@ == text,
            None => r is None,
        },
{
    let mut chars: Vec<char> = Vec::new();
    for c in it: line.chars()
        invariant
            chars@ == it.seq().take(it.index() as int),
            it.seq() == line@,
    {
        chars.push(c);
    }
    assert(chars@ =~= line@);
    let n = chars.len();
    let mut i: usize = 0;
    while i < n && chars[i] != ' '
        invariant
            n == chars@.len(),
            chars@ == line@,
            i <= n,
            forall|j: int| 0 <= j < i ==> #[trigger] line@[j] != ' ',
        decreases n - i,
    {
        i = i + 1;
    }
    proof {
        lemma_space_free_len_is(line@, i as int);
    }
    if i == n {
        return None;
    }
    let head = line.substring_char(0, i);
    assert(head@ =~= line@.take(i as int));
    match parse_usize(head) {
        Some(to) => {
            let rest = String::from_str(line.substring_char(i + 1, n));
            assert(rest@ =~= line@.skip(i + 1));
            Some((to, rest))
        },
        None => None,
    }
}

/// `space_free_len` is the first position holding a space, or the length.
pub proof fn lemma_space_free_len_is(s: Seq<char>, i: int)
    requires
        0 <= i <= s.len(),
        forall|j: int| 0 <= j < i ==> #[trigger] s[j] != ' ',
        i == s.len() || s[i] == ' ',
    ensures
        space_free_len(s) == i,
    decreases i,
{
    if i > 0 {
        assert forall|j: int| 0 <= j < i - 1 implies #[trigger] s.drop_first()[j] != ' ' by {
            assert(s[j + 1] != ' ');
        }
        lemma_space_free_len_is(s.drop_first(), i - 1);
    }
}

/// A queued line reads back as the server number and the text it was queued with.
pub proof fn lemma_split_addressed_reads_back(to: usize, text: Seq<char>)
    ensures
        split_addressed_result(addressed(to, text)) == Some((to, text)),
{
    let d = nat_decimal(to as nat);
    let s = addressed(to, text);
    lemma_nat_decimal_reads_back(to as nat);
    assert forall|j: int| 0 <= j < d.len() implies #[trigger] s[j] != ' ' by {
        assert(s[j] == d[j]);
        assert(is_ascii_digit(d[j]));
    }
    assert(s[d.len() as int] == ' ');
    lemma_space_free_len_is(s, d.len() as int);
    assert(s.take(d.len() as int) =~= d);
    assert(s.skip(d.len() + 1int) =~= text);
    assert(is_ascii_digit(d[0]));
    assert(all_digits(d));
}

} // verus!
