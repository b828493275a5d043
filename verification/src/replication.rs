//! A simple leader-to-follower replication: the leader sends its newest entry
//! after the one before it, and a follower appends what it receives.

use crate::raftlog::{append_outcome, entries_view, RaftLog, RaftLogEntry};
use vstd::prelude::*;

verus! {

/// A request to place `entries` after `prev_index`, whose entry is expected
/// to be of `prev_term`.
#[derive(Debug)]
pub struct AppendEntriesRequest {
    pub prev_index: usize,
    pub prev_term: usize,
    pub entries: Vec<RaftLogEntry>,
}

/// The replication state of one server.
pub struct RaftConsensus {
    pub server_id: usize,
    pub current_term: usize,
    pub log: RaftLog,
    pub next_index: Vec<usize>,
    pub outbound: Vec<String>,
    pub inbound: Vec<String>,
}

impl RaftConsensus {
    /// A server in `current_term` with only the placeholder in its log, and a
    /// next index of 0 for each of `num_servers` servers (slot 0 unused).
    pub fn new(server_id: usize, current_term: usize, num_servers: usize) -> (c: Self)
        requires
            num_servers < usize::MAX,
        ensures
            c.server_id == server_id,
            c.current_term == current_term,
            c.log@ == seq![(0usize, Seq::<char>::empty())],
            c.next_index@ == Seq::new((num_servers + 1) as nat, |i: int| 0usize),
            c.outbound@ == Seq::<String>::empty(),
            c.inbound@ == Seq::<String>::empty(),
    {
        let mut next_index: Vec<usize> = Vec::new();
        let mut i: usize = 0;
        while i <= num_servers
            invariant
                num_servers < usize::MAX,
                i <= num_servers + 1,
                next_index@ == Seq::new(i as nat, |j: int| 0usize),
            decreases num_servers + 1 - i,
        {
            next_index.push(0);
            i = i + 1;
            assert(next_index@ =~= Seq::new(i as nat, |j: int| 0usize));
        }
        RaftConsensus {
            server_id,
            current_term,
            log: RaftLog::new(),
            next_index,
            outbound: Vec::new(),
            inbound: Vec::new(),
        }
    }

    /// Adds a client's command to the log in the current term.
    pub fn new_client_command(&mut self, command: String)
        ensures
            final(self).log@ == old(self).log@.push((old(self).current_term, command@)),
            *final(self) == (RaftConsensus { log: final(self).log, ..*old(self) }),
    {
        let term = self.current_term;
        self.log.add_new_command(term, command);
    }

    /// The request that sends the followers the newest entry of the log,
    /// after the entry before it. The log must hold an entry besides the
    /// placeholder.
    pub fn update_followers(&self) -> (request: AppendEntriesRequest)
        requires
            self.log@.len() >= 2,
        ensures
            request.prev_index == self.log@.len() - 1,
            request.prev_term == self.log@[self.log@.len() - 2].0,
            entries_view(request.entries@) == seq![self.log@.last()],
    {
        let n = self.log.entries.len();
        let mut entries: Vec<RaftLogEntry> = Vec::new();
        entries.push(self.log.entries[n - 1].clone());
        let request = AppendEntriesRequest {
            prev_index: n - 1,
            prev_term: self.log.entries[n - 2].term,
            entries,
        };
        assert(entries_view(request.entries@) =~= seq![self.log@.last()]);
        request
    }

    /// A follower appends the entries of a leader's request to its log.
    pub fn handle_append_entries(&mut self, message: AppendEntriesRequest)
        ensures
            final(self).log@ == append_outcome(
                old(self).log@,
                message.prev_index as int,
                message.prev_term,
                entries_view(message.entries@),
            ).0,
            *final(self) == (RaftConsensus { log: final(self).log, ..*old(self) }),
    {
        self.log.append_entries(message.prev_index, message.prev_term, message.entries);
    }

    /// Queues a message for sending.
    pub fn send(&mut self, message: String)
        ensures
            final(self).outbound@ == old(self).outbound@.push(message),
            *final(self) == (RaftConsensus { outbound: final(self).outbound, ..*old(self) }),
    {
        self.outbound.push(message);
    }
}

} // verus!
