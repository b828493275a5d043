//! Types shared by the parts of a Raft server, and the commit-index rule.

use crate::raftconsensus::{AppendEntriesRequest, AppendEntriesResponse};
use crate::raftserver::{RequestVote, RequestVoteResponse};
use vstd::prelude::*;
use vstd::relations::{sorted_by, total_ordering};
use vstd::seq_lib::*;

verus! {

broadcast use group_to_multiset_ensures;

/// The role a server plays in the cluster.
#[derive(Debug, PartialEq, Eq, Structural, Clone, Copy)]
pub enum Role {
    Leader,
    Follower,
    Candidate,
}

/// A message between Raft servers.
#[derive(Debug)]
pub enum RaftNetMessage {
    RequestVote(RequestVote),
    RequestVoteResponse(RequestVoteResponse),
    AppendEntries(AppendEntriesRequest),
    AppendEntriesResponse(AppendEntriesResponse),
}

/// A message on a server's internal event queue.
#[derive(Debug)]
pub enum InternalMessage {
    /// A command line from the client connected at `addr`.
    ClientCommand { addr: String, payload: String },
    /// A line typed at the server's console.
    ConsoleCommand(String),
    /// Raw text from the Raft network.
    RaftNet(String),
    AppendEntriesRequest { server_id: usize, payload: String },
    AppendEntriesResponse { server_id: usize, payload: String },
    /// A message from another Raft server.
    IncomingRaftMessage(RaftNetMessage),
    /// The election timer ran out without word from a leader.
    StartElection,
    /// A second of the clock.
    Tick,
}

/// Ascending order on indices.
pub open spec fn ascending() -> spec_fn(usize, usize) -> bool {
    |a: usize, b: usize| a <= b
}

/// The lower median of `s`: the element at position `(len - 1) / 2` once
/// `s` is sorted; 0 for an empty `s`.
pub open spec fn lower_median(s: Seq<usize>) -> usize {
    if s.len() == 0 {
        0
    } else {
        s.sort_by(ascending())[(s.len() - 1) / 2]
    }
}

proof fn lemma_ascending_total()
    ensures
        total_ordering(ascending()),
{
}

/// Sorts `v` in ascending order, by inserting each element in place.
fn sort_ascending(v: Vec<usize>) -> (out: Vec<usize>)
    ensures
        sorted_by(out@, ascending()),
        out@.to_multiset() == v@.to_multiset(),
{
    let mut out: Vec<usize> = Vec::new();
    let mut k: usize = 0;
    while k < v.len()
        invariant
            k <= v.len(),
            sorted_by(out@, ascending()),
            out@.to_multiset() == v@.take(k as int).to_multiset(),
        decreases v.len() - k,
    {
        let a = v[k];
        let mut i: usize = 0;
        while i < out.len() && out[i] <= a
            invariant
                i <= out.len(),
                forall|j: int| 0 <= j < i ==> out@[j] <= a,
            decreases out.len() - i,
        {
            i = i + 1;
        }
        let ghost before = out@;
        out.insert(i, a);
        proof {
            assert forall|x: int, y: int| 0 <= x < y < out@.len() implies #[trigger] (ascending())(
                out@[x],
                out@[y],
            ) by {
                if y < i {
                    assert(ascending()(before[x], before[y]));
                } else if x > i {
                    assert(ascending()(before[x - 1], before[y - 1]));
                } else if x == i {
                    if i < before.len() {
                        assert(ascending()(before[i as int], before[y - 1]));
                    }
                } else {
                    // x < i == y
                }
            }
            assert(v@.take(k as int + 1) =~= v@.take(k as int).push(a));
        }
        k = k + 1;
    }
    assert(v@.take(v.len() as int) =~= v@);
    out
}

/// The commit index a leader may adopt: the lower median of the match
/// indices of the servers, slot 0 (unused) left out.
pub fn asc_sort_median(match_index: Vec<usize>) -> (m: usize)
    requires
        match_index.len() >= 1,
    ensures
        m == lower_median(match_index@.skip(1)),
{
    let mut rest: Vec<usize> = Vec::new();
    let mut i: usize = 1;
    while i < match_index.len()
        invariant
            1 <= i <= match_index.len(),
            rest@ == match_index@.subrange(1, i as int),
        decreases match_index.len() - i,
    {
        rest.push(match_index[i]);
        i = i + 1;
    }
    assert(rest@ =~= match_index@.skip(1));
    let ghost s = rest@;
    let sorted = sort_ascending(rest);
    proof {
        lemma_ascending_total();
        s.lemma_sort_by_ensures(ascending());
        lemma_sorted_unique(sorted@, s.sort_by(ascending()), ascending());
    }
    let n = sorted.len();
    assert(sorted@ == s.sort_by(ascending()));
    assert(s.len() == n) by {
        assert(sorted@.to_multiset().len() == s.to_multiset().len());
    }
    if n == 0 {
        0
    } else if n % 2 == 0 {
        assert((n - 1) / 2 == n / 2 - 1) by (nonlinear_arith)
            requires
                n % 2 == 0,
                n > 0,
        ;
        sorted[n / 2 - 1]
    } else {
        assert((n - 1) / 2 == n / 2) by (nonlinear_arith)
            requires
                n % 2 == 1,
        ;
        sorted[n / 2]
    }
}


/// How many elements of `s` are at least `m`.
pub open spec fn count_at_least(s: Seq<usize>, m: usize) -> nat
    decreases s.len(),
{
    if s.len() == 0 {
        0
    } else {
        count_at_least(s.drop_last(), m) + (if s.last() >= m {
            1nat
        } else {
            0nat
        })
    }
}

/// How many elements of `s` are at most `m`.
pub open spec fn count_at_most(s: Seq<usize>, m: usize) -> nat
    decreases s.len(),
{
    if s.len() == 0 {
        0
    } else {
        count_at_most(s.drop_last(), m) + (if s.last() <= m {
            1nat
        } else {
            0nat
        })
    }
}

proof fn lemma_counts_remove(t: Seq<usize>, i: int, m: usize)
    requires
        0 <= i < t.len(),
    ensures
        count_at_least(t, m) == count_at_least(t.remove(i), m) + (if t[i] >= m {
            1nat
        } else {
            0nat
        }),
        count_at_most(t, m) == count_at_most(t.remove(i), m) + (if t[i] <= m {
            1nat
        } else {
            0nat
        }),
    decreases t.len(),
{
    if i == t.len() - 1 {
        assert(t.remove(i) =~= t.drop_last());
    } else {
        lemma_counts_remove(t.drop_last(), i, m);
        assert(t.remove(i).drop_last() =~= t.drop_last().remove(i));
        assert(t.remove(i).last() == t.last());
    }
}

proof fn lemma_counts_same_multiset(s: Seq<usize>, t: Seq<usize>, m: usize)
    requires
        s.to_multiset() == t.to_multiset(),
    ensures
        count_at_least(s, m) == count_at_least(t, m),
        count_at_most(s, m) == count_at_most(t, m),
    decreases s.len(),
{
    broadcast use vstd::multiset::group_multiset_axioms;

    if s.len() == 0 {
        assert(t.to_multiset().len() == 0);
        assert(t =~= Seq::<usize>::empty());
    } else {
        let x = s.last();
        let s1 = s.drop_last();
        assert(s =~= s1.push(x));
        assert(s.to_multiset().count(x) > 0);
        assert(t.to_multiset().contains(x));
        assert(t.contains(x));
        let i = choose|i: int| 0 <= i < t.len() && t[i] == x;
        let t1 = t.remove(i);
        assert(t1.to_multiset() =~= s1.to_multiset());
        lemma_counts_same_multiset(s1, t1, m);
        lemma_counts_remove(t, i, m);
    }
}

proof fn lemma_count_at_least_suffix(t: Seq<usize>, m: usize, k: int)
    requires
        0 <= k,
        forall|j: int| k <= j < t.len() ==> #[trigger] t[j] >= m,
    ensures
        count_at_least(t, m) + k >= t.len(),
    decreases t.len(),
{
    if t.len() > k {
        lemma_count_at_least_suffix(t.drop_last(), m, k);
    }
}

proof fn lemma_count_at_most_prefix(t: Seq<usize>, m: usize, j: int)
    requires
        0 <= j <= t.len(),
        forall|i: int| 0 <= i < j ==> #[trigger] t[i] <= m,
    ensures
        count_at_most(t, m) >= j,
    decreases t.len(),
{
    if t.len() > j {
        lemma_count_at_most_prefix(t.drop_last(), m, j);
    } else if j > 0 {
        lemma_count_at_most_prefix(t.drop_last(), m, j - 1);
    }
}

/// The commit index a leader adopts stands on a majority: more than half of
/// the match indices are at least it, and at least half are at most it.
pub proof fn lemma_median_majority(s: Seq<usize>)
    requires
        s.len() > 0,
    ensures
        count_at_least(s, lower_median(s)) * 2 > s.len(),
        count_at_most(s, lower_median(s)) * 2 >= s.len(),
{
    let t = s.sort_by(ascending());
    lemma_ascending_total();
    s.lemma_sort_by_ensures(ascending());
    assert(t.to_multiset().len() == s.to_multiset().len());
    let n = s.len();
    let k = (n - 1) / 2;
    let m = t[k];
    assert forall|j: int| k <= j < t.len() implies #[trigger] t[j] >= m by {
        if j > k {
            assert(ascending()(t[k], t[j]));
        }
    }
    assert forall|i: int| 0 <= i < k + 1 implies #[trigger] t[i] <= m by {
        if i < k {
            assert(ascending()(t[i], t[k]));
        }
    }
    lemma_count_at_least_suffix(t, m, k);
    lemma_count_at_most_prefix(t, m, k + 1);
    lemma_counts_same_multiset(s, t, m);
}

proof fn lemma_count_at_least_prefix_below(t: Seq<usize>, w: usize, j: int)
    requires
        0 <= j <= t.len(),
        forall|i: int| 0 <= i < j ==> #[trigger] t[i] < w,
    ensures
        count_at_least(t, w) + j <= t.len(),
    decreases t.len(),
{
    if t.len() > j {
        lemma_count_at_least_prefix_below(t.drop_last(), w, j);
    } else if j > 0 {
        lemma_count_at_least_prefix_below(t.drop_last(), w, j - 1);
    }
}

/// No value above the lower median is held by more than half of the
/// elements: the lower median is the largest value a majority holds.
pub proof fn lemma_median_is_largest_majority(s: Seq<usize>, w: usize)
    requires
        s.len() > 0,
        w > lower_median(s),
    ensures
        count_at_least(s, w) * 2 <= s.len(),
{
    let t = s.sort_by(ascending());
    lemma_ascending_total();
    s.lemma_sort_by_ensures(ascending());
    assert(t.to_multiset().len() == s.to_multiset().len());
    let n = s.len();
    let k = (n - 1) / 2;
    let m = t[k];
    assert forall|i: int| 0 <= i < k + 1 implies #[trigger] t[i] < w by {
        if i < k {
            assert(ascending()(t[i], t[k]));
        }
    }
    lemma_count_at_least_prefix_below(t, w, k + 1);
    lemma_counts_same_multiset(s, t, w);
}

} // verus!
