//! Peer tables: sequences of `(NodeId, Progress)` pairs in which each node
//! identifier occurs at most once, and the queries the core makes of them.
use vstd::prelude::*;
use crate::raft::types::{NodeId, Progress, ReplicationTarget};

verus! {

/// Each node identifier occurs at most once in the table.
pub open spec fn ids_distinct(s: Seq<(NodeId, Progress)>) -> bool {
    forall|i: int, j: int| 0 <= i < j < s.len() ==> s[i].0@ != s[j].0@
}

/// Each node identifier occurs at most once in the list.
pub open spec fn nodes_distinct(s: Seq<NodeId>) -> bool {
    forall|i: int, j: int| 0 <= i < j < s.len() ==> s[i]@ != s[j]@
}

/// The table holds an entry for `id`.
pub open spec fn has_id(s: Seq<(NodeId, Progress)>, id: Seq<char>) -> bool {
    exists|i: int| 0 <= i < s.len() && #[trigger] s[i].0@ == id
}

/// The list holds `id`.
pub open spec fn has_node(s: Seq<NodeId>, id: Seq<char>) -> bool {
    exists|i: int| 0 <= i < s.len() && #[trigger] s[i]@ == id
}

/// No identifier occurs in both tables.
pub open spec fn ids_disjoint(a: Seq<(NodeId, Progress)>, b: Seq<(NodeId, Progress)>) -> bool {
    forall|i: int, j: int| 0 <= i < a.len() && 0 <= j < b.len() ==> a[i].0@ != b[j].0@
}

/// The position of `id` in the table, or -1.
pub open spec fn index_of(s: Seq<(NodeId, Progress)>, id: Seq<char>) -> int {
    if has_id(s, id) {
        choose|i: int| 0 <= i < s.len() && s[i].0@ == id
    } else {
        -1
    }
}

/// The identifiers of the table, in order, without `me`.
pub open spec fn other_ids(s: Seq<(NodeId, Progress)>, me: Seq<char>) -> Seq<NodeId>
    decreases s.len(),
{
    if s.len() == 0 {
        Seq::empty()
    } else {
        let rest = other_ids(s.drop_last(), me);
        if s.last().0@ != me {
            rest.push(s.last().0)
        } else {
            rest
        }
    }
}

/// How many entries of the table other than `me` have replicated through `index`.
pub open spec fn count_matched(s: Seq<(NodeId, Progress)>, me: Seq<char>, index: u64) -> nat
    decreases s.len(),
{
    if s.len() == 0 {
        0
    } else {
        let rest = count_matched(s.drop_last(), me, index);
        if s.last().0@ != me && s.last().1.match_index == index {
            rest + 1
        } else {
            rest
        }
    }
}

/// The replication target the leader `leader` sends to the table entry `p`.
pub open spec fn target_for(
    p: (NodeId, Progress),
    leader: NodeId,
    last_log_index: u64,
    last_log_term: u64,
    commit_index: u64,
) -> ReplicationTarget {
    ReplicationTarget {
        peer: p.0,
        last_log_index: if p.1.match_index <= last_log_index {
            p.1.match_index
        } else {
            last_log_index
        },
        last_log_term,
        leader_id: leader,
        leader_commit_index: commit_index,
    }
}

/// One replication target for every entry of the table other than the leader.
pub open spec fn targets_for(
    s: Seq<(NodeId, Progress)>,
    leader: NodeId,
    last_log_index: u64,
    last_log_term: u64,
    commit_index: u64,
) -> Seq<ReplicationTarget>
    decreases s.len(),
{
    if s.len() == 0 {
        Seq::empty()
    } else {
        let rest = targets_for(s.drop_last(), leader, last_log_index, last_log_term, commit_index);
        if s.last().0@ != leader@ {
            rest.push(target_for(s.last(), leader, last_log_index, last_log_term, commit_index))
        } else {
            rest
        }
    }
}

/// The entry belongs to a node other than `me`.
pub open spec fn not_of(me: Seq<char>) -> spec_fn((NodeId, Progress)) -> bool {
    |p: (NodeId, Progress)| p.0@ != me
}

/// The entry belongs to a node other than `me` and has replicated exactly
/// through `index`.
pub open spec fn replicated_by_other(me: Seq<char>, index: u64) -> spec_fn((NodeId, Progress)) -> bool {
    |p: (NodeId, Progress)| p.0@ != me && p.1.match_index == index
}

/// The entry's node identifier.
pub open spec fn node_of() -> spec_fn((NodeId, Progress)) -> NodeId {
    |p: (NodeId, Progress)| p.0
}

/// The entries of a table that belong to a node other than `me` and have
/// replicated exactly through `index`: what `count_matched` counts, so the
/// entry of `me` never adds to the count.
pub proof fn lemma_count_matched_counts_others(s: Seq<(NodeId, Progress)>, me: Seq<char>, index: u64)
    ensures
        count_matched(s, me, index) == s.filter(replicated_by_other(me, index)).len(),
    decreases s.len(),
{
    reveal(Seq::filter);
    if s.len() > 0 {
        lemma_count_matched_counts_others(s.drop_last(), me, index);
    }
}

/// The peers `other_ids` gives are the identifiers of the table's entries
/// whose identifier differs from `me`, in table order: a node is a peer
/// exactly when it is not `me`.
pub proof fn lemma_other_ids_are_the_other_entries(s: Seq<(NodeId, Progress)>, me: Seq<char>)
    ensures
        other_ids(s, me) == s.filter(not_of(me)).map_values(node_of()),
        forall|k: int| 0 <= k < other_ids(s, me).len() ==> (#[trigger] other_ids(s, me)[k])@ != me,
        forall|i: int| 0 <= i < s.len() && s[i].0@ != me ==> other_ids(s, me).contains(
            #[trigger] s[i].0,
        ),
    decreases s.len(),
{
    reveal(Seq::filter);
    let f = s.filter(not_of(me));
    if s.len() > 0 {
        let t = s.drop_last();
        lemma_other_ids_are_the_other_entries(t, me);
        let ft = t.filter(not_of(me));
        if s.last().0@ != me {
            assert(f == ft.push(s.last()));
            assert(f.map_values(node_of()) =~= ft.map_values(node_of()).push(s.last().0));
        } else {
            assert(f == ft);
        }
        assert forall|i: int| 0 <= i < s.len() && s[i].0@ != me implies other_ids(s, me).contains(
            #[trigger] s[i].0,
        ) by {
            if i < s.len() - 1 {
                assert(t[i] == s[i]);
                let k = choose|k: int| 0 <= k < other_ids(t, me).len() && other_ids(t, me)[k]
                    == t[i].0;
                assert(other_ids(s, me)[k] == t[i].0);
            } else {
                assert(other_ids(s, me).last() == s[i].0);
            }
        }
    } else {
        assert(other_ids(s, me) =~= f.map_values(node_of()));
    }
}

/// In a table without repeated identifiers, the entry found for `id` is at `index_of`.
pub proof fn lemma_index_of_unique(s: Seq<(NodeId, Progress)>, id: Seq<char>, i: int)
    requires
        ids_distinct(s),
        0 <= i < s.len(),
        s[i].0@ == id,
    ensures
        index_of(s, id) == i,
{
    assert(has_id(s, id));
    let k = index_of(s, id);
    assert(0 <= k < s.len() && s[k].0@ == id);
    if k != i {
        if k < i {
            assert(s[k].0@ != s[i].0@);
        } else {
            assert(s[i].0@ != s[k].0@);
        }
    }
}

/// Finds the entry of the table that belongs to `id`.
pub fn position(s: &Vec<(NodeId, Progress)>, id: &NodeId) -> (r: Option<usize>)
    ensures
        match r {
            Some(i) => i < s.len() && s@[i as int].0@ == id@ && forall|j: int|
                0 <= j < i ==> s@[j].0@ != id@,
            None => !has_id(s@, id@),
        },
{
    let mut i: usize = 0;
    while i < s.len()
        invariant
            i <= s.len(),
            forall|j: int| 0 <= j < i ==> s@[j].0@ != id@,
        decreases s.len() - i,
    {
        if s[i].0 == *id {
            return Some(i);
        }
        i = i + 1;
    }
    None
}

/// Whether the list holds `id`.
pub fn contains_node(s: &Vec<NodeId>, id: &NodeId) -> (r: bool)
    ensures
        r == has_node(s@, id@),
{
    let mut i: usize = 0;
    while i < s.len()
        invariant
            i <= s.len(),
            forall|j: int| 0 <= j < i ==> s@[j]@ != id@,
        decreases s.len() - i,
    {
        if s[i] == *id {
            return true;
        }
        i = i + 1;
    }
    false
}

/// The identifiers of the table other than `me`, in table order.
pub fn others(s: &Vec<(NodeId, Progress)>, me: &NodeId) -> (r: Vec<NodeId>)
    ensures
        r@ == other_ids(s@, me@),
{
    let mut out: Vec<NodeId> = Vec::new();
    let mut i: usize = 0;
    while i < s.len()
        invariant
            i <= s.len(),
            out@ == other_ids(s@.take(i as int), me@),
        decreases s.len() - i,
    {
        assert(s@.take(i + 1).drop_last() == s@.take(i as int));
        if s[i].0 != *me {
            out.push(s[i].0.clone());
        }
        i = i + 1;
    }
    assert(s@.take(s.len() as int) == s@);
    out
}

/// How many entries other than `me` have replicated exactly through `index`.
pub fn matched_count(s: &Vec<(NodeId, Progress)>, me: &NodeId, index: u64) -> (r: u64)
    requires
        s.len() < u64::MAX,
    ensures
        r == count_matched(s@, me@, index),
        r <= s.len(),
{
    let mut n: u64 = 0;
    let mut i: usize = 0;
    while i < s.len()
        invariant
            i <= s.len() < u64::MAX,
            n == count_matched(s@.take(i as int), me@, index),
            n <= i,
        decreases s.len() - i,
    {
        assert(s@.take(i + 1).drop_last() == s@.take(i as int));
        if s[i].0 != *me && s[i].1.match_index == index {
            n = n + 1;
        }
        i = i + 1;
    }
    assert(s@.take(s.len() as int) == s@);
    n
}

/// Appends the replication targets for the table entries other than the leader.
pub fn push_targets(
    out: &mut Vec<ReplicationTarget>,
    s: &Vec<(NodeId, Progress)>,
    leader: &NodeId,
    last_log_index: u64,
    last_log_term: u64,
    commit_index: u64,
)
    ensures
        final(out)@ == old(out)@ + targets_for(
            s@,
            *leader,
            last_log_index,
            last_log_term,
            commit_index,
        ),
{
    let ghost start = out@;
    let mut i: usize = 0;
    while i < s.len()
        invariant
            i <= s.len(),
            out@ == start + targets_for(
                s@.take(i as int),
                *leader,
                last_log_index,
                last_log_term,
                commit_index,
            ),
        decreases s.len() - i,
    {
        assert(s@.take(i + 1).drop_last() == s@.take(i as int));
        assert(s@.take(i + 1).last() == s@[i as int]);
        if s[i].0 != *leader {
            let m = s[i].1.match_index;
            let idx = if m <= last_log_index {
                m
            } else {
                last_log_index
            };
            out.push(
                ReplicationTarget {
                    peer: s[i].0.clone(),
                    last_log_index: idx,
                    last_log_term,
                    leader_id: leader.clone(),
                    leader_commit_index: commit_index,
                },
            );
        }
        i = i + 1;
    }
    assert(s@.take(s.len() as int) == s@);
}

/// The voter table built from a list of voters: one entry per distinct
/// voter, in order of first appearance; every voter's next index is `next`,
/// and only `me` has replicated (through `next - 1`).
pub open spec fn voter_table(ids: Seq<NodeId>, me: Seq<char>, next: u64) -> Seq<(NodeId, Progress)>
    decreases ids.len(),
{
    if ids.len() == 0 {
        Seq::empty()
    } else {
        let rest = voter_table(ids.drop_last(), me, next);
        if has_id(rest, ids.last()@) {
            rest
        } else {
            rest.push(
                (
                    ids.last(),
                    Progress {
                        next_index: next,
                        match_index: if ids.last()@ == me {
                            if next == 0 {
                                0
                            } else {
                                (next - 1) as u64
                            }
                        } else {
                            0
                        },
                    },
                ),
            )
        }
    }
}

/// Builds the voter table of `voter_table`.
pub fn build_voter_table(ids: &Vec<NodeId>, me: &NodeId, next: u64) -> (t: Vec<(NodeId, Progress)>)
    ensures
        t@ == voter_table(ids@, me@, next),
        ids_distinct(t@),
        t@.len() <= ids@.len(),
        forall|k: int| 0 <= k < ids@.len() ==> has_id(t@, #[trigger] ids@[k]@),
{
    let mut t: Vec<(NodeId, Progress)> = Vec::new();
    let mut i: usize = 0;
    while i < ids.len()
        invariant
            i <= ids@.len(),
            t@ == voter_table(ids@.take(i as int), me@, next),
            ids_distinct(t@),
            t@.len() <= i,
            forall|k: int| 0 <= k < i ==> has_id(t@, #[trigger] ids@[k]@),
        decreases ids@.len() - i,
    {
        assert(ids@.take(i + 1).drop_last() == ids@.take(i as int));
        assert(ids@.take(i + 1).last() == ids@[i as int]);
        let ghost before = t@;
        if position(&t, &ids[i]).is_none() {
            let match_index = if ids[i] == *me {
                next.saturating_sub(1)
            } else {
                0
            };
            t.push((ids[i].clone(), Progress { next_index: next, match_index }));
            assert forall|a: int, b: int| 0 <= a < b < t@.len() implies t@[a].0@ != t@[b].0@ by {
                if b == before.len() {
                    assert(before[a].0@ != ids@[i as int]@);
                } else {
                    assert(before[a].0@ != before[b].0@);
                }
            }
            assert forall|k: int| 0 <= k < i + 1 implies has_id(t@, #[trigger] ids@[k]@) by {
                if k < i {
                    let j = choose|j: int| 0 <= j < before.len() && #[trigger] before[j].0@ == ids@[k]@;
                    assert(t@[j].0@ == ids@[k]@);
                } else {
                    assert(t@[before.len() as int].0@ == ids@[k]@);
                }
            }
        }
        i = i + 1;
    }
    assert(ids@.take(ids@.len() as int) == ids@);
    t
}

} // verus!
