//! Properties that hold of every transition of the core.
use vstd::prelude::*;
use crate::raft::peers::{
    count_matched, has_id, has_node, ids_disjoint, ids_distinct, index_of,
    lemma_count_matched_counts_others, lemma_index_of_unique, lemma_other_ids_are_the_other_entries,
    node_of, nodes_distinct, not_of, replicated_by_other,
};
use crate::raft::spec::{event_in_range, handle_post, is_majority, majority_matched, wf_view};
use crate::raft::types::{
    Effect, Error, Event, HeartbeatRequest, NodeId, Progress, RaftView, ReceivedHeartbeatResponse,
    Result, Role,
};

verus! {

/// A node's term never goes backwards: no event makes it forget a term it has seen.
pub proof fn lemma_term_never_decreases(old: RaftView, new: RaftView, ev: Event, r: Result<Option<Effect>>)
    requires
        wf_view(old),
        event_in_range(old, ev),
        handle_post(old, new, ev, r),
    ensures
        new.current_term >= old.current_term,
{
}

/// Within one term a node votes for at most one candidate: while the term
/// stays the same, a vote once cast stays with the same candidate.
pub proof fn lemma_one_vote_per_term(old: RaftView, new: RaftView, ev: Event, r: Result<Option<Effect>>)
    requires
        wf_view(old),
        event_in_range(old, ev),
        handle_post(old, new, ev, r),
        new.current_term == old.current_term,
        old.voted_for is Some,
    ensures
        new.voted_for is Some,
        new.voted_for.unwrap()@ == old.voted_for.unwrap()@,
{
}

/// Replication progress never changes the voter configuration by removing a
/// node: every voter remains a voter after any event.
pub proof fn lemma_voters_are_kept(
    old: RaftView,
    new: RaftView,
    ev: Event,
    r: Result<Option<Effect>>,
    id: Seq<char>,
)
    requires
        wf_view(old),
        event_in_range(old, ev),
        handle_post(old, new, ev, r),
        has_id(old.voters, id),
    ensures
        has_id(new.voters, id),
{
    let i = choose|i: int| 0 <= i < old.voters.len() && old.voters[i].0@ == id;
    match ev {
        Event::AppendEntriesResponse(a) => {
            if new.voters.len() == old.voters.len() + 1 {
                assert(new.voters[i].0@ == id);
            } else if new.voters != old.voters {
                let vi = index_of(old.voters, a.from@);
                if i == vi {
                    assert(new.voters[i].0@ == a.from@);
                } else {
                    assert(new.voters[i] == old.voters[i]);
                }
            }
        },
        Event::LocalEntriesAppended(e) => {
            if new.voters != old.voters {
                assert(new.voters[i].0@ == id);
            }
        },
        Event::HeartbeatResponse(h) => {
            if new.voters != old.voters {
                assert(new.voters[i].0@ == id);
            }
        },
        _ => {},
    }
}

/// The two tables hold the same identifiers at the same positions.
pub open spec fn same_ids(a: Seq<(NodeId, Progress)>, b: Seq<(NodeId, Progress)>) -> bool {
    &&& a.len() == b.len()
    &&& forall|j: int| 0 <= j < a.len() ==> #[trigger] a[j].0@ == b[j].0@
}

proof fn lemma_same_ids(a: Seq<(NodeId, Progress)>, b: Seq<(NodeId, Progress)>)
    requires
        same_ids(a, b),
    ensures
        ids_distinct(a) == ids_distinct(b),
        forall|x: Seq<char>| has_id(a, x) == has_id(b, x),
        forall|c: Seq<(NodeId, Progress)>| ids_disjoint(a, c) == ids_disjoint(b, c),
{
    assert forall|x: Seq<char>| has_id(a, x) == has_id(b, x) by {
        if has_id(a, x) {
            let i = choose|i: int| 0 <= i < a.len() && a[i].0@ == x;
            assert(b[i].0@ == x);
        }
        if has_id(b, x) {
            let i = choose|i: int| 0 <= i < b.len() && b[i].0@ == x;
            assert(a[i].0@ == x);
        }
    }
    assert(ids_distinct(a) == ids_distinct(b)) by {
        if ids_distinct(a) {
            assert forall|i: int, j: int| 0 <= i < j < b.len() implies b[i].0@ != b[j].0@ by {
                assert(a[i].0@ != a[j].0@);
            }
        }
        if ids_distinct(b) {
            assert forall|i: int, j: int| 0 <= i < j < a.len() implies a[i].0@ != a[j].0@ by {
                assert(b[i].0@ != b[j].0@);
            }
        }
    }
    assert forall|c: Seq<(NodeId, Progress)>| ids_disjoint(a, c) == ids_disjoint(b, c) by {
        if ids_disjoint(a, c) {
            assert forall|i: int, j: int| 0 <= i < b.len() && 0 <= j < c.len() implies b[i].0@
                != c[j].0@ by {
                assert(a[i].0@ != c[j].0@);
            }
        }
        if ids_disjoint(b, c) {
            assert forall|i: int, j: int| 0 <= i < a.len() && 0 <= j < c.len() implies a[i].0@
                != c[j].0@ by {
                assert(b[i].0@ != c[j].0@);
            }
        }
    }
}

proof fn lemma_disjoint_symmetric(a: Seq<(NodeId, Progress)>, b: Seq<(NodeId, Progress)>)
    requires
        ids_disjoint(a, b),
    ensures
        ids_disjoint(b, a),
{
    assert forall|i: int, j: int| 0 <= i < b.len() && 0 <= j < a.len() implies b[i].0@
        != a[j].0@ by {
        assert(a[j].0@ != b[i].0@);
    }
}

proof fn lemma_update_keeps_ids(s: Seq<(NodeId, Progress)>, i: int, e: (NodeId, Progress))
    requires
        0 <= i < s.len(),
        e.0@ == s[i].0@,
    ensures
        same_ids(s, s.update(i, e)),
{
}

/// Moving an entry from the learners to the end of the voters keeps the
/// identifiers distinct and the two tables disjoint.
proof fn lemma_promotion_keeps_tables(
    voters: Seq<(NodeId, Progress)>,
    learners: Seq<(NodeId, Progress)>,
    li: int,
    e: (NodeId, Progress),
)
    requires
        ids_distinct(voters),
        ids_distinct(learners),
        ids_disjoint(voters, learners),
        0 <= li < learners.len(),
        e.0@ == learners[li].0@,
    ensures
        ids_distinct(voters.push(e)),
        ids_distinct(learners.remove(li)),
        ids_disjoint(voters.push(e), learners.remove(li)),
        forall|x: Seq<char>| has_id(voters, x) ==> has_id(voters.push(e), x),
{
    let v2 = voters.push(e);
    let l2 = learners.remove(li);
    assert forall|i: int, j: int| 0 <= i < j < v2.len() implies v2[i].0@ != v2[j].0@ by {
        if j == voters.len() {
            assert(voters[i].0@ != learners[li].0@);
        } else {
            assert(voters[i].0@ != voters[j].0@);
        }
    }
    assert forall|i: int, j: int| 0 <= i < j < l2.len() implies l2[i].0@ != l2[j].0@ by {
        let oi = if i < li { i } else { i + 1 };
        let oj = if j < li { j } else { j + 1 };
        assert(learners[oi].0@ != learners[oj].0@);
    }
    assert forall|i: int, j: int| 0 <= i < v2.len() && 0 <= j < l2.len() implies v2[i].0@
        != l2[j].0@ by {
        let oj = if j < li { j } else { j + 1 };
        if i == voters.len() {
            assert(learners[li].0@ != learners[oj].0@) by {
                if li < oj {
                } else {
                }
            }
        } else {
            assert(voters[i].0@ != learners[oj].0@);
        }
    }
    assert forall|x: Seq<char>| has_id(voters, x) implies has_id(v2, x) by {
        let i = choose|i: int| 0 <= i < voters.len() && voters[i].0@ == x;
        assert(v2[i].0@ == x);
    }
}

/// Every transition keeps the state well formed: identifiers stay unique and
/// the tables disjoint, the node stays a voter, and votes stay distinct voters.
pub proof fn lemma_wf_preserved(old: RaftView, new: RaftView, ev: Event, r: Result<Option<Effect>>)
    requires
        wf_view(old),
        event_in_range(old, ev),
        handle_post(old, new, ev, r),
    ensures
        wf_view(new),
{
    match ev {
        Event::ElectionTimeout => {
            assert(has_node(new.granted_votes, old.id@) ==> true);
            assert(new.granted_votes[0]@ == old.id@);
        },
        Event::VoteResponse(v) => {
            if new.granted_votes.len() == old.granted_votes.len() + 1 {
                let g = new.granted_votes;
                assert forall|i: int, j: int| 0 <= i < j < g.len() implies g[i]@ != g[j]@ by {
                    if j == old.granted_votes.len() {
                        assert(!has_node(old.granted_votes, v.from@));
                        assert(old.granted_votes[i]@ != v.from@);
                    } else {
                        assert(old.granted_votes[i]@ != old.granted_votes[j]@);
                    }
                }
                assert forall|i: int| 0 <= i < g.len() implies has_id(new.voters, #[trigger] g[i]@) by {
                    if i < old.granted_votes.len() {
                        assert(g[i] == old.granted_votes[i]);
                    }
                }
            }
        },
        Event::LocalEntriesAppended(e) => {
            if old.role == Role::Leader {
                let i = index_of(old.voters, old.id@);
                lemma_update_keeps_ids(old.voters, i, new.voters[i]);
                assert(new.voters == old.voters.update(i, new.voters[i]));
                lemma_same_ids(old.voters, new.voters);
            }
        },
        Event::HeartbeatResponse(h) => {
            if new.voters != old.voters {
                let i = index_of(old.voters, h.from@);
                lemma_update_keeps_ids(old.voters, i, new.voters[i]);
                assert(new.voters == old.voters.update(i, new.voters[i]));
                lemma_same_ids(old.voters, new.voters);
            }
            if new.learners != old.learners {
                let i = index_of(old.learners, h.from@);
                lemma_update_keeps_ids(old.learners, i, new.learners[i]);
                assert(new.learners == old.learners.update(i, new.learners[i]));
                lemma_same_ids(old.learners, new.learners);
                lemma_disjoint_symmetric(old.voters, old.learners);
                lemma_disjoint_symmetric(new.learners, new.voters);
            }
        },
        Event::AppendEntriesResponse(a) => {
            if new.voters.len() == old.voters.len() + 1 {
                let li = index_of(old.learners, a.from@);
                lemma_promotion_keeps_tables(old.voters, old.learners, li, new.voters.last());
                assert(new.voters == old.voters.push(new.voters.last()));
            } else if new.voters != old.voters {
                let i = index_of(old.voters, a.from@);
                lemma_update_keeps_ids(old.voters, i, new.voters[i]);
                assert(new.voters == old.voters.update(i, new.voters[i]));
                lemma_same_ids(old.voters, new.voters);
            } else if new.learners != old.learners {
                let i = index_of(old.learners, a.from@);
                lemma_update_keeps_ids(old.learners, i, new.learners[i]);
                assert(new.learners == old.learners.update(i, new.learners[i]));
                lemma_same_ids(old.learners, new.learners);
                lemma_disjoint_symmetric(old.voters, old.learners);
                lemma_disjoint_symmetric(new.learners, new.voters);
            }
        },
        _ => {},
    }
}

/// A node becomes leader only by collecting the votes of a majority of the
/// voters, each voter counted once.
pub proof fn lemma_leader_needs_majority_of_votes(
    old: RaftView,
    new: RaftView,
    ev: Event,
    r: Result<Option<Effect>>,
)
    requires
        wf_view(old),
        event_in_range(old, ev),
        handle_post(old, new, ev, r),
        old.role != Role::Leader,
        new.role == Role::Leader,
    ensures
        ev is VoteResponse,
        nodes_distinct(new.granted_votes),
        forall|i: int| 0 <= i < new.granted_votes.len() ==> has_id(new.voters, #[trigger] new.granted_votes[i]@),
        is_majority(new.granted_votes.len(), new.voters.len()),
{
    lemma_wf_preserved(old, new, ev, r);
}

/// A vote response from an earlier or later term, or a second response from a
/// voter already counted, leaves the node's state as it was: it cannot make
/// a leader.
pub proof fn lemma_stale_or_repeated_vote_is_ignored(
    old: RaftView,
    new: RaftView,
    ev: Event,
    r: Result<Option<Effect>>,
)
    requires
        wf_view(old),
        event_in_range(old, ev),
        handle_post(old, new, ev, r),
        ev is VoteResponse,
        old.role == Role::Candidate,
        ev->VoteResponse_0.response.term != old.current_term || has_node(
            old.granted_votes,
            ev->VoteResponse_0.from@,
        ),
        !is_majority(old.granted_votes.len(), old.voters.len()),
    ensures
        new == old,
        r == Ok::<Option<Effect>, Error>(None),
{
}

/// The leader commits its log only when it and the voters that have
/// replicated its last entry form a majority of the voters.
pub proof fn lemma_leader_commit_needs_majority(
    old: RaftView,
    new: RaftView,
    ev: Event,
    r: Result<Option<Effect>>,
)
    requires
        wf_view(old),
        event_in_range(old, ev),
        handle_post(old, new, ev, r),
        old.role == Role::Leader,
        ev is AppendEntriesResponse || ev is LocalEntriesAppended,
        new.commit_index != old.commit_index,
    ensures
        new.commit_index == new.last_log_index,
        majority_matched(new.voters, new.id, new.commit_index),
{
}

/// Entries are applied only through `EntriesApplied`: no other event moves
/// `last_applied`, so committing and applying stay separate steps.
pub proof fn lemma_only_application_moves_last_applied(
    old: RaftView,
    new: RaftView,
    ev: Event,
    r: Result<Option<Effect>>,
)
    requires
        wf_view(old),
        event_in_range(old, ev),
        handle_post(old, new, ev, r),
        !(ev is EntriesApplied),
    ensures
        new.last_applied == old.last_applied,
{
}

/// A follower never commits beyond its own log: when a heartbeat or persisted
/// entries move its commit index, the new commit index is within its log.
pub proof fn lemma_follower_commit_within_local_log(
    old: RaftView,
    new: RaftView,
    ev: Event,
    r: Result<Option<Effect>>,
)
    requires
        wf_view(old),
        event_in_range(old, ev),
        handle_post(old, new, ev, r),
        ev is Heartbeat || ev is EntriesPersisted,
        new.commit_index != old.commit_index,
    ensures
        new.commit_index > old.commit_index,
        new.commit_index <= new.last_log_index,
{
}

/// The commit index never goes backwards, as long as it lies within the local
/// log and a locally appended entry extends that log.
pub proof fn lemma_commit_never_decreases(
    old: RaftView,
    new: RaftView,
    ev: Event,
    r: Result<Option<Effect>>,
)
    requires
        wf_view(old),
        event_in_range(old, ev),
        handle_post(old, new, ev, r),
        old.commit_index <= old.last_log_index,
        ev is LocalEntriesAppended ==> ev->LocalEntriesAppended_0.index >= old.last_log_index,
    ensures
        new.commit_index >= old.commit_index,
{
}

/// The candidate a node has voted for, by identifier.
pub open spec fn vote_of(s: RaftView) -> Option<Seq<char>> {
    match s.voted_for {
        Some(v) => Some(v@),
        None => None,
    }
}

/// Every vote-related message carries the hard state it depends on: an
/// election's vote requests carry the new term and self-vote, and a vote
/// response carries the new term and vote whenever either changed, so the
/// runtime can persist it before sending.
pub proof fn lemma_vote_messages_carry_hard_state(
    old: RaftView,
    new: RaftView,
    ev: Event,
    r: Result<Option<Effect>>,
)
    requires
        wf_view(old),
        event_in_range(old, ev),
        handle_post(old, new, ev, r),
    ensures
        ev is ElectionTimeout ==> match r {
            Ok(Some(Effect::SendRequestVotes { hard_state, peers, request })) => hard_state == (
            crate::raft::types::State { current_term: new.current_term, voted_for: new.voted_for }),
            _ => false,
        },
        ev is RequestVote && (new.current_term != old.current_term || vote_of(new) != vote_of(
            old)) ==> match r {
            Ok(Some(Effect::SendRequestVoteResponse { hard_state, peer, response })) => hard_state
                == Some(
                crate::raft::types::State {
                    current_term: new.current_term,
                    voted_for: new.voted_for,
                },
            ),
            _ => false,
        },
{
}

/// A leader commits only with a strict majority of the voters that counts
/// the leader exactly once: the leader itself plus the other voters whose
/// replicated index is the new commit index. The leader's own entry in the
/// voter table never counts as a replicating follower.
pub proof fn lemma_commit_counts_the_leader_once(
    old: RaftView,
    new: RaftView,
    ev: Event,
    r: Result<Option<Effect>>,
)
    requires
        wf_view(old),
        event_in_range(old, ev),
        handle_post(old, new, ev, r),
        old.role == Role::Leader,
        ev is AppendEntriesResponse || ev is LocalEntriesAppended,
        new.commit_index != old.commit_index,
    ensures
        new.voters.filter(replicated_by_other(new.id@, new.commit_index)).len() + 1
            > new.voters.len() / 2,
{
    lemma_leader_commit_needs_majority(old, new, ev, r);
    lemma_count_matched_counts_others(new.voters, new.id@, new.commit_index);
}

/// A heartbeat moves the commit index only forward, and only to what the
/// leader has committed, bounded by the local log: to the smaller of the
/// leader's commit index and the local last index. It does so whenever the
/// heartbeat is not stale, matches the local log position, and that smaller
/// index lies beyond the local commit index; the response asks for exactly
/// the newly committed entries to be applied.
pub proof fn lemma_heartbeat_commits_only_what_the_leader_committed(
    old: RaftView,
    new: RaftView,
    req: HeartbeatRequest,
    r: Result<Option<Effect>>,
)
    requires
        handle_post(old, new, Event::Heartbeat(req), r),
    ensures
        new.commit_index == old.commit_index || {
            &&& old.commit_index < new.commit_index
            &&& new.commit_index <= req.leader_commit_index
            &&& new.commit_index <= old.last_log_index
            &&& (new.commit_index == req.leader_commit_index || new.commit_index
                == old.last_log_index)
        },
        req.term >= old.current_term && req.log_index == old.last_log_index && req.log_term
            == old.last_log_term && old.commit_index < req.leader_commit_index && old.commit_index
            < old.last_log_index ==> new.commit_index > old.commit_index,
        match r {
            Ok(Some(Effect::SendHeartbeatResponse { apply_through, .. })) => apply_through == if new.commit_index
                != old.commit_index {
                Some(new.commit_index)
            } else {
                None
            },
            _ => false,
        },
{
}

/// A refused heartbeat response of the leader's term rewinds the voter's
/// next index: to one below where it was (it stays at zero there), and no
/// further than just past the last index the voter reported; its match
/// index and every other entry stay as they were.
pub proof fn lemma_refused_heartbeat_rewinds_the_voter(
    old: RaftView,
    new: RaftView,
    h: ReceivedHeartbeatResponse,
    r: Result<Option<Effect>>,
    i: int,
)
    requires
        wf_view(old),
        handle_post(old, new, Event::HeartbeatResponse(h), r),
        old.role == Role::Leader,
        h.response.term == old.current_term,
        !h.response.success,
        0 <= i < old.voters.len(),
        old.voters[i].0@ == h.from@,
    ensures
        new.voters.len() == old.voters.len(),
        new.voters[i].0 == old.voters[i].0,
        new.voters[i].1.match_index == old.voters[i].1.match_index,
        old.voters[i].1.next_index > 0 ==> new.voters[i].1.next_index <= old.voters[i].1.next_index
            - 1,
        old.voters[i].1.next_index == 0 ==> new.voters[i].1.next_index == 0,
        h.response.last_log_index < u64::MAX ==> new.voters[i].1.next_index
            <= h.response.last_log_index + 1,
        new.voters[i].1.next_index + 1 == old.voters[i].1.next_index || new.voters[i].1.next_index
            == old.voters[i].1.next_index || new.voters[i].1.next_index
            == h.response.last_log_index + 1 || new.voters[i].1.next_index
            == h.response.last_log_index,
        forall|j: int| 0 <= j < old.voters.len() && j != i ==> new.voters[j] == old.voters[j],
        new.learners == old.learners,
{
    lemma_index_of_unique(old.voters, h.from@, i);
}

/// A refused heartbeat response of the leader's term rewinds the learner's
/// next index in the same way, leaving every other entry as it was.
pub proof fn lemma_refused_heartbeat_rewinds_the_learner(
    old: RaftView,
    new: RaftView,
    h: ReceivedHeartbeatResponse,
    r: Result<Option<Effect>>,
    i: int,
)
    requires
        wf_view(old),
        handle_post(old, new, Event::HeartbeatResponse(h), r),
        old.role == Role::Leader,
        h.response.term == old.current_term,
        !h.response.success,
        0 <= i < old.learners.len(),
        old.learners[i].0@ == h.from@,
    ensures
        new.learners.len() == old.learners.len(),
        new.learners[i].0 == old.learners[i].0,
        new.learners[i].1.match_index == old.learners[i].1.match_index,
        old.learners[i].1.next_index > 0 ==> new.learners[i].1.next_index
            <= old.learners[i].1.next_index - 1,
        old.learners[i].1.next_index == 0 ==> new.learners[i].1.next_index == 0,
        h.response.last_log_index < u64::MAX ==> new.learners[i].1.next_index
            <= h.response.last_log_index + 1,
        new.learners[i].1.next_index + 1 == old.learners[i].1.next_index
            || new.learners[i].1.next_index == old.learners[i].1.next_index
            || new.learners[i].1.next_index == h.response.last_log_index + 1
            || new.learners[i].1.next_index == h.response.last_log_index,
        forall|j: int| 0 <= j < old.learners.len() && j != i ==> new.learners[j] == old.learners[j],
        new.voters == old.voters,
{
    lemma_index_of_unique(old.learners, h.from@, i);
    if has_id(old.voters, h.from@) {
        let k = choose|k: int| 0 <= k < old.voters.len() && #[trigger] old.voters[k].0@ == h.from@;
        assert(old.voters[k].0@ != old.learners[i].0@);
    }
}

/// An election asks exactly the other voters for their votes, in table
/// order: a voter is asked exactly when it is not the node itself.
pub proof fn lemma_election_asks_every_other_voter(old: RaftView, new: RaftView, r: Result<Option<Effect>>)
    requires
        handle_post(old, new, Event::ElectionTimeout, r),
    ensures
        match r {
            Ok(Some(Effect::SendRequestVotes { peers, .. })) => {
                &&& peers@ == old.voters.filter(not_of(old.id@)).map_values(node_of())
                &&& forall|k: int| 0 <= k < peers@.len() ==> (#[trigger] peers@[k])@ != old.id@
                &&& forall|i: int| 0 <= i < old.voters.len() && old.voters[i].0@ != old.id@
                    ==> peers@.contains(#[trigger] old.voters[i].0)
            },
            _ => false,
        },
{
    lemma_other_ids_are_the_other_entries(old.voters, old.id@);
}

/// A leader's heartbeat goes to exactly the other voters, in table order.
pub proof fn lemma_heartbeat_reaches_every_other_voter(old: RaftView, new: RaftView, r: Result<Option<Effect>>)
    requires
        handle_post(old, new, Event::HeartbeatTimeout, r),
        old.role == Role::Leader,
    ensures
        match r {
            Ok(Some(Effect::SendHeartbeat { peers, .. })) => {
                &&& peers@ == old.voters.filter(not_of(old.id@)).map_values(node_of())
                &&& forall|k: int| 0 <= k < peers@.len() ==> (#[trigger] peers@[k])@ != old.id@
                &&& forall|i: int| 0 <= i < old.voters.len() && old.voters[i].0@ != old.id@
                    ==> peers@.contains(#[trigger] old.voters[i].0)
            },
            _ => false,
        },
{
    lemma_other_ids_are_the_other_entries(old.voters, old.id@);
}

} // verus!
