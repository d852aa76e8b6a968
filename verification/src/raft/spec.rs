//! What each transition of the core does, stated over `RaftView`: the new
//! state and the effect (or error) that answer an event.
use vstd::prelude::*;
use crate::raft::peers::{
    count_matched, has_id, has_node, ids_disjoint, ids_distinct, index_of, nodes_distinct, other_ids,
    targets_for,
};
use crate::raft::types::{
    AppendEntriesRequest, AppendEntriesResponse, AppliedEntries, Effect, Error, Event,
    HeartbeatRequest,
    LocalEntry, NodeId, OperationId, PersistedEntries, Progress, RaftView,
    ReceivedAppendEntriesResponse, ReceivedHeartbeatResponse, ReceivedVoteResponse,
    ReplicationTarget, Result, Role, State, VoteRequest, VoteResponse,
};

verus! {

/// The well-formedness of a node's state: node identifiers occur at most once
/// among the voters and learners, no node is both, the node itself is a voter,
/// and each granted vote comes from a distinct voter.
pub open spec fn wf_view(s: RaftView) -> bool {
    &&& ids_distinct(s.voters)
    &&& ids_distinct(s.learners)
    &&& ids_disjoint(s.voters, s.learners)
    &&& has_id(s.voters, s.id@)
    &&& nodes_distinct(s.granted_votes)
    &&& forall|i: int| 0 <= i < s.granted_votes.len() ==> has_id(s.voters, #[trigger] s.granted_votes[i]@)
    &&& s.voters.len() + s.learners.len() < u64::MAX
}

/// `Ok(e)` as `Ok(Some(e))`.
pub open spec fn lift(r: Result<Effect>) -> Result<Option<Effect>> {
    match r {
        Ok(e) => Ok(Some(e)),
        Err(e) => Err(e),
    }
}

pub open spec fn min_u64(a: u64, b: u64) -> u64 {
    if a <= b {
        a
    } else {
        b
    }
}

pub open spec fn max_u64(a: u64, b: u64) -> u64 {
    if a >= b {
        a
    } else {
        b
    }
}

pub open spec fn saturating_inc(a: u64) -> u64 {
    if a == u64::MAX {
        a
    } else {
        (a + 1) as u64
    }
}

pub open spec fn saturating_dec(a: u64) -> u64 {
    if a == 0 {
        0
    } else {
        (a - 1) as u64
    }
}

/// A strict majority of `n` voters.
pub open spec fn is_majority(count: nat, n: nat) -> bool {
    count > n / 2
}

/// The heartbeat a leader in state `s` sends.
pub open spec fn heartbeat_of(s: RaftView) -> HeartbeatRequest {
    HeartbeatRequest {
        term: s.current_term,
        leader_id: s.id,
        log_index: s.last_log_index,
        log_term: s.last_log_term,
        leader_commit_index: s.commit_index,
    }
}

/// `r` asks to send the leader heartbeat of `s` to every other voter.
pub open spec fn is_heartbeat_effect(s: RaftView, r: Result<Option<Effect>>) -> bool {
    match r {
        Ok(Some(Effect::SendHeartbeat { peers, request })) => {
            &&& peers@ == other_ids(s.voters, s.id@)
            &&& request == heartbeat_of(s)
        },
        _ => false,
    }
}

/// ElectionTimeout: start an election in the next term, voting for oneself, and
/// ask every other voter for its vote, carrying the hard state to persist first.
pub open spec fn election_timeout_post(old: RaftView, new: RaftView, r: Result<Option<Effect>>) -> bool {
    let term = (old.current_term + 1) as u64;
    &&& new == RaftView {
        current_term: term,
        role: Role::Candidate,
        voted_for: Some(old.id),
        granted_votes: seq![old.id],
        ..old
    }
    &&& match r {
        Ok(Some(Effect::SendRequestVotes { hard_state, peers, request })) => {
            &&& hard_state == (State { current_term: term, voted_for: Some(old.id) })
            &&& peers@ == other_ids(old.voters, old.id@)
            &&& request == (VoteRequest {
                term,
                candidate_id: old.id,
                last_log_index: old.last_log_index,
                last_log_term: old.last_log_term,
            })
        },
        _ => false,
    }
}

/// HeartbeatTimeout: a leader heartbeats every other voter; any other node refuses.
pub open spec fn heartbeat_timeout_post(old: RaftView, new: RaftView, r: Result<Option<Effect>>) -> bool {
    &&& new == old
    &&& if old.role == Role::Leader {
        is_heartbeat_effect(old, r)
    } else {
        r == Err::<Option<Effect>, Error>(Error::NotLeader(old.leader_id))
    }
}

/// Write: a leader asks for the command to be appended to its local log first.
pub open spec fn write_post(old: RaftView, new: RaftView, op: OperationId, r: Result<Option<Effect>>) -> bool {
    &&& new == old
    &&& if old.role == Role::Leader {
        r == Ok::<Option<Effect>, Error>(
            Some(
                Effect::AppendLocal {
                    operation_id: op,
                    term: old.current_term,
                    last_log_index: old.last_log_index,
                },
            ),
        )
    } else {
        r == Err::<Option<Effect>, Error>(Error::NotLeader(old.leader_id))
    }
}

/// The candidate's log is older than the local one.
pub open spec fn log_is_stale(s: RaftView, req: VoteRequest) -> bool {
    ||| req.last_log_term < s.last_log_term
    ||| (req.last_log_term == s.last_log_term && req.last_log_index < s.last_log_index)
}

/// The state after seeing a request in `term`: a higher term is adopted, with
/// no vote cast in it, and the node becomes a follower.
pub open spec fn adopt_term(s: RaftView, term: u64) -> RaftView {
    if term > s.current_term {
        RaftView {
            current_term: term,
            role: Role::Follower,
            voted_for: None,
            granted_votes: Seq::empty(),
            ..s
        }
    } else {
        s
    }
}

/// The vote in `s` is for a node other than `candidate`.
pub open spec fn voted_for_other(s: RaftView, candidate: Seq<char>) -> bool {
    match s.voted_for {
        Some(v) => v@ != candidate,
        None => false,
    }
}

/// RequestVote grants the vote exactly when the request is not from an older
/// term, the candidate's log is at least as up to date, and no other candidate
/// has the vote in the request's term.
pub open spec fn vote_granted(old: RaftView, req: VoteRequest) -> bool {
    &&& req.term >= old.current_term
    &&& !log_is_stale(old, req)
    &&& !voted_for_other(adopt_term(old, req.term), req.candidate_id@)
}

/// RequestVote: adopt a higher term first, then grant or refuse the vote; the
/// response carries the hard state to persist whenever the term or vote changed.
pub open spec fn request_vote_post(old: RaftView, new: RaftView, req: VoteRequest, r: Result<Option<Effect>>) -> bool {
    let adopted = adopt_term(old, req.term);
    let granted = vote_granted(old, req);
    let changed = req.term > old.current_term || (granted && !(match old.voted_for {
        Some(v) => v@ == req.candidate_id@,
        None => false,
    }));
    &&& new == if granted {
        RaftView { voted_for: Some(req.candidate_id), role: Role::Follower, ..adopted }
    } else {
        adopted
    }
    &&& r == Ok::<Option<Effect>, Error>(
        Some(
            Effect::SendRequestVoteResponse {
                hard_state: if changed {
                    Some(State { current_term: new.current_term, voted_for: new.voted_for })
                } else {
                    None
                },
                peer: req.candidate_id,
                response: VoteResponse { term: new.current_term, vote_granted: granted },
            },
        ),
    )
}

/// The response a node in state `s` gives to the leader.
pub open spec fn response_of(s: RaftView, success: bool) -> AppendEntriesResponse {
    AppendEntriesResponse {
        term: s.current_term,
        success,
        last_log_index: s.last_log_index,
        last_log_term: s.last_log_term,
        leader_id: s.leader_id,
    }
}

/// Heartbeat: a request from an older term is refused without touching the
/// timer; otherwise the node follows the sender (adopting a higher term and
/// clearing its vote), and if the sender's log position matches its own it
/// advances its commit index to the leader's, bounded by its own log.
pub open spec fn heartbeat_post(old: RaftView, new: RaftView, req: HeartbeatRequest, r: Result<Option<Effect>>) -> bool {
    if req.term < old.current_term {
        &&& new == old
        &&& r == Ok::<Option<Effect>, Error>(
            Some(
                Effect::SendHeartbeatResponse {
                    peer: req.leader_id,
                    response: response_of(old, false),
                    reset_election_timer: false,
                    apply_through: None,
                },
            ),
        )
    } else {
        let s1 = if req.term > old.current_term {
            RaftView { current_term: req.term, voted_for: None, ..old }
        } else {
            old
        };
        let s2 = RaftView {
            role: Role::Follower,
            granted_votes: Seq::empty(),
            leader_id: Some(req.leader_id),
            ..s1
        };
        let matches = req.log_index == old.last_log_index && req.log_term == old.last_log_term;
        let commit = min_u64(req.leader_commit_index, old.last_log_index);
        if !matches {
            &&& new == s2
            &&& r == Ok::<Option<Effect>, Error>(
                Some(
                    Effect::SendHeartbeatResponse {
                        peer: req.leader_id,
                        response: response_of(s2, false),
                        reset_election_timer: true,
                        apply_through: None,
                    },
                ),
            )
        } else if commit > old.commit_index {
            &&& new == RaftView { commit_index: commit, ..s2 }
            &&& r == Ok::<Option<Effect>, Error>(
                Some(
                    Effect::SendHeartbeatResponse {
                        peer: req.leader_id,
                        response: response_of(s2, true),
                        reset_election_timer: true,
                        apply_through: Some(commit),
                    },
                ),
            )
        } else {
            &&& new == s2
            &&& r == Ok::<Option<Effect>, Error>(
                Some(
                    Effect::SendHeartbeatResponse {
                        peer: req.leader_id,
                        response: response_of(s2, true),
                        reset_election_timer: true,
                        apply_through: None,
                    },
                ),
            )
        }
    }
}

/// AppendEntries: a request from an older term is refused; a request whose
/// previous entry lies beyond the end of the local log is refused, after the
/// node records the request's term and the sender as leader (its role and
/// vote stay as they were); a request from a newer term whose previous entry
/// lies inside the local log is accepted with truncation after that entry;
/// any other request is accepted as it stands.
pub open spec fn append_entries_post(
    old: RaftView,
    new: RaftView,
    op: OperationId,
    req: AppendEntriesRequest,
    r: Result<Option<Effect>>,
) -> bool {
    if req.term < old.current_term {
        &&& new == old
        &&& r == Ok::<Option<Effect>, Error>(
            Some(
                Effect::RejectAppendEntries {
                    operation_id: op,
                    peer: req.leader_id,
                    response: response_of(old, false),
                },
            ),
        )
    } else if req.prev_log_index > old.last_log_index {
        let s = RaftView { current_term: req.term, leader_id: Some(req.leader_id), ..old };
        &&& new == s
        &&& r == Ok::<Option<Effect>, Error>(
            Some(
                Effect::RejectAppendEntries {
                    operation_id: op,
                    peer: req.leader_id,
                    response: response_of(s, false),
                },
            ),
        )
    } else if req.term > old.current_term && req.prev_log_index < old.last_log_index {
        let s = RaftView {
            voted_for: None,
            role: Role::Follower,
            current_term: req.term,
            leader_id: Some(req.leader_id),
            ..old
        };
        &&& new == s
        &&& r == Ok::<Option<Effect>, Error>(
            Some(
                Effect::PersistEntries {
                    operation_id: op,
                    peer: req.leader_id,
                    response: AppendEntriesResponse {
                        term: req.term,
                        success: true,
                        last_log_index: req.prev_log_index,
                        last_log_term: req.prev_log_term,
                        leader_id: Some(req.leader_id),
                    },
                    truncate_after: Some(req.prev_log_index),
                    leader_commit_index: req.commit_index,
                },
            ),
        )
    } else {
        let s = RaftView {
            voted_for: if req.term > old.current_term {
                None
            } else {
                old.voted_for
            },
            current_term: req.term,
            role: Role::Follower,
            leader_id: Some(req.leader_id),
            ..old
        };
        &&& new == s
        &&& r == Ok::<Option<Effect>, Error>(
            Some(
                Effect::PersistEntries {
                    operation_id: op,
                    peer: req.leader_id,
                    response: response_of(s, true),
                    truncate_after: None,
                    leader_commit_index: req.commit_index,
                },
            ),
        )
    }
}

/// EntriesPersisted: the local log now ends at the persisted entry, and the
/// commit index advances to the leader's, bounded by the local log; a newly
/// committed range is handed over for application.
pub open spec fn entries_persisted_post(
    old: RaftView,
    new: RaftView,
    e: PersistedEntries,
    r: Result<Option<Effect>>,
) -> bool {
    let commit = min_u64(e.leader_commit_index, e.last_log_index);
    let s = RaftView { last_log_index: e.last_log_index, last_log_term: e.last_log_term, ..old };
    if commit > old.commit_index {
        &&& new == RaftView { commit_index: commit, ..s }
        &&& r == Ok::<Option<Effect>, Error>(
            Some(Effect::ApplyCommitted { operation_id: e.operation_id, through: commit }),
        )
    } else {
        &&& new == s
        &&& r == Ok::<Option<Effect>, Error>(None)
    }
}

/// EntriesApplied: application has reached `through`; a leader then completes
/// the client operation.
pub open spec fn entries_applied_post(
    old: RaftView,
    new: RaftView,
    e: AppliedEntries,
    r: Result<Option<Effect>>,
) -> bool {
    &&& new == RaftView { last_applied: e.through, ..old }
    &&& r == if old.role == Role::Leader {
        Ok::<Option<Effect>, Error>(
            Some(Effect::CompleteOperation { operation_id: e.operation_id }),
        )
    } else {
        Ok::<Option<Effect>, Error>(None)
    }
}

/// The voters after the leader's own progress moves to `index`.
pub open spec fn leader_progressed(s: RaftView, index: u64) -> Seq<(NodeId, Progress)> {
    let i = index_of(s.voters, s.id@);
    s.voters.update(
        i,
        (s.voters[i].0, Progress { match_index: index, next_index: (index + 1) as u64 }),
    )
}

/// The leader together with the other voters that have replicated through
/// `index` form a majority of `voters`.
pub open spec fn majority_matched(voters: Seq<(NodeId, Progress)>, me: NodeId, index: u64) -> bool {
    is_majority(count_matched(voters, me@, index) + 1, voters.len())
}

/// LocalEntriesAppended: only a leader accepts its own appended entry; its log
/// and its own progress move to the entry; a leader that is the only voter
/// commits the entry at once and hands it over for application, any other
/// leader replicates it to every other voter and learner (it is committed
/// later, when their responses make a majority).
pub open spec fn local_entry_appended_post(
    old: RaftView,
    new: RaftView,
    e: LocalEntry,
    r: Result<Option<Effect>>,
) -> bool {
    if old.role != Role::Leader {
        &&& new == old
        &&& r == Err::<Option<Effect>, Error>(Error::NotLeader(old.leader_id))
    } else {
        let voters = leader_progressed(old, e.index);
        let s = RaftView {
            last_log_index: e.index,
            last_log_term: e.term,
            voters,
            ..old
        };
        if old.voters.len() == 1 {
            &&& new == RaftView { commit_index: e.index, ..s }
            &&& r == Ok::<Option<Effect>, Error>(
                Some(Effect::ApplyCommitted { operation_id: e.operation_id, through: e.index }),
            )
        } else {
            &&& new == s
            &&& match r {
                Ok(Some(Effect::SendAppendEntries { operation_id, targets })) => {
                    &&& operation_id == e.operation_id
                    &&& targets@ == targets_for(
                        old.voters,
                        old.id,
                        old.last_log_index,
                        old.last_log_term,
                        old.commit_index,
                    ) + targets_for(
                        old.learners,
                        old.id,
                        old.last_log_index,
                        old.last_log_term,
                        old.commit_index,
                    )
                },
                _ => false,
            }
        }
    }
}

/// The granted votes after a granting response from `from`: a voter's vote is
/// counted once, whatever else answers.
pub open spec fn votes_after(s: RaftView, from: NodeId) -> Seq<NodeId> {
    if has_id(s.voters, from@) && !has_node(s.granted_votes, from@) {
        s.granted_votes.push(from)
    } else {
        s.granted_votes
    }
}

/// VoteResponse: only a candidate counts votes, only responses of its current
/// term count, and each voter counts once; a majority makes it leader, which
/// then heartbeats every other voter.
pub open spec fn vote_response_post(
    old: RaftView,
    new: RaftView,
    v: ReceivedVoteResponse,
    r: Result<Option<Effect>>,
) -> bool {
    if old.role != Role::Candidate {
        &&& new == old
        &&& r == Err::<Option<Effect>, Error>(Error::NotCandidate)
    } else if v.response.term != old.current_term || !v.response.vote_granted {
        &&& new == old
        &&& r == Ok::<Option<Effect>, Error>(None)
    } else {
        let votes = votes_after(old, v.from);
        if is_majority(votes.len(), old.voters.len()) {
            &&& new == RaftView { granted_votes: votes, role: Role::Leader, ..old }
            &&& is_heartbeat_effect(new, r)
        } else {
            &&& new == RaftView { granted_votes: votes, ..old }
            &&& r == Ok::<Option<Effect>, Error>(None)
        }
    }
}

/// The progress of a peer after a heartbeat response.
pub open spec fn progress_after_heartbeat(
    p: Progress,
    resp: AppendEntriesResponse,
    leader_last: u64,
) -> Progress {
    if resp.success {
        let m = max_u64(p.match_index, min_u64(resp.last_log_index, leader_last));
        Progress { match_index: m, next_index: max_u64(p.next_index, saturating_inc(m)) }
    } else {
        Progress {
            match_index: p.match_index,
            next_index: min_u64(
                saturating_dec(p.next_index),
                saturating_inc(resp.last_log_index),
            ),
        }
    }
}

/// HeartbeatResponse: a newer term makes the node a follower of the responder's
/// leader; otherwise only a leader accepts it, ignores it from an older term,
/// and updates the responder's progress (voter or learner).
pub open spec fn heartbeat_response_post(
    old: RaftView,
    new: RaftView,
    h: ReceivedHeartbeatResponse,
    r: Result<Option<Effect>>,
) -> bool {
    let resp = h.response;
    if resp.term > old.current_term {
        &&& new == RaftView {
            current_term: resp.term,
            role: Role::Follower,
            voted_for: None,
            leader_id: resp.leader_id,
            granted_votes: Seq::empty(),
            ..old
        }
        &&& r == Ok::<Option<Effect>, Error>(None)
    } else if old.role != Role::Leader {
        &&& new == old
        &&& r == Err::<Option<Effect>, Error>(Error::NotLeader(old.leader_id))
    } else if resp.term < old.current_term {
        &&& new == old
        &&& r == Ok::<Option<Effect>, Error>(None)
    } else {
        let vi = index_of(old.voters, h.from@);
        let li = index_of(old.learners, h.from@);
        &&& r == Ok::<Option<Effect>, Error>(None)
        &&& new == if vi >= 0 {
            RaftView {
                voters: old.voters.update(
                    vi,
                    (
                        old.voters[vi].0,
                        progress_after_heartbeat(old.voters[vi].1, resp, old.last_log_index),
                    ),
                ),
                ..old
            }
        } else if li >= 0 {
            RaftView {
                learners: old.learners.update(
                    li,
                    (
                        old.learners[li].0,
                        progress_after_heartbeat(old.learners[li].1, resp, old.last_log_index),
                    ),
                ),
                ..old
            }
        } else {
            old
        }
    }
}

/// `r` retries replication to `from` from the position it reported.
pub open spec fn is_retry_effect(
    old: RaftView,
    op: OperationId,
    from: NodeId,
    resp: AppendEntriesResponse,
    r: Result<Option<Effect>>,
) -> bool {
    match r {
        Ok(Some(Effect::SendAppendEntries { operation_id, targets })) => {
            &&& operation_id == op
            &&& targets@ == seq![
                ReplicationTarget {
                    peer: from,
                    last_log_index: resp.last_log_index,
                    last_log_term: resp.last_log_term,
                    leader_id: old.id,
                    leader_commit_index: old.commit_index,
                },
            ]
        },
        _ => false,
    }
}

/// The responses to an AppendEntries response on which the core has work to
/// do: as leader, of a term it does not have to adopt, reporting a log no
/// longer than its own (the core does not accept a follower ahead of its
/// leader).
pub open spec fn append_response_in_range(old: RaftView, resp: AppendEntriesResponse) -> bool {
    old.role == Role::Leader && resp.term <= old.current_term ==> resp.last_log_index
        <= old.last_log_index && resp.last_log_index < u64::MAX
}

/// AppendEntriesResponse: only a leader accepts it; a newer term makes it a
/// follower and is reported as `NotLeader`; a follower whose log is behind is
/// retried from its position (a learner stays a learner, a voter stays a
/// voter); a learner that has caught up becomes a voter; a voter that has
/// caught up is counted, and once the leader and the voters that have caught
/// up form a majority the leader's log is committed and handed over for
/// application.
pub open spec fn append_entries_response_post(
    old: RaftView,
    new: RaftView,
    a: ReceivedAppendEntriesResponse,
    r: Result<Option<Effect>>,
) -> bool {
    let resp = a.response;
    let from = a.from;
    let op = a.operation_id;
    let p = Progress {
        match_index: resp.last_log_index,
        next_index: (resp.last_log_index + 1) as u64,
    };
    let behind = resp.last_log_index < old.last_log_index;
    let li = index_of(old.learners, from@);
    let vi = index_of(old.voters, from@);
    if old.role != Role::Leader {
        &&& new == old
        &&& r == Err::<Option<Effect>, Error>(Error::NotLeader(resp.leader_id))
    } else if resp.term > old.current_term {
        &&& new == RaftView {
            current_term: resp.term,
            leader_id: resp.leader_id,
            role: Role::Follower,
            voted_for: None,
            ..old
        }
        &&& r == Err::<Option<Effect>, Error>(Error::NotLeader(resp.leader_id))
    } else if !resp.success && behind {
        &&& new == old
        &&& is_retry_effect(old, op, from, resp, r)
    } else if li >= 0 {
        if behind {
            &&& new == RaftView { learners: old.learners.update(li, (from, p)), ..old }
            &&& is_retry_effect(old, op, from, resp, r)
        } else {
            &&& new == RaftView {
                learners: old.learners.remove(li),
                voters: old.voters.push((from, p)),
                ..old
            }
            &&& r == Ok::<Option<Effect>, Error>(None)
        }
    } else if vi >= 0 {
        let voters = old.voters.update(vi, (from, p));
        if behind {
            &&& new == RaftView { voters, ..old }
            &&& is_retry_effect(old, op, from, resp, r)
        } else if majority_matched(voters, old.id, old.last_log_index) {
            &&& new == RaftView { voters, commit_index: old.last_log_index, ..old }
            &&& r == Ok::<Option<Effect>, Error>(
                Some(Effect::ApplyCommitted { operation_id: op, through: old.last_log_index }),
            )
        } else {
            &&& new == RaftView { voters, ..old }
            &&& r == Ok::<Option<Effect>, Error>(None)
        }
    } else {
        &&& new == old
        &&& r == Ok::<Option<Effect>, Error>(None)
    }
}

/// The events on which `handle` has work to do without a machine limit or a
/// follower ahead of its leader in the way.
pub open spec fn event_in_range(s: RaftView, ev: Event) -> bool {
    match ev {
        Event::ElectionTimeout => s.current_term < u64::MAX,
        Event::LocalEntriesAppended(e) => s.role == Role::Leader ==> e.index < u64::MAX,
        Event::AppendEntriesResponse(a) => append_response_in_range(s, a.response),
        _ => true,
    }
}

/// What `handle` does with each event: the transition of the matching handler.
pub open spec fn handle_post(old: RaftView, new: RaftView, ev: Event, r: Result<Option<Effect>>) -> bool {
    match ev {
        Event::ElectionTimeout => election_timeout_post(old, new, r),
        Event::HeartbeatTimeout => heartbeat_timeout_post(old, new, r),
        Event::Heartbeat(req) => heartbeat_post(old, new, req, r),
        Event::RequestVote(req) => request_vote_post(old, new, req, r),
        Event::AppendEntries(a) => append_entries_post(old, new, a.operation_id, a.request, r),
        Event::AppendEntriesResponse(a) => append_entries_response_post(old, new, a, r),
        Event::EntriesPersisted(e) => entries_persisted_post(old, new, e, r),
        Event::EntriesApplied(e) => entries_applied_post(old, new, e, r),
        Event::VoteResponse(v) => vote_response_post(old, new, v, r),
        Event::HeartbeatResponse(h) => heartbeat_response_post(old, new, h, r),
        Event::LocalEntriesAppended(e) => local_entry_appended_post(old, new, e, r),
        Event::Write(op) => write_post(old, new, op, r),
    }
}

} // verus!
