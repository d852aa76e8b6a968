use std::collections::{HashMap, HashSet};

use raft_core::raft::types::{
    AppendEntriesRequest, AppendEntriesResponse, AppliedEntries, Effect, Error, Event,
    HeartbeatRequest, LocalEntry, NodeId, OperationId, PersistedEntries, Progress, Raft,
    ReceivedAppendEntries, ReceivedAppendEntriesResponse, ReceivedHeartbeatResponse,
    ReceivedVoteResponse, Role, VoteRequest, VoteResponse,
};

fn node(id: &str) -> NodeId {
    NodeId(id.to_owned())
}

fn progress() -> Progress {
    Progress { next_index: 0, match_index: 0 }
}

fn op() -> OperationId {
    OperationId(1)
}

/// Sets the progress of `id` in a peer table, adding the peer if it is new.
fn set_progress(table: &mut Vec<(NodeId, Progress)>, id: NodeId, p: Progress) {
    match table.iter_mut().find(|(n, _)| *n == id) {
        Some(entry) => entry.1 = p,
        None => table.push((id, p)),
    }
}

fn progress_of(table: &[(NodeId, Progress)], id: &NodeId) -> Option<Progress> {
    table.iter().find(|(n, _)| n == id).map(|(_, p)| *p)
}

fn contains(table: &[(NodeId, Progress)], id: &NodeId) -> bool {
    progress_of(table, id).is_some()
}

fn follower(
    current_term: u64,
    voted_for: Option<NodeId>,
    last_log_index: u64,
    last_log_term: u64,
) -> Raft {
    let local_node = node("node-1");

    Raft {
        id: local_node.clone(),
        voters: vec![
            (local_node, progress()),
            (node("node-2"), progress()),
            (node("node-3"), progress()),
        ],
        learners: Vec::new(),
        role: Role::Follower,
        current_term,
        voted_for,
        last_applied: 0,
        commit_index: 0,
        last_log_index,
        last_log_term,
        leader_id: Some(node("old-leader")),
        granted_votes: Vec::new(),
    }
}

fn append_entries(term: u64, prev_log_index: u64, prev_log_term: u64, commit_index: u64) -> Event {
    Event::AppendEntries(ReceivedAppendEntries {
        operation_id: op(),
        request: AppendEntriesRequest {
            term,
            leader_id: node("node-2"),
            prev_log_index,
            prev_log_term,
            commit_index,
        },
        local_prev_log_term: None,
    })
}

fn request_vote(
    raft: &mut Raft,
    candidate_id: NodeId,
    term: u64,
    last_log_index: u64,
    last_log_term: u64,
) -> (NodeId, u64, bool) {
    let effect = raft
        .handle(Event::RequestVote(VoteRequest {
            term,
            candidate_id,
            last_log_index,
            last_log_term,
        }))
        .unwrap()
        .expect("RequestVote must produce an effect");

    match effect {
        Effect::SendRequestVoteResponse { peer, response, .. } => {
            (peer, response.term, response.vote_granted)
        }
        Effect::SendRequestVotes { .. } => panic!("RequestVote must produce a response"),
        _ => panic!("RequestVote must produce a vote response"),
    }
}

#[test]
fn election_timeout_starts_a_new_election() {
    let local_node = node("node-1");
    let mut raft = Raft {
        id: local_node.clone(),
        voters: vec![
            (local_node.clone(), progress()),
            (node("node-2"), progress()),
            (node("node-3"), progress()),
        ],
        learners: Vec::new(),
        role: Role::Follower,
        current_term: 2,
        voted_for: None,
        last_applied: 0,
        commit_index: 0,
        last_log_index: 8,
        last_log_term: 2,
        leader_id: Some(node("old-leader")),
        granted_votes: Vec::new(),
    };

    let effect = raft
        .handle(Event::ElectionTimeout)
        .unwrap()
        .expect("ElectionTimeout must produce an effect");

    assert_eq!(raft.role, Role::Candidate);
    assert_eq!(raft.current_term, 3);
    assert_eq!(raft.voted_for, Some(local_node.clone()));

    let Effect::SendRequestVotes { peers, request, .. } = effect else {
        panic!("ElectionTimeout must produce vote requests");
    };

    assert_eq!(request.term, 3);
    assert_eq!(request.candidate_id, local_node);
    assert_eq!(request.last_log_index, 8);
    assert_eq!(request.last_log_term, 2);

    let requested_votes: HashSet<NodeId> = peers.into_iter().collect();

    assert_eq!(
        requested_votes,
        HashSet::from([node("node-2"), node("node-3")])
    );
}

#[test]
fn election_requests_votes_only_from_other_voters() {
    let local_node = node("node-1");
    let mut raft = Raft {
        id: local_node.clone(),
        voters: vec![(local_node.clone(), progress()), (node("node-2"), progress())],
        learners: vec![(node("node-3"), progress())],
        role: Role::Follower,
        current_term: 2,
        voted_for: None,
        last_applied: 0,
        commit_index: 0,
        last_log_index: 8,
        last_log_term: 2,
        leader_id: Some(node("old-leader")),
        granted_votes: Vec::new(),
    };

    let effect = raft
        .handle(Event::ElectionTimeout)
        .unwrap()
        .expect("ElectionTimeout must produce an effect");

    let Effect::SendRequestVotes { peers, .. } = effect else {
        panic!("ElectionTimeout must produce vote requests");
    };
    let requested_votes: HashSet<NodeId> = peers.into_iter().collect();

    assert_eq!(requested_votes, HashSet::from([node("node-2")]));
}

#[test]
fn request_vote_rejects_an_older_term() {
    let mut raft = follower(4, None, 8, 3);

    let response = request_vote(&mut raft, node("node-2"), 3, 8, 3);

    assert_eq!(response, (node("node-2"), 4, false));
    assert_eq!(raft.current_term, 4);
    assert_eq!(raft.voted_for, None);
    assert_eq!(raft.role, Role::Follower);
}

#[test]
fn request_vote_with_a_newer_term_makes_candidate_step_down() {
    let local_node = node("node-1");
    let mut raft = follower(4, Some(local_node), 8, 3);
    raft.role = Role::Candidate;

    let response = request_vote(&mut raft, node("node-2"), 5, 8, 3);

    assert_eq!(response, (node("node-2"), 5, true));
    assert_eq!(raft.current_term, 5);
    assert_eq!(raft.voted_for, Some(node("node-2")));
    assert_eq!(raft.role, Role::Follower);
}

#[test]
fn request_vote_rejects_a_second_candidate_in_the_same_term() {
    let mut raft = follower(4, Some(node("node-3")), 8, 3);

    let response = request_vote(&mut raft, node("node-2"), 4, 8, 3);

    assert_eq!(response, (node("node-2"), 4, false));
    assert_eq!(raft.voted_for, Some(node("node-3")));
}

#[test]
fn request_vote_is_idempotent_for_the_same_candidate() {
    let mut raft = follower(4, Some(node("node-2")), 8, 3);

    let response = request_vote(&mut raft, node("node-2"), 4, 8, 3);

    assert_eq!(response, (node("node-2"), 4, true));
    assert_eq!(raft.voted_for, Some(node("node-2")));
}

#[test]
fn request_vote_rejects_a_candidate_with_a_stale_log() {
    let mut stale_term = follower(4, None, 8, 3);
    let mut stale_index = follower(4, None, 8, 3);

    let stale_term_response = request_vote(&mut stale_term, node("node-2"), 4, 100, 2);
    let stale_index_response = request_vote(&mut stale_index, node("node-2"), 4, 7, 3);

    assert_eq!(stale_term_response, (node("node-2"), 4, false));
    assert_eq!(stale_index_response, (node("node-2"), 4, false));
}

#[test]
fn request_vote_grants_a_candidate_with_an_up_to_date_log() {
    let mut newer_term = follower(4, None, 8, 3);
    let mut same_position = follower(4, None, 8, 3);

    let newer_term_response = request_vote(&mut newer_term, node("node-2"), 4, 1, 4);
    let same_position_response = request_vote(&mut same_position, node("node-2"), 4, 8, 3);

    assert_eq!(newer_term_response, (node("node-2"), 4, true));
    assert_eq!(same_position_response, (node("node-2"), 4, true));
}

#[test]
fn heartbeat_request_rejects_an_older_term_without_resetting_timer() {
    let mut raft = follower(4, None, 8, 3);

    let effect = raft
        .handle(Event::Heartbeat(HeartbeatRequest {
            term: 3,
            leader_id: node("node-2"),
            log_index: 8,
            log_term: 3,
            leader_commit_index: 6,
        }))
        .unwrap()
        .expect("heartbeat must produce a response");

    let Effect::SendHeartbeatResponse {
        peer,
        response,
        reset_election_timer,
        apply_through,
    } = effect
    else {
        panic!("heartbeat must produce a heartbeat response");
    };

    assert_eq!(peer, node("node-2"));
    assert_eq!(response.term, 4);
    assert_eq!(response.success, false);
    assert_eq!(reset_election_timer, false);
    assert_eq!(apply_through, None);
    assert_eq!(raft.current_term, 4);
    assert_eq!(raft.leader_id, Some(node("old-leader")));
}

#[test]
fn valid_heartbeat_request_makes_candidate_step_down() {
    let mut raft = follower(4, Some(node("node-1")), 8, 3);
    raft.role = Role::Candidate;
    raft.granted_votes = vec![node("node-1"), node("node-3")];

    let effect = raft
        .handle(Event::Heartbeat(HeartbeatRequest {
            term: 4,
            leader_id: node("node-2"),
            log_index: 8,
            log_term: 3,
            leader_commit_index: 0,
        }))
        .unwrap()
        .expect("heartbeat must produce a response");

    let Effect::SendHeartbeatResponse {
        response,
        reset_election_timer,
        ..
    } = effect
    else {
        panic!("heartbeat must produce a heartbeat response");
    };

    assert_eq!(response.success, true);
    assert_eq!(reset_election_timer, true);
    assert_eq!(raft.role, Role::Follower);
    assert_eq!(raft.leader_id, Some(node("node-2")));
    assert_eq!(raft.granted_votes.len(), 0);
}

#[test]
fn heartbeat_request_with_higher_term_clears_previous_vote() {
    let mut raft = follower(4, Some(node("node-3")), 8, 3);

    raft.handle(Event::Heartbeat(HeartbeatRequest {
        term: 5,
        leader_id: node("node-2"),
        log_index: 8,
        log_term: 3,
        leader_commit_index: 0,
    }))
    .unwrap();

    assert_eq!(raft.current_term, 5);
    assert_eq!(raft.voted_for, None);
    assert_eq!(raft.role, Role::Follower);
    assert_eq!(raft.leader_id, Some(node("node-2")));
}

#[test]
fn valid_heartbeat_advances_commit_only_through_local_log() {
    let mut raft = follower(4, None, 8, 3);
    raft.last_applied = 5;

    let effect = raft
        .handle(Event::Heartbeat(HeartbeatRequest {
            term: 4,
            leader_id: node("node-2"),
            log_index: 8,
            log_term: 3,
            leader_commit_index: 12,
        }))
        .unwrap()
        .expect("heartbeat must produce a response");

    let Effect::SendHeartbeatResponse {
        response,
        apply_through,
        ..
    } = effect
    else {
        panic!("heartbeat must produce a heartbeat response");
    };

    assert_eq!(response.success, true);
    assert_eq!(raft.commit_index, 8);
    assert_eq!(raft.last_applied, 5);
    assert_eq!(apply_through, Some(8));
}

#[test]
fn heartbeat_with_mismatched_log_is_rejected_but_recognizes_leader() {
    let mut raft = follower(4, None, 8, 3);

    let effect = raft
        .handle(Event::Heartbeat(HeartbeatRequest {
            term: 5,
            leader_id: node("node-2"),
            log_index: 7,
            log_term: 2,
            leader_commit_index: 6,
        }))
        .unwrap()
        .expect("heartbeat must produce a response");

    let Effect::SendHeartbeatResponse {
        response,
        reset_election_timer,
        apply_through,
        ..
    } = effect
    else {
        panic!("heartbeat must produce a heartbeat response");
    };

    assert_eq!(response.success, false);
    assert_eq!(response.last_log_index, 8);
    assert_eq!(response.last_log_term, 3);
    assert_eq!(reset_election_timer, true);
    assert_eq!(apply_through, None);
    assert_eq!(raft.current_term, 5);
    assert_eq!(raft.leader_id, Some(node("node-2")));
}

#[test]
fn append_entries_rejects_an_older_leader_term() {
    let mut raft = follower(4, None, 8, 3);

    let effect = raft
        .handle(append_entries(3, 8, 3, 6))
        .unwrap()
        .expect("AppendEntries must produce an effect");

    let Effect::RejectAppendEntries { peer, response, .. } = effect else {
        panic!("an older leader term must be rejected");
    };

    assert_eq!(peer, node("node-2"));
    assert_eq!(response.term, 4);
    assert_eq!(response.success, false);
    assert_eq!(response.last_log_index, 8);
    assert_eq!(response.last_log_term, 3);
    assert_eq!(raft.current_term, 4);
    assert_eq!(raft.leader_id, Some(node("old-leader")));
}

#[test]
fn append_entries_rejects_a_missing_previous_log_entry() {
    let mut raft = follower(4, None, 8, 3);

    let effect = raft
        .handle(append_entries(4, 9, 3, 6))
        .unwrap()
        .expect("AppendEntries must produce an effect");

    let Effect::RejectAppendEntries { peer, response, .. } = effect else {
        panic!("a missing previous log entry must be rejected");
    };

    assert_eq!(peer, node("node-2"));
    assert_eq!(response.term, 4);
    assert_eq!(response.success, false);
    assert_eq!(response.last_log_index, 8);
    assert_eq!(response.last_log_term, 3);
}

#[test]
fn append_entries_accepts_a_matching_log_prefix() {
    let mut raft = follower(4, None, 8, 3);

    let effect = raft
        .handle(append_entries(4, 8, 3, 6))
        .unwrap()
        .expect("AppendEntries must produce an effect");

    let Effect::PersistEntries {
        peer,
        response,
        truncate_after,
        leader_commit_index,
        ..
    } = effect
    else {
        panic!("a matching log prefix must be accepted");
    };

    assert_eq!(peer, node("node-2"));
    assert_eq!(response.term, 4);
    assert_eq!(response.success, true);
    assert_eq!(truncate_after, None);
    assert_eq!(leader_commit_index, 6);
    assert_eq!(raft.leader_id, Some(node("node-2")));
    assert_eq!(raft.role, Role::Follower);
}

#[test]
fn append_entries_passes_leader_commit_index_to_persistence() {
    let mut raft = follower(4, None, 8, 3);

    let effect = raft
        .handle(append_entries(4, 8, 3, 12))
        .unwrap()
        .expect("AppendEntries must produce an effect");

    let Effect::PersistEntries {
        leader_commit_index,
        ..
    } = effect
    else {
        panic!("a matching log prefix must be accepted");
    };

    assert_eq!(leader_commit_index, 12);
}

#[test]
fn append_entries_from_a_newer_term_makes_a_candidate_step_down() {
    let local_node = node("node-1");
    let mut raft = follower(4, Some(local_node), 8, 3);
    raft.role = Role::Candidate;

    let effect = raft
        .handle(append_entries(5, 8, 3, 6))
        .unwrap()
        .expect("AppendEntries must produce an effect");

    assert!(matches!(effect, Effect::PersistEntries { .. }));
    assert_eq!(raft.current_term, 5);
    assert_eq!(raft.role, Role::Follower);
    assert_eq!(raft.voted_for, None);
    assert_eq!(raft.leader_id, Some(node("node-2")));
}

#[test]
fn append_entries_uses_persist_effect_when_truncation_is_required() {
    let mut raft = follower(4, None, 8, 3);

    let effect = raft
        .handle(append_entries(5, 5, 2, 4))
        .unwrap()
        .expect("accepted AppendEntries must produce an effect");

    let Effect::PersistEntries {
        response,
        truncate_after,
        leader_commit_index,
        ..
    } = effect
    else {
        panic!("accepted AppendEntries must be persisted");
    };

    assert_eq!(response.success, true);
    assert_eq!(truncate_after, Some(5));
    assert_eq!(leader_commit_index, 4);
}

#[test]
fn entries_persisted_advances_commit_and_requests_application() {
    let mut raft = follower(4, None, 5, 2);
    raft.last_applied = 3;

    let effect = raft
        .handle(Event::EntriesPersisted(PersistedEntries {
            operation_id: op(),
            last_log_index: 8,
            last_log_term: 4,
            leader_commit_index: 6,
        }))
        .unwrap()
        .expect("a newly committed range must be applied");

    assert_eq!(raft.last_log_index, 8);
    assert_eq!(raft.last_log_term, 4);
    assert_eq!(raft.commit_index, 6);
    assert_eq!(raft.last_applied, 3);

    let Effect::ApplyCommitted { through, .. } = effect else {
        panic!("persisting committed entries must request application");
    };

    assert_eq!(through, 6);
}

#[test]
fn entries_applied_updates_last_applied() {
    let mut raft = follower(4, None, 5, 2);
    raft.last_applied = 3;

    let effect = raft
        .handle(Event::EntriesApplied(AppliedEntries {
            operation_id: op(),
            through: 6,
        }))
        .unwrap();

    assert!(effect.is_none());
    assert_eq!(raft.last_applied, 6);
}

#[test]
fn entries_persisted_never_commits_beyond_the_local_log() {
    let mut raft = follower(4, None, 5, 2);

    let effect = raft
        .handle(Event::EntriesPersisted(PersistedEntries {
            operation_id: op(),
            last_log_index: 8,
            last_log_term: 4,
            leader_commit_index: 12,
        }))
        .unwrap()
        .expect("newly committed entries must be applied");

    assert_eq!(raft.commit_index, 8);

    let Effect::ApplyCommitted { through, .. } = effect else {
        panic!("persisting committed entries must request application");
    };

    assert_eq!(through, 8);
}

#[test]
fn write_on_leader_requests_a_local_append() {
    let mut raft = follower(4, Some(node("node-1")), 8, 3);
    raft.role = Role::Leader;

    let effect = raft
        .handle(Event::Write(op()))
        .unwrap()
        .expect("a leader write must produce an effect");

    let Effect::AppendLocal {
        term,
        last_log_index,
        ..
    } = effect
    else {
        panic!("a leader write must append locally first");
    };

    assert_eq!(term, 4);
    assert_eq!(last_log_index, 8);
    assert_eq!(raft.last_log_index, 8);
}

#[test]
fn write_on_follower_returns_known_leader() {
    let mut raft = follower(4, None, 8, 3);

    let result = raft.handle(Event::Write(op()));

    assert!(matches!(
        result,
        Err(Error::NotLeader(Some(leader))) if leader == node("old-leader")
    ));
    assert_eq!(raft.last_log_index, 8);
}

#[test]
fn local_entry_append_updates_leader_log_and_own_progress() {
    let local_node = node("node-1");
    let mut raft = follower(4, Some(local_node.clone()), 8, 3);
    raft.role = Role::Leader;

    raft.handle(Event::LocalEntriesAppended(LocalEntry {
        operation_id: op(),
        index: 9,
        term: 4,
    }))
    .unwrap();

    let leader_progress = progress_of(&raft.voters, &local_node).unwrap();
    assert_eq!(raft.last_log_index, 9);
    assert_eq!(raft.last_log_term, 4);
    assert_eq!(leader_progress.match_index, 9);
    assert_eq!(leader_progress.next_index, 10);
}

#[test]
fn local_entry_append_creates_a_replication_target_for_every_other_node() {
    let local_node = node("node-1");
    let mut raft = follower(4, Some(local_node.clone()), 8, 3);
    raft.role = Role::Leader;
    raft.commit_index = 6;
    set_progress(
        &mut raft.voters,
        node("node-2"),
        Progress {
            next_index: 6,
            match_index: 5,
        },
    );
    set_progress(
        &mut raft.voters,
        node("node-3"),
        Progress {
            next_index: 9,
            match_index: 8,
        },
    );
    set_progress(
        &mut raft.learners,
        node("node-4"),
        Progress {
            next_index: 3,
            match_index: 2,
        },
    );

    let effect = raft
        .handle(Event::LocalEntriesAppended(LocalEntry {
            operation_id: op(),
            index: 9,
            term: 4,
        }))
        .unwrap()
        .expect("a persisted local entry must be replicated");

    let Effect::SendAppendEntries { targets, .. } = effect else {
        panic!("a persisted local entry must produce replication targets");
    };

    let targets: HashMap<_, _> = targets
        .into_iter()
        .map(|target| {
            (
                target.peer,
                (
                    target.last_log_index,
                    target.last_log_term,
                    target.leader_id,
                    target.leader_commit_index,
                ),
            )
        })
        .collect();

    assert_eq!(
        targets,
        HashMap::from([
            (node("node-2"), (5, 3, local_node.clone(), 6)),
            (node("node-3"), (8, 3, local_node.clone(), 6)),
            (node("node-4"), (2, 3, local_node, 6)),
        ])
    );
}

#[test]
fn local_entry_append_is_rejected_after_leader_steps_down() {
    let mut raft = follower(5, None, 8, 3);

    let result = raft.handle(Event::LocalEntriesAppended(LocalEntry {
        operation_id: op(),
        index: 9,
        term: 4,
    }));

    assert!(matches!(
        result,
        Err(Error::NotLeader(Some(leader))) if leader == node("old-leader")
    ));
    assert_eq!(raft.last_log_index, 8);
    assert_eq!(raft.last_log_term, 3);
}

#[test]
fn granted_vote_that_reaches_a_majority_makes_candidate_leader() {
    let local_node = node("node-1");
    let mut raft = follower(4, Some(local_node.clone()), 8, 3);
    raft.role = Role::Candidate;
    raft.granted_votes = vec![local_node.clone()];

    let effect = raft
        .handle(Event::VoteResponse(ReceivedVoteResponse {
            from: node("node-2"),
            response: VoteResponse {
                term: 4,
                vote_granted: true,
            },
        }))
        .unwrap();

    assert_eq!(raft.granted_votes.len(), 2);
    assert_eq!(raft.role, Role::Leader);

    let effect = effect.expect("a newly elected leader must send an initial heartbeat");

    let Effect::SendHeartbeat { peers, request } = effect else {
        panic!("winning an election must send an initial heartbeat");
    };

    assert_eq!(request.term, 4);
    assert_eq!(request.leader_id, local_node);
    assert_eq!(
        peers.into_iter().collect::<HashSet<_>>(),
        HashSet::from([node("node-2"), node("node-3")])
    );
}

#[test]
fn denied_vote_does_not_change_candidate_votes() {
    let local_node = node("node-1");
    let mut raft = follower(4, Some(local_node.clone()), 8, 3);
    raft.role = Role::Candidate;
    raft.granted_votes = vec![local_node];

    let effect = raft
        .handle(Event::VoteResponse(ReceivedVoteResponse {
            from: node("node-2"),
            response: VoteResponse {
                term: 4,
                vote_granted: false,
            },
        }))
        .unwrap();

    assert!(effect.is_none());
    assert_eq!(raft.granted_votes.len(), 1);
    assert_eq!(raft.role, Role::Candidate);
}

#[test]
fn vote_response_is_rejected_when_node_is_not_a_candidate() {
    let mut raft = follower(4, None, 8, 3);

    let result = raft.handle(Event::VoteResponse(ReceivedVoteResponse {
        from: node("node-2"),
        response: VoteResponse {
            term: 4,
            vote_granted: true,
        },
    }));

    assert!(matches!(result, Err(Error::NotCandidate)));
    assert_eq!(raft.granted_votes.len(), 0);
    assert_eq!(raft.role, Role::Follower);
}

#[test]
fn successful_heartbeat_response_updates_peer_progress() {
    let mut raft = follower(4, Some(node("node-1")), 8, 3);
    raft.role = Role::Leader;
    set_progress(
        &mut raft.voters,
        node("node-2"),
        Progress {
            next_index: 6,
            match_index: 5,
        },
    );

    let effect = raft
        .handle(Event::HeartbeatResponse(ReceivedHeartbeatResponse {
            from: node("node-2"),
            response: AppendEntriesResponse {
                term: 4,
                success: true,
                last_log_index: 8,
                last_log_term: 3,
                leader_id: Some(node("node-1")),
            },
        }))
        .unwrap();

    let progress = progress_of(&raft.voters, &node("node-2")).unwrap();
    assert!(effect.is_none());
    assert_eq!(progress.match_index, 8);
    assert_eq!(progress.next_index, 9);
}

#[test]
fn rejected_heartbeat_response_rewinds_peer_next_index() {
    let mut raft = follower(4, Some(node("node-1")), 8, 3);
    raft.role = Role::Leader;
    set_progress(
        &mut raft.voters,
        node("node-2"),
        Progress {
            next_index: 9,
            match_index: 0,
        },
    );

    let effect = raft
        .handle(Event::HeartbeatResponse(ReceivedHeartbeatResponse {
            from: node("node-2"),
            response: AppendEntriesResponse {
                term: 4,
                success: false,
                last_log_index: 5,
                last_log_term: 2,
                leader_id: Some(node("node-1")),
            },
        }))
        .unwrap();

    let progress = progress_of(&raft.voters, &node("node-2")).unwrap();
    assert!(effect.is_none());
    assert_eq!(progress.match_index, 0);
    assert_eq!(progress.next_index, 6);
}

#[test]
fn heartbeat_response_with_higher_term_makes_leader_step_down() {
    let mut raft = follower(4, Some(node("node-1")), 8, 3);
    raft.role = Role::Leader;
    raft.granted_votes = vec![node("node-1"), node("node-3")];

    let effect = raft
        .handle(Event::HeartbeatResponse(ReceivedHeartbeatResponse {
            from: node("node-2"),
            response: AppendEntriesResponse {
                term: 5,
                success: false,
                last_log_index: 8,
                last_log_term: 3,
                leader_id: Some(node("node-2")),
            },
        }))
        .unwrap();

    assert!(effect.is_none());
    assert_eq!(raft.current_term, 5);
    assert_eq!(raft.role, Role::Follower);
    assert_eq!(raft.voted_for, None);
    assert_eq!(raft.leader_id, Some(node("node-2")));
    assert_eq!(raft.granted_votes.len(), 0);
}

#[test]
fn rejected_append_entries_response_retries_from_follower_position() {
    let local_node = node("node-1");
    let mut raft = follower(4, Some(local_node.clone()), 10, 4);
    raft.role = Role::Leader;
    raft.commit_index = 6;

    let effect = raft
        .handle(Event::AppendEntriesResponse(ReceivedAppendEntriesResponse {
            operation_id: op(),
            from: node("node-2"),
            response: AppendEntriesResponse {
                term: 4,
                success: false,
                last_log_index: 5,
                last_log_term: 2,
                leader_id: Some(local_node.clone()),
            },
        }))
        .unwrap()
        .expect("a follower behind the leader must be retried");

    let Effect::SendAppendEntries { targets, .. } = effect else {
        panic!("a rejected append must retry replication");
    };
    let [target] = targets.as_slice() else {
        panic!("only the rejecting follower should be retried");
    };

    assert_eq!(target.peer, node("node-2"));
    assert_eq!(target.last_log_index, 5);
    assert_eq!(target.last_log_term, 2);
    assert_eq!(target.leader_id, local_node);
    assert_eq!(target.leader_commit_index, 6);
}

#[test]
fn learner_that_is_still_behind_remains_a_learner_and_is_retried() {
    let local_node = node("node-1");
    let learner = node("node-4");
    let mut raft = follower(4, Some(local_node.clone()), 10, 4);
    raft.role = Role::Leader;
    set_progress(&mut raft.learners, learner.clone(), progress());

    let effect = raft
        .handle(Event::AppendEntriesResponse(ReceivedAppendEntriesResponse {
            operation_id: op(),
            from: learner.clone(),
            response: AppendEntriesResponse {
                term: 4,
                success: true,
                last_log_index: 6,
                last_log_term: 3,
                leader_id: Some(local_node),
            },
        }))
        .unwrap()
        .expect("a learner that is behind must receive more entries");

    assert!(matches!(effect, Effect::SendAppendEntries { .. }));
    assert!(contains(&raft.learners, &learner));
    assert!(!contains(&raft.voters, &learner));

    let learner_progress = progress_of(&raft.learners, &learner).unwrap();
    assert_eq!(learner_progress.match_index, 6);
    assert_eq!(learner_progress.next_index, 7);
}

#[test]
fn caught_up_learner_is_promoted_to_voter() {
    let local_node = node("node-1");
    let learner = node("node-4");
    let mut raft = follower(4, Some(local_node.clone()), 10, 4);
    raft.role = Role::Leader;
    set_progress(&mut raft.learners, learner.clone(), progress());

    let effect = raft
        .handle(Event::AppendEntriesResponse(ReceivedAppendEntriesResponse {
            operation_id: op(),
            from: learner.clone(),
            response: AppendEntriesResponse {
                term: 4,
                success: true,
                last_log_index: 10,
                last_log_term: 4,
                leader_id: Some(local_node),
            },
        }))
        .unwrap();

    assert!(effect.is_none());
    assert!(!contains(&raft.learners, &learner));
    let voter_progress =
        progress_of(&raft.voters, &learner).expect("caught-up learner must become a voter");
    assert_eq!(voter_progress.match_index, 10);
    assert_eq!(voter_progress.next_index, 11);
}

#[test]
fn voter_that_is_still_behind_remains_in_voter_configuration() {
    let local_node = node("node-1");
    let voter = node("node-2");
    let mut raft = follower(4, Some(local_node.clone()), 10, 4);
    raft.role = Role::Leader;

    raft.handle(Event::AppendEntriesResponse(ReceivedAppendEntriesResponse {
        operation_id: op(),
        from: voter.clone(),
        response: AppendEntriesResponse {
            term: 4,
            success: true,
            last_log_index: 7,
            last_log_term: 3,
            leader_id: Some(local_node),
        },
    }))
    .unwrap();

    let voter_progress = progress_of(&raft.voters, &voter)
        .expect("a lagging voter must remain in the voter configuration");
    assert_eq!(voter_progress.match_index, 7);
    assert_eq!(voter_progress.next_index, 8);
    assert!(!contains(&raft.learners, &voter));
}

#[test]
fn successful_append_response_from_one_follower_forms_three_node_majority() {
    let local_node = node("node-1");
    let mut raft = follower(4, Some(local_node.clone()), 10, 4);
    raft.role = Role::Leader;
    set_progress(
        &mut raft.voters,
        local_node.clone(),
        Progress {
            next_index: 11,
            match_index: 10,
        },
    );

    let effect = raft
        .handle(Event::AppendEntriesResponse(ReceivedAppendEntriesResponse {
            operation_id: op(),
            from: node("node-2"),
            response: AppendEntriesResponse {
                term: 4,
                success: true,
                last_log_index: 10,
                last_log_term: 4,
                leader_id: Some(local_node),
            },
        }))
        .unwrap()
        .expect("leader plus one follower is a majority of three voters");

    assert_eq!(raft.commit_index, 10);
    let Effect::ApplyCommitted { through, .. } = effect else {
        panic!("a majority-replicated entry must be applied");
    };
    assert_eq!(through, 10);
}

#[test]
fn successful_append_response_with_higher_term_makes_leader_step_down() {
    let local_node = node("node-1");
    let new_leader = node("node-3");
    let mut raft = follower(4, Some(local_node), 10, 4);
    raft.role = Role::Leader;

    let result = raft.handle(Event::AppendEntriesResponse(ReceivedAppendEntriesResponse {
        operation_id: op(),
        from: node("node-2"),
        response: AppendEntriesResponse {
            term: 5,
            success: true,
            last_log_index: 10,
            last_log_term: 4,
            leader_id: Some(new_leader.clone()),
        },
    }));

    assert!(matches!(
        result,
        Err(Error::NotLeader(Some(leader))) if leader == new_leader
    ));
    assert_eq!(raft.current_term, 5);
    assert_eq!(raft.role, Role::Follower);
    assert_eq!(raft.voted_for, None);
    assert_eq!(raft.leader_id, Some(node("node-3")));
}
