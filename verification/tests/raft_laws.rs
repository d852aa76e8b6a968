use raft_core::log::{Config, Log};
use raft_core::raft::operations::OperationIds;
use raft_core::raft::types::{
    AppendEntriesRequest, AppendEntriesResponse, AppliedEntries, Effect, Error, Event, LocalEntry, NodeId, OperationId,
    Progress, Raft, ReceivedAppendEntries, ReceivedAppendEntriesResponse, ReceivedVoteResponse, Role, State, VoteRequest,
    VoteResponse,
};

fn node(id: &str) -> NodeId {
    NodeId(id.to_owned())
}

fn progress() -> Progress {
    Progress { next_index: 0, match_index: 0 }
}

fn five_node_candidate() -> Raft {
    Raft {
        id: node("n1"),
        voters: vec![
            (node("n1"), progress()),
            (node("n2"), progress()),
            (node("n3"), progress()),
            (node("n4"), progress()),
            (node("n5"), progress()),
        ],
        learners: vec![(node("l1"), progress())],
        role: Role::Candidate,
        current_term: 7,
        leader_id: None,
        voted_for: Some(node("n1")),
        last_applied: 0,
        commit_index: 0,
        last_log_index: 3,
        last_log_term: 2,
        granted_votes: vec![node("n1")],
    }
}

fn vote(from: &str, term: u64, granted: bool) -> Event {
    Event::VoteResponse(ReceivedVoteResponse {
        from: node(from),
        response: VoteResponse { term, vote_granted: granted },
    })
}

#[test]
fn duplicate_vote_responses_count_once() {
    let mut raft = five_node_candidate();
    assert!(raft.handle(vote("n2", 7, true)).unwrap().is_none());
    assert!(raft.handle(vote("n2", 7, true)).unwrap().is_none());
    assert!(raft.handle(vote("n2", 7, true)).unwrap().is_none());
    assert_eq!(raft.granted_votes.len(), 2);
    assert_eq!(raft.role, Role::Candidate);
    // A learner's vote does not count.
    assert!(raft.handle(vote("l1", 7, true)).unwrap().is_none());
    assert_eq!(raft.granted_votes.len(), 2);
    // A third distinct voter makes a majority of five.
    let effect = raft.handle(vote("n3", 7, true)).unwrap();
    assert!(matches!(effect, Some(Effect::SendHeartbeat { .. })));
    assert_eq!(raft.role, Role::Leader);
}

#[test]
fn stale_vote_response_cannot_elect_a_leader() {
    let mut raft = five_node_candidate();
    raft.granted_votes = vec![node("n1"), node("n2")];
    assert!(raft.handle(vote("n3", 6, true)).unwrap().is_none());
    assert!(raft.handle(vote("n4", 8, true)).unwrap().is_none());
    assert_eq!(raft.role, Role::Candidate);
    assert_eq!(raft.granted_votes.len(), 2);
}

#[test]
fn higher_term_vote_request_updates_term_even_when_log_is_stale() {
    let mut raft = five_node_candidate();
    let effect = raft
        .handle(Event::RequestVote(VoteRequest {
            term: 9,
            candidate_id: node("n2"),
            last_log_index: 1,
            last_log_term: 1,
        }))
        .unwrap()
        .unwrap();
    let Effect::SendRequestVoteResponse { hard_state, peer, response } = effect else {
        panic!("a vote request must be answered");
    };
    assert_eq!(peer, node("n2"));
    assert_eq!(response.term, 9);
    assert!(!response.vote_granted);
    assert_eq!(hard_state, Some(State { current_term: 9, voted_for: None }));
    assert_eq!(raft.current_term, 9);
    assert_eq!(raft.voted_for, None);
    assert_eq!(raft.role, Role::Follower);
    assert!(raft.granted_votes.is_empty());
}

#[test]
fn granted_vote_carries_the_hard_state_to_persist() {
    let mut raft = five_node_candidate();
    raft.role = Role::Follower;
    raft.voted_for = None;
    let effect = raft
        .handle(Event::RequestVote(VoteRequest {
            term: 7,
            candidate_id: node("n3"),
            last_log_index: 3,
            last_log_term: 2,
        }))
        .unwrap()
        .unwrap();
    let Effect::SendRequestVoteResponse { hard_state, response, .. } = effect else {
        panic!("a vote request must be answered");
    };
    assert!(response.vote_granted);
    assert_eq!(hard_state, Some(State { current_term: 7, voted_for: Some(node("n3")) }));
    // Asking again changes nothing, so nothing needs to be persisted.
    let effect = raft
        .handle(Event::RequestVote(VoteRequest {
            term: 7,
            candidate_id: node("n3"),
            last_log_index: 3,
            last_log_term: 2,
        }))
        .unwrap()
        .unwrap();
    let Effect::SendRequestVoteResponse { hard_state, response, .. } = effect else {
        panic!("a vote request must be answered");
    };
    assert!(response.vote_granted);
    assert_eq!(hard_state, None);
}

#[test]
fn election_timeout_carries_the_new_hard_state() {
    let mut raft = five_node_candidate();
    let effect = raft.handle(Event::ElectionTimeout).unwrap().unwrap();
    let Effect::SendRequestVotes { hard_state, peers, .. } = effect else {
        panic!("an election must request votes");
    };
    assert_eq!(hard_state, State { current_term: 8, voted_for: Some(node("n1")) });
    assert_eq!(peers, vec![node("n2"), node("n3"), node("n4"), node("n5")]);
    assert_eq!(raft.granted_votes, vec![node("n1")]);
}

#[test]
fn far_behind_voter_remains_a_voter() {
    let mut raft = five_node_candidate();
    raft.role = Role::Leader;
    raft.last_log_index = 40;
    let effect = raft
        .handle(Event::AppendEntriesResponse(ReceivedAppendEntriesResponse {
            operation_id: OperationId(3),
            from: node("n4"),
            response: AppendEntriesResponse {
                term: 7,
                success: true,
                last_log_index: 2,
                last_log_term: 1,
                leader_id: Some(node("n1")),
            },
        }))
        .unwrap()
        .unwrap();
    assert!(matches!(effect, Effect::SendAppendEntries { operation_id: OperationId(3), .. }));
    assert_eq!(raft.voters.len(), 5);
    assert_eq!(raft.voters[3], (node("n4"), Progress { next_index: 3, match_index: 2 }));
    assert_eq!(raft.learners.len(), 1);
}

#[test]
fn new_entry_is_not_committed_before_a_majority_responds() {
    let mut raft = five_node_candidate();
    raft.role = Role::Leader;
    let response = |from: &str| {
        Event::AppendEntriesResponse(ReceivedAppendEntriesResponse {
            operation_id: OperationId(1),
            from: node(from),
            response: AppendEntriesResponse {
                term: 7,
                success: true,
                last_log_index: 3,
                last_log_term: 2,
                leader_id: Some(node("n1")),
            },
        })
    };
    assert!(raft.handle(response("n2")).unwrap().is_none());
    assert_eq!(raft.commit_index, 0);
    let effect = raft.handle(response("n3")).unwrap().unwrap();
    assert!(matches!(effect, Effect::ApplyCommitted { through: 3, .. }));
    assert_eq!(raft.commit_index, 3);
}

#[test]
fn heartbeat_timeout_needs_a_leader() {
    let mut raft = five_node_candidate();
    assert!(matches!(raft.handle(Event::HeartbeatTimeout), Err(Error::NotLeader(None))));
    raft.role = Role::Leader;
    let Some(Effect::SendHeartbeat { peers, request }) = raft.handle(Event::HeartbeatTimeout).unwrap()
    else {
        panic!("a leader heartbeats its followers");
    };
    assert_eq!(peers.len(), 4);
    assert_eq!(request.term, 7);
    assert_eq!(request.log_index, 3);
}

#[test]
fn new_node_starts_as_a_follower_of_its_voters() {
    let voters = vec![node("a"), node("b"), node("a"), node("c")];
    let raft = Raft::new(
        node("b"),
        &voters,
        State { current_term: 4, voted_for: Some(node("c")) },
        6,
    );
    assert_eq!(raft.role, Role::Follower);
    assert_eq!(raft.current_term, 4);
    assert_eq!(raft.voted_for, Some(node("c")));
    assert_eq!(
        raft.voters,
        vec![
            (node("a"), Progress { next_index: 6, match_index: 0 }),
            (node("b"), Progress { next_index: 6, match_index: 5 }),
            (node("c"), Progress { next_index: 6, match_index: 0 }),
        ]
    );
    assert!(raft.learners.is_empty());
    assert_eq!(raft.last_log_index, 0);
}

#[test]
fn operation_ids_are_fresh_and_increasing() {
    let mut ids = OperationIds::new();
    assert_eq!(ids.allocate(), OperationId(1));
    assert_eq!(ids.allocate(), OperationId(2));
    assert!(!ids.is_exhausted());
}

/// Drives the core as the runtime does for one client write on a single
/// node: append locally, commit, apply, complete.
#[test]
fn single_node_write_is_persisted_applied_and_replied_to() {
    let id = node("node-1");
    let mut log = Log::new(
        Config {
            inital_offset: 1,
            sync_writes: false,
            max_size_bytes: 1024,
            max_store_bytes: 1024 * 1024,
        },
        std::path::PathBuf::from("raft-runtime-test"),
        Vec::new(),
    );
    let mut raft = Raft::new(id.clone(), &vec![id], State { current_term: 0, voted_for: None }, log.next_offset());
    raft.role = Role::Leader;
    raft.current_term = 1;

    let mut applied: Vec<Vec<u8>> = Vec::new();
    let mut completed = Vec::new();
    let command = b"set x=1".to_vec();
    let mut event = Event::Write(OperationId(1));
    loop {
        let Some(effect) = raft.handle(event).unwrap() else {
            break;
        };
        event = match effect {
            Effect::AppendLocal { operation_id, term, .. } => {
                let index = log.append(&command).unwrap();
                Event::LocalEntriesAppended(LocalEntry { operation_id, index, term })
            }
            Effect::ApplyCommitted { operation_id, through } => {
                for index in raft.last_applied + 1..=through {
                    let mut buf = Vec::new();
                    log.read(index, &mut buf).unwrap();
                    applied.push(buf);
                }
                Event::EntriesApplied(AppliedEntries { operation_id, through })
            }
            Effect::CompleteOperation { operation_id } => {
                completed.push(operation_id);
                break;
            }
            _ => panic!("a single-node write needs no other work"),
        };
    }

    assert_eq!(completed, vec![OperationId(1)]);
    assert_eq!(raft.commit_index, 1);
    assert_eq!(raft.last_applied, 1);
    assert_eq!(applied, vec![b"set x=1".to_vec()]);
}

fn three_node_follower() -> Raft {
    Raft {
        id: node("n1"),
        voters: vec![(node("n1"), progress()), (node("n2"), progress()), (node("n3"), progress())],
        learners: Vec::new(),
        role: Role::Follower,
        current_term: 3,
        leader_id: None,
        voted_for: Some(node("n3")),
        last_applied: 0,
        commit_index: 0,
        last_log_index: 8,
        last_log_term: 3,
        granted_votes: Vec::new(),
    }
}

fn append_request(term: u64, prev_log_index: u64, prev_log_term: u64) -> Event {
    Event::AppendEntries(ReceivedAppendEntries {
        operation_id: OperationId(5),
        request: AppendEntriesRequest {
            term,
            leader_id: node("n2"),
            prev_log_index,
            prev_log_term,
            commit_index: 2,
        },
        local_prev_log_term: None,
    })
}

#[test]
fn missing_previous_entry_is_refused_whatever_its_term() {
    let mut raft = three_node_follower();
    let effect = raft.handle(append_request(3, 9, 2)).unwrap();
    let Some(Effect::RejectAppendEntries { peer, response, .. }) = effect else {
        panic!("a missing previous entry must be refused");
    };
    assert_eq!(peer, node("n2"));
    assert!(!response.success);
    assert_eq!(response.term, 3);
    assert_eq!(response.last_log_index, 8);
    assert_eq!(response.last_log_term, 3);
    assert_eq!(raft.leader_id, Some(node("n2")));
    assert_eq!(raft.voted_for, Some(node("n3")));
}

#[test]
fn missing_previous_entry_in_a_newer_term_is_refused_and_only_records_term_and_leader() {
    let mut raft = three_node_follower();
    raft.role = Role::Candidate;
    let effect = raft.handle(append_request(5, 12, 4)).unwrap();
    let Some(Effect::RejectAppendEntries { response, .. }) = effect else {
        panic!("a missing previous entry must be refused");
    };
    assert!(!response.success);
    assert_eq!(response.term, 5);
    assert_eq!(response.last_log_index, 8);
    assert_eq!(raft.current_term, 5);
    assert_eq!(raft.leader_id, Some(node("n2")));
    assert_eq!(raft.voted_for, Some(node("n3")));
    assert_eq!(raft.role, Role::Candidate);
}

#[test]
fn multi_voter_leader_does_not_commit_its_own_new_entry() {
    let mut raft = three_node_follower();
    raft.role = Role::Leader;
    raft.voted_for = Some(node("n1"));
    // A peer's progress already reads the new index, but nothing was replicated yet.
    raft.voters[1].1 = Progress { next_index: 10, match_index: 9 };
    let effect = raft
        .handle(Event::LocalEntriesAppended(LocalEntry {
            operation_id: OperationId(5),
            index: 9,
            term: 3,
        }))
        .unwrap();
    assert!(matches!(effect, Some(Effect::SendAppendEntries { .. })));
    assert_eq!(raft.commit_index, 0);
    assert_eq!(raft.last_log_index, 9);
}
