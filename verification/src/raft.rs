//! The deterministic Raft core: `Raft::handle` maps an event to a new state
//! and an optional effect for the runtime to perform.
pub mod laws;
pub mod operations;
pub mod peers;
pub mod spec;
pub mod storage;
pub mod types;

use vstd::prelude::*;
use crate::raft::peers::{
    build_voter_table, contains_node, has_id, has_node, voter_table, index_of, lemma_index_of_unique, matched_count, others, position,
    push_targets,
};
use crate::raft::spec::{
    append_entries_post, append_entries_response_post, append_response_in_range,
    election_timeout_post, entries_applied_post, entries_persisted_post, heartbeat_post,
    heartbeat_response_post, heartbeat_timeout_post, lift, local_entry_appended_post,
    handle_post, event_in_range, request_vote_post, vote_response_post, wf_view, write_post,
};
use crate::raft::types::{
    clone_node_option, AppendEntriesResponse, AppliedEntries, Effect, Error, Event,
    HeartbeatRequest, LocalEntry, NodeId, OperationId, PersistedEntries, Progress, Raft,
    ReceivedAppendEntries, ReceivedAppendEntriesResponse, ReceivedHeartbeatResponse, ReceivedVoteResponse,
    ReplicationTarget, Result, Role, State, VoteRequest, VoteResponse,
};

verus! {

/// `Ok(e)` as `Ok(Some(e))`.
fn lifted(r: Result<Effect>) -> (o: Result<Option<Effect>>)
    ensures
        o == lift(r),
{
    match r {
        Ok(e) => Ok(Some(e)),
        Err(e) => Err(e),
    }
}

impl Raft {
    /// The state is well formed (see `wf_view`).
    pub open spec fn wf(&self) -> bool {
        wf_view(self@)
    }

    /// A follower that has heard from no leader yet, with the given voters and
    /// the hard state it restarts from; `next_log_offset` is the offset its log
    /// gives the next entry.
    pub fn new(id: NodeId, voters: &Vec<NodeId>, state: State, next_log_offset: u64) -> (r: Raft)
        requires
            has_node(voters@, id@),
            voters@.len() < u64::MAX,
        ensures
            r.wf(),
            r@ == (crate::raft::types::RaftView {
                id,
                voters: voter_table(voters@, id@, next_log_offset),
                learners: Seq::empty(),
                role: Role::Follower,
                current_term: state.current_term,
                leader_id: None,
                voted_for: state.voted_for,
                last_applied: 0,
                commit_index: 0,
                last_log_index: 0,
                last_log_term: 0,
                granted_votes: Seq::empty(),
            }),
    {
        let table = build_voter_table(voters, &id, next_log_offset);
        proof {
            let k = choose|k: int| 0 <= k < voters@.len() && #[trigger] voters@[k]@ == id@;
            assert(has_id(table@, voters@[k]@));
        }
        Raft {
            id,
            voters: table,
            learners: Vec::new(),
            role: Role::Follower,
            current_term: state.current_term,
            leader_id: None,
            voted_for: state.voted_for,
            last_applied: 0,
            commit_index: 0,
            last_log_index: 0,
            last_log_term: 0,
            granted_votes: Vec::new(),
        }
    }

    /// Reacts to an event: updates the protocol state and returns the effect,
    /// if any, that the runtime must perform next.
    pub fn handle(&mut self, ev: Event) -> (r: Result<Option<Effect>>)
        requires
            old(self).wf(),
            event_in_range(old(self)@, ev),
        ensures
            handle_post(old(self)@, final(self)@, ev, r),
    {
        match ev {
            Event::Write(operation_id) => lifted(self.handle_write(operation_id)),
            Event::LocalEntriesAppended(local_entry) => {
                lifted(self.handle_local_entry_appended(local_entry))
            },
            Event::EntriesPersisted(entries) => self.handle_entries_persisted(entries),
            Event::EntriesApplied(entries) => self.handle_entries_applied(entries),
            Event::RequestVote(req) => lifted(self.handle_request_vote(req)),
            Event::AppendEntries(req) => lifted(self.handle_append_entries(req)),
            Event::VoteResponse(resp) => self.handle_vote_response(resp),
            Event::Heartbeat(request) => lifted(self.handle_heartbeat(request)),
            Event::HeartbeatResponse(response) => self.handle_heartbeat_response(response),
            Event::ElectionTimeout => lifted(self.handle_election_timeout()),
            Event::HeartbeatTimeout => lifted(self.handle_heartbeat_timeout()),
            Event::AppendEntriesResponse(response) => {
                self.handle_append_entries_response(response)
            },
        }
    }

    fn heartbeat_request(&self) -> (h: HeartbeatRequest)
        ensures
            h == crate::raft::spec::heartbeat_of(self@),
    {
        HeartbeatRequest {
            term: self.current_term,
            leader_id: self.id.clone(),
            log_index: self.last_log_index,
            log_term: self.last_log_term,
            leader_commit_index: self.commit_index,
        }
    }

    fn response(&self, success: bool) -> (r: AppendEntriesResponse)
        ensures
            r == crate::raft::spec::response_of(self@, success),
    {
        AppendEntriesResponse {
            term: self.current_term,
            success,
            last_log_index: self.last_log_index,
            last_log_term: self.last_log_term,
            leader_id: clone_node_option(&self.leader_id),
        }
    }

    /// Starts an election: next term, a vote for oneself, and vote requests to
    /// every other voter.
    pub fn handle_election_timeout(&mut self) -> (r: Result<Effect>)
        requires
            old(self).current_term < u64::MAX,
        ensures
            election_timeout_post(old(self)@, final(self)@, lift(r)),
    {
        self.current_term = self.current_term + 1;
        let mut granted: Vec<NodeId> = Vec::new();
        granted.push(self.id.clone());
        self.granted_votes = granted;
        self.voted_for = Some(self.id.clone());
        let peers = others(&self.voters, &self.id);
        self.role = Role::Candidate;
        Ok(
            Effect::SendRequestVotes {
                hard_state: State {
                    current_term: self.current_term,
                    voted_for: Some(self.id.clone()),
                },
                peers,
                request: VoteRequest {
                    term: self.current_term,
                    candidate_id: self.id.clone(),
                    last_log_index: self.last_log_index,
                    last_log_term: self.last_log_term,
                },
            },
        )
    }

    /// A leader sends heartbeats to every other voter.
    pub fn handle_heartbeat_timeout(&self) -> (r: Result<Effect>)
        ensures
            heartbeat_timeout_post(self@, self@, lift(r)),
    {
        if self.role != Role::Leader {
            return Err(Error::NotLeader(clone_node_option(&self.leader_id)));
        }
        Ok(
            Effect::SendHeartbeat {
                peers: others(&self.voters, &self.id),
                request: self.heartbeat_request(),
            },
        )
    }

    /// A leader asks for a client command to be appended locally.
    pub fn handle_write(&self, operation_id: OperationId) -> (r: Result<Effect>)
        ensures
            write_post(self@, self@, operation_id, lift(r)),
    {
        if self.role != Role::Leader {
            return Err(Error::NotLeader(clone_node_option(&self.leader_id)));
        }
        Ok(
            Effect::AppendLocal {
                operation_id,
                term: self.current_term,
                last_log_index: self.last_log_index,
            },
        )
    }

    /// Answers a vote request, adopting a higher term first.
    pub fn handle_request_vote(&mut self, vote_request: VoteRequest) -> (r: Result<Effect>)
        ensures
            request_vote_post(old(self)@, final(self)@, vote_request, lift(r)),
    {
        let old_term = self.current_term;
        let previously_for_candidate = match &self.voted_for {
            Some(v) => *v == vote_request.candidate_id,
            None => false,
        };
        if vote_request.term > self.current_term {
            self.current_term = vote_request.term;
            self.role = Role::Follower;
            self.voted_for = None;
            self.granted_votes = Vec::new();
        }
        let stale_log = vote_request.last_log_term < self.last_log_term || (
        vote_request.last_log_term == self.last_log_term && vote_request.last_log_index
            < self.last_log_index);
        let voted_for_other = match &self.voted_for {
            Some(v) => *v != vote_request.candidate_id,
            None => false,
        };
        let granted = vote_request.term >= old_term && !stale_log && !voted_for_other;
        if granted {
            self.voted_for = Some(vote_request.candidate_id.clone());
            self.role = Role::Follower;
        }
        let changed = vote_request.term > old_term || (granted && !previously_for_candidate);
        let hard_state = if changed {
            Some(
                State {
                    current_term: self.current_term,
                    voted_for: clone_node_option(&self.voted_for),
                },
            )
        } else {
            None
        };
        Ok(
            Effect::SendRequestVoteResponse {
                hard_state,
                peer: vote_request.candidate_id,
                response: VoteResponse { term: self.current_term, vote_granted: granted },
            },
        )
    }

    /// Follows a heartbeat from the current (or a newer) leader.
    pub fn handle_heartbeat(&mut self, request: HeartbeatRequest) -> (r: Result<Effect>)
        ensures
            heartbeat_post(old(self)@, final(self)@, request, lift(r)),
    {
        if request.term < self.current_term {
            return Ok(
                Effect::SendHeartbeatResponse {
                    peer: request.leader_id,
                    response: self.response(false),
                    reset_election_timer: false,
                    apply_through: None,
                },
            );
        }
        if request.term > self.current_term {
            self.current_term = request.term;
            self.voted_for = None;
        }
        self.role = Role::Follower;
        self.granted_votes = Vec::new();
        self.leader_id = Some(request.leader_id.clone());

        let log_matches = request.log_index == self.last_log_index && request.log_term
            == self.last_log_term;
        if !log_matches {
            return Ok(
                Effect::SendHeartbeatResponse {
                    peer: request.leader_id,
                    response: self.response(false),
                    reset_election_timer: true,
                    apply_through: None,
                },
            );
        }
        let new_commit_index = if request.leader_commit_index <= self.last_log_index {
            request.leader_commit_index
        } else {
            self.last_log_index
        };
        let apply_through = if new_commit_index > self.commit_index {
            self.commit_index = new_commit_index;
            Some(new_commit_index)
        } else {
            None
        };
        Ok(
            Effect::SendHeartbeatResponse {
                peer: request.leader_id,
                response: self.response(true),
                reset_election_timer: true,
                apply_through,
            },
        )
    }

    /// Accepts (or refuses) entries from a leader, asking for them to be persisted.
    pub fn handle_append_entries(&mut self, received: ReceivedAppendEntries) -> (r: Result<Effect>)
        ensures
            append_entries_post(
                old(self)@,
                final(self)@,
                received.operation_id,
                received.request,
                lift(r),
            ),
    {
        let operation_id = received.operation_id;
        let append_request = received.request;
        if append_request.term < self.current_term {
            return Ok(
                Effect::RejectAppendEntries {
                    operation_id,
                    peer: append_request.leader_id,
                    response: self.response(false),
                },
            );
        }
        if append_request.prev_log_index > self.last_log_index {
            self.current_term = append_request.term;
            self.leader_id = Some(append_request.leader_id.clone());
            return Ok(
                Effect::RejectAppendEntries {
                    operation_id,
                    peer: append_request.leader_id,
                    response: self.response(false),
                },
            );
        }
        if append_request.term > self.current_term {
            self.voted_for = None;
            if append_request.prev_log_index < self.last_log_index {
                self.role = Role::Follower;
                self.current_term = append_request.term;
                self.leader_id = Some(append_request.leader_id.clone());
                return Ok(
                    Effect::PersistEntries {
                        operation_id,
                        peer: append_request.leader_id,
                        response: AppendEntriesResponse {
                            last_log_index: append_request.prev_log_index,
                            last_log_term: append_request.prev_log_term,
                            leader_id: clone_node_option(&self.leader_id),
                            success: true,
                            term: self.current_term,
                        },
                        leader_commit_index: append_request.commit_index,
                        truncate_after: Some(append_request.prev_log_index),
                    },
                );
            }
        }
        self.current_term = append_request.term;
        self.role = Role::Follower;
        self.leader_id = Some(append_request.leader_id.clone());
        Ok(
            Effect::PersistEntries {
                operation_id,
                peer: append_request.leader_id,
                response: self.response(true),
                leader_commit_index: append_request.commit_index,
                truncate_after: None,
            },
        )
    }

    /// Records entries persisted locally and commits what the leader has committed.
    pub fn handle_entries_persisted(&mut self, entries: PersistedEntries) -> (r: Result<
        Option<Effect>,
    >)
        ensures
            entries_persisted_post(old(self)@, final(self)@, entries, r),
    {
        self.last_log_index = entries.last_log_index;
        self.last_log_term = entries.last_log_term;
        let new_commit_index = if entries.leader_commit_index <= self.last_log_index {
            entries.leader_commit_index
        } else {
            self.last_log_index
        };
        if new_commit_index > self.commit_index {
            self.commit_index = new_commit_index;
            return Ok(
                Some(
                    Effect::ApplyCommitted {
                        operation_id: entries.operation_id,
                        through: self.commit_index,
                    },
                ),
            );
        }
        Ok(None)
    }

    /// Records that committed entries were applied.
    pub fn handle_entries_applied(&mut self, entries: AppliedEntries) -> (r: Result<
        Option<Effect>,
    >)
        ensures
            entries_applied_post(old(self)@, final(self)@, entries, r),
    {
        self.last_applied = entries.through;
        if self.role == Role::Leader {
            return Ok(Some(Effect::CompleteOperation { operation_id: entries.operation_id }));
        }
        Ok(None)
    }

    /// The position of the node itself among the voters.
    fn own_position(&self) -> (i: usize)
        requires
            self.wf(),
        ensures
            i == index_of(self.voters@, self.id@),
            i < self.voters.len(),
    {
        let p = position(&self.voters, &self.id);
        match p {
            Some(i) => {
                proof {
                    lemma_index_of_unique(self.voters@, self.id@, i as int);
                }
                i
            },
            None => {
                proof {
                    assert(has_id(self.voters@, self.id@));
                }
                0
            },
        }
    }

    /// Where an identifier stands in a table with no repeated identifiers.
    fn index_in(s: &Vec<(NodeId, Progress)>, id: &NodeId) -> (r: Option<usize>)
        requires
            crate::raft::peers::ids_distinct(s@),
        ensures
            match r {
                Some(i) => i == index_of(s@, id@) && i < s.len(),
                None => index_of(s@, id@) == -1,
            },
    {
        let p = position(s, id);
        match p {
            Some(i) => {
                proof {
                    lemma_index_of_unique(s@, id@, i as int);
                }
                Some(i)
            },
            None => None,
        }
    }

    /// A leader records its own appended entry and replicates (or commits) it.
    pub fn handle_local_entry_appended(&mut self, entry: LocalEntry) -> (r: Result<Effect>)
        requires
            old(self).wf(),
            old(self).role == Role::Leader ==> entry.index < u64::MAX,
        ensures
            local_entry_appended_post(old(self)@, final(self)@, entry, lift(r)),
    {
        if self.role != Role::Leader {
            return Err(Error::NotLeader(clone_node_option(&self.leader_id)));
        }
        let mut targets: Vec<ReplicationTarget> = Vec::new();
        push_targets(
            &mut targets,
            &self.voters,
            &self.id,
            self.last_log_index,
            self.last_log_term,
            self.commit_index,
        );
        push_targets(
            &mut targets,
            &self.learners,
            &self.id,
            self.last_log_index,
            self.last_log_term,
            self.commit_index,
        );
        self.last_log_index = entry.index;
        self.last_log_term = entry.term;
        let i = self.own_position();
        let own_id = self.voters[i].0.clone();
        self.voters.set(
            i,
            (own_id, Progress { match_index: entry.index, next_index: entry.index + 1 }),
        );
        if self.voters.len() == 1 {
            self.commit_index = entry.index;
            return Ok(
                Effect::ApplyCommitted { operation_id: entry.operation_id, through: entry.index },
            );
        }
        Ok(Effect::SendAppendEntries { operation_id: entry.operation_id, targets })
    }

    /// Counts a vote for a candidate; a majority makes it leader.
    pub fn handle_vote_response(&mut self, vote_response: ReceivedVoteResponse) -> (r: Result<
        Option<Effect>,
    >)
        requires
            old(self).wf(),
        ensures
            vote_response_post(old(self)@, final(self)@, vote_response, r),
    {
        if self.role != Role::Candidate {
            return Err(Error::NotCandidate);
        }
        if vote_response.response.term != self.current_term
            || !vote_response.response.vote_granted {
            return Ok(None);
        }
        let is_voter = position(&self.voters, &vote_response.from).is_some();
        if is_voter && !contains_node(&self.granted_votes, &vote_response.from) {
            self.granted_votes.push(vote_response.from);
        }
        if self.granted_votes.len() > self.voters.len() / 2 {
            self.role = Role::Leader;
            return Ok(
                Some(
                    Effect::SendHeartbeat {
                        peers: others(&self.voters, &self.id),
                        request: self.heartbeat_request(),
                    },
                ),
            );
        }
        Ok(None)
    }

    /// The progress of a peer after its heartbeat response.
    fn heartbeat_progress(p: Progress, response: &AppendEntriesResponse, leader_last: u64) -> (r:
        Progress)
        ensures
            r == crate::raft::spec::progress_after_heartbeat(p, *response, leader_last),
    {
        if response.success {
            let matched = if response.last_log_index <= leader_last {
                response.last_log_index
            } else {
                leader_last
            };
            let match_index = if p.match_index >= matched {
                p.match_index
            } else {
                matched
            };
            let after = match_index.saturating_add(1);
            Progress {
                match_index,
                next_index: if p.next_index >= after {
                    p.next_index
                } else {
                    after
                },
            }
        } else {
            let previous_index = p.next_index.saturating_sub(1);
            let follower_next_index = response.last_log_index.saturating_add(1);
            Progress {
                match_index: p.match_index,
                next_index: if previous_index <= follower_next_index {
                    previous_index
                } else {
                    follower_next_index
                },
            }
        }
    }

    /// Updates a peer's progress from its heartbeat response.
    pub fn handle_heartbeat_response(&mut self, received: ReceivedHeartbeatResponse) -> (r: Result<
        Option<Effect>,
    >)
        requires
            old(self).wf(),
        ensures
            heartbeat_response_post(old(self)@, final(self)@, received, r),
    {
        if received.response.term > self.current_term {
            self.current_term = received.response.term;
            self.role = Role::Follower;
            self.voted_for = None;
            self.leader_id = received.response.leader_id;
            self.granted_votes = Vec::new();
            return Ok(None);
        }
        if self.role != Role::Leader {
            return Err(Error::NotLeader(clone_node_option(&self.leader_id)));
        }
        if received.response.term < self.current_term {
            return Ok(None);
        }
        match Self::index_in(&self.voters, &received.from) {
            Some(i) => {
                let id = self.voters[i].0.clone();
                let p = Self::heartbeat_progress(
                    self.voters[i].1,
                    &received.response,
                    self.last_log_index,
                );
                self.voters.set(i, (id, p));
            },
            None => {
                match Self::index_in(&self.learners, &received.from) {
                    Some(i) => {
                        let id = self.learners[i].0.clone();
                        let p = Self::heartbeat_progress(
                            self.learners[i].1,
                            &received.response,
                            self.last_log_index,
                        );
                        self.learners.set(i, (id, p));
                    },
                    None => {},
                }
            },
        }
        Ok(None)
    }

    /// The effect that retries replication to `peer` from the position it reported.
    fn retry(&self, operation_id: OperationId, peer: NodeId, response: &AppendEntriesResponse) -> (r:
        Effect)
        ensures
            crate::raft::spec::is_retry_effect(
                self@,
                operation_id,
                peer,
                *response,
                Ok::<Option<Effect>, Error>(Some(r)),
            ),
    {
        let mut targets: Vec<ReplicationTarget> = Vec::new();
        targets.push(
            ReplicationTarget {
                peer,
                last_log_index: response.last_log_index,
                last_log_term: response.last_log_term,
                leader_id: self.id.clone(),
                leader_commit_index: self.commit_index,
            },
        );
        Effect::SendAppendEntries { operation_id, targets }
    }

    /// Updates a follower's progress from its AppendEntries response, retrying
    /// followers that are behind and committing once a majority has caught up.
    pub fn handle_append_entries_response(
        &mut self,
        received: ReceivedAppendEntriesResponse,
    ) -> (r: Result<Option<Effect>>)
        requires
            old(self).wf(),
            append_response_in_range(old(self)@, received.response),
        ensures
            append_entries_response_post(old(self)@, final(self)@, received, r),
    {
        let ReceivedAppendEntriesResponse { operation_id, from, response } = received;
        if self.role != Role::Leader {
            return Err(Error::NotLeader(response.leader_id));
        }
        if response.term > self.current_term {
            self.current_term = response.term;
            self.leader_id = clone_node_option(&response.leader_id);
            self.role = Role::Follower;
            self.voted_for = None;
            return Err(Error::NotLeader(response.leader_id));
        }
        let behind = response.last_log_index < self.last_log_index;
        if !response.success && behind {
            return Ok(Some(self.retry(operation_id, from, &response)));
        }
        let progress = Progress {
            match_index: response.last_log_index,
            next_index: response.last_log_index + 1,
        };
        if let Some(i) = Self::index_in(&self.learners, &from) {
            if behind {
                self.learners.set(i, (from.clone(), progress));
                return Ok(Some(self.retry(operation_id, from, &response)));
            }
            self.learners.remove(i);
            self.voters.push((from, progress));
            return Ok(None);
        }
        if let Some(i) = Self::index_in(&self.voters, &from) {
            self.voters.set(i, (from.clone(), progress));
            if behind {
                return Ok(Some(self.retry(operation_id, from, &response)));
            }
            let caught_up = matched_count(&self.voters, &self.id, self.last_log_index);
            if caught_up + 1 > (self.voters.len() as u64) / 2 {
                self.commit_index = self.last_log_index;
                return Ok(
                    Some(
                        Effect::ApplyCommitted {
                            operation_id,
                            through: self.commit_index,
                        },
                    ),
                );
            }
        }
        Ok(None)
    }
}

} // verus!
