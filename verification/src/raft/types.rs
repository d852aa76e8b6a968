//! Raft state, the events the core reacts to, the effects it asks the runtime
//! to perform, the protocol messages and the errors of a transition.
use vstd::prelude::*;
use vstd::std_specs::cmp::PartialEqSpecImpl;

verus! {

/// Identifies a client operation while it moves through the runtime.
#[derive(Clone, Copy, Debug, PartialEq, Eq, Structural, Hash)]
pub struct OperationId(pub u64);

/// Identifies a node of the cluster.
#[derive(Debug, Hash)]
pub struct NodeId(pub String);

impl View for NodeId {
    type V = Seq<char>;

    open spec fn view(&self) -> Seq<char> {
        self.0@
    }
}

impl Clone for NodeId {
    fn clone(&self) -> (r: Self)
        ensures
            r == *self,
    {
        NodeId(self.0.clone())
    }
}

impl PartialEq for NodeId {
    fn eq(&self, other: &Self) -> (r: bool) {
        self.0 == other.0
    }
}

impl Eq for NodeId {}

impl PartialEqSpecImpl for NodeId {
    open spec fn obeys_eq_spec() -> bool {
        true
    }

    open spec fn eq_spec(&self, other: &NodeId) -> bool {
        self@ == other@
    }
}

impl NodeId {
    /// The node identifier as text.
    pub fn as_str(&self) -> (s: &str)
        ensures
            s@ == self@,
    {
        self.0.as_str()
    }
}

/// Copies an optional node identifier.
pub fn clone_node_option(o: &Option<NodeId>) -> (r: Option<NodeId>)
    ensures
        r == *o,
{
    match o {
        Some(n) => Some(n.clone()),
        None => None,
    }
}

/// The role a node plays in the current term.
#[derive(Clone, Copy, Debug, PartialEq, Eq, Structural)]
pub enum Role {
    Candidate,
    Follower,
    Leader,
}

/// What the leader knows about the replication state of one peer.
#[derive(Clone, Copy, Debug, PartialEq, Eq, Structural)]
pub struct Progress {
    pub next_index: u64,
    pub match_index: u64,
}

/// Raft's durable election state: it must be persisted before any message
/// that depends on it is sent.
#[derive(Clone, Debug, PartialEq, Eq)]
pub struct State {
    pub current_term: u64,
    pub voted_for: Option<NodeId>,
}

/// Something that has already happened and that the core must react to.
pub enum Event {
    ElectionTimeout,
    HeartbeatTimeout,
    Heartbeat(HeartbeatRequest),
    RequestVote(VoteRequest),
    AppendEntries(ReceivedAppendEntries),
    AppendEntriesResponse(ReceivedAppendEntriesResponse),
    EntriesPersisted(PersistedEntries),
    EntriesApplied(AppliedEntries),
    VoteResponse(ReceivedVoteResponse),
    HeartbeatResponse(ReceivedHeartbeatResponse),
    LocalEntriesAppended(LocalEntry),
    Write(OperationId),
}

/// Work the core has decided must be performed by the runtime.
pub enum Effect {
    SendRequestVotes { hard_state: State, peers: Vec<NodeId>, request: VoteRequest },
    SendAppendEntries { operation_id: OperationId, targets: Vec<ReplicationTarget> },
    SendRequestVoteResponse { hard_state: Option<State>, peer: NodeId, response: VoteResponse },
    SendHeartbeat { peers: Vec<NodeId>, request: HeartbeatRequest },
    SendHeartbeatResponse {
        peer: NodeId,
        response: AppendEntriesResponse,
        reset_election_timer: bool,
        apply_through: Option<u64>,
    },
    PersistEntries {
        operation_id: OperationId,
        peer: NodeId,
        response: AppendEntriesResponse,
        truncate_after: Option<u64>,
        leader_commit_index: u64,
    },
    ApplyCommitted { operation_id: OperationId, through: u64 },
    RejectAppendEntries {
        operation_id: OperationId,
        peer: NodeId,
        response: AppendEntriesResponse,
    },
    AppendLocal { operation_id: OperationId, term: u64, last_log_index: u64 },
    CompleteOperation { operation_id: OperationId },
}

/// The protocol state of one node.
///
/// `voters` and `learners` map node identifiers to replication progress; each
/// identifier occurs at most once in them (see `Raft::wf`).
#[derive(Debug)]
pub struct Raft {
    pub id: NodeId,
    pub voters: Vec<(NodeId, Progress)>,
    pub learners: Vec<(NodeId, Progress)>,
    pub role: Role,
    pub current_term: u64,
    pub leader_id: Option<NodeId>,
    pub voted_for: Option<NodeId>,
    pub last_applied: u64,
    pub commit_index: u64,
    pub last_log_index: u64,
    pub last_log_term: u64,
    pub granted_votes: Vec<NodeId>,
}

/// The errors of a transition or of the runtime's work.
#[derive(Debug)]
pub enum Error {
    NotLeader(Option<NodeId>),
    NotCandidate,
    AppendFailed,
    EntrySerialisationFailed(String),
    RejectingEntryFailed(String),
    PersistStateFailed(String),
    ReadCommittedEntryFailed(String),
    EntryDeserialisationFailed(String),
    ApplyCommittedEntryFailed(String),
}

pub type Result<T> = core::result::Result<T, Error>;

pub struct VoteRequest {
    pub term: u64,
    pub candidate_id: NodeId,
    pub last_log_index: u64,
    pub last_log_term: u64,
}

pub struct HeartbeatRequest {
    pub term: u64,
    pub leader_id: NodeId,
    pub log_index: u64,
    pub log_term: u64,
    pub leader_commit_index: u64,
}

#[derive(Debug)]
pub struct VoteResponse {
    pub term: u64,
    pub vote_granted: bool,
}

pub struct AppendEntriesRequest {
    pub term: u64,
    pub leader_id: NodeId,
    pub prev_log_index: u64,
    pub prev_log_term: u64,
    pub commit_index: u64,
}

pub struct AppendEntriesResponse {
    pub term: u64,
    pub success: bool,
    pub last_log_index: u64,
    pub last_log_term: u64,
    pub leader_id: Option<NodeId>,
}

pub struct PersistedEntries {
    pub operation_id: OperationId,
    pub last_log_index: u64,
    pub last_log_term: u64,
    pub leader_commit_index: u64,
}

pub struct AppliedEntries {
    pub operation_id: OperationId,
    pub through: u64,
}

#[derive(Debug)]
pub struct ReceivedVoteResponse {
    pub from: NodeId,
    pub response: VoteResponse,
}

pub struct ReceivedHeartbeatResponse {
    pub from: NodeId,
    pub response: AppendEntriesResponse,
}

pub struct LocalEntry {
    pub operation_id: OperationId,
    pub index: u64,
    pub term: u64,
}

#[derive(Debug)]
pub struct ReplicationTarget {
    pub peer: NodeId,
    pub last_log_index: u64,
    pub last_log_term: u64,
    pub leader_id: NodeId,
    pub leader_commit_index: u64,
}

pub struct ReceivedAppendEntriesResponse {
    pub operation_id: OperationId,
    pub from: NodeId,
    pub response: AppendEntriesResponse,
}

pub struct ReceivedAppendEntries {
    pub operation_id: OperationId,
    pub request: AppendEntriesRequest,
    pub local_prev_log_term: Option<u64>,
}

/// One record of the replicated log: the term it was created in and the
/// application command it carries.
#[derive(Clone, Debug, PartialEq, Eq)]
pub struct LogEntry {
    pub term: u64,
    pub command: Vec<u8>,
}

/// The application state machine that committed commands are applied to.
pub trait FSM {
    type Error;

    fn apply(&mut self, command: &[u8]) -> core::result::Result<(), Self::Error>;
}

} // verus!

verus! {

/// The mathematical state of a `Raft`: its tables and granted votes as sequences.
#[verifier::ext_equal]
pub struct RaftView {
    pub id: NodeId,
    pub voters: Seq<(NodeId, Progress)>,
    pub learners: Seq<(NodeId, Progress)>,
    pub role: Role,
    pub current_term: u64,
    pub leader_id: Option<NodeId>,
    pub voted_for: Option<NodeId>,
    pub last_applied: u64,
    pub commit_index: u64,
    pub last_log_index: u64,
    pub last_log_term: u64,
    pub granted_votes: Seq<NodeId>,
}

impl View for Raft {
    type V = RaftView;

    open spec fn view(&self) -> RaftView {
        RaftView {
            id: self.id,
            voters: self.voters@,
            learners: self.learners@,
            role: self.role,
            current_term: self.current_term,
            leader_id: self.leader_id,
            voted_for: self.voted_for,
            last_applied: self.last_applied,
            commit_index: self.commit_index,
            last_log_index: self.last_log_index,
            last_log_term: self.last_log_term,
            granted_votes: self.granted_votes@,
        }
    }
}

} // verus!
