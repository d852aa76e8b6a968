//! A Raft consensus core modelled as a deterministic state machine, with a
//! segmented append-only log and the byte layout of Raft's durable hard state.
pub mod codec;
pub mod log;
pub mod raft;
