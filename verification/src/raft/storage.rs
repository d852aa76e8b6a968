//! The byte layout of Raft's durable hard state: the current term as eight
//! big-endian bytes, the byte length of the vote as eight big-endian bytes
//! (zero for no vote), then the UTF-8 bytes of the voted-for node identifier.
use vstd::prelude::*;
use vstd::utf8::{decode_utf8, encode_utf8, encode_utf8_decode_utf8, encode_utf8_valid_utf8, valid_utf8};
use crate::codec::{lemma_u64_be_round_trip, push_u64_be, read_u64_be, u64_be_bytes, u64_from_be};
use crate::raft::types::{NodeId, State};

verus! {

/// The UTF-8 bytes of the vote in `s` (none for no vote).
pub open spec fn vote_bytes(s: State) -> Seq<u8> {
    match s.voted_for {
        Some(v) => encode_utf8(v@),
        None => Seq::empty(),
    }
}

/// The encoding of the hard state `s`.
pub open spec fn state_bytes(s: State) -> Seq<u8> {
    u64_be_bytes(s.current_term) + u64_be_bytes(vote_bytes(s).len() as u64) + vote_bytes(s)
}

/// The vote length recorded in an encoding.
pub open spec fn recorded_vote_len(b: Seq<u8>) -> u64 {
    u64_from_be(b.subrange(8, 16))
}

/// The vote bytes recorded in an encoding.
pub open spec fn recorded_vote(b: Seq<u8>) -> Seq<u8> {
    b.subrange(16, 16 + recorded_vote_len(b))
}

/// The bytes hold a hard state: nothing at all (a fresh store), or a term and
/// a vote length, followed by that many bytes of valid UTF-8 if it is not zero.
pub open spec fn state_decodes(b: Seq<u8>) -> bool {
    ||| b.len() == 0
    ||| {
        &&& b.len() >= 16
        &&& (recorded_vote_len(b) == 0 || (16 + recorded_vote_len(b) <= b.len() && valid_utf8(
            recorded_vote(b),
        )))
    }
}

/// The term the bytes record (zero for a fresh store).
pub open spec fn recorded_term(b: Seq<u8>) -> u64 {
    if b.len() == 0 {
        0
    } else {
        u64_from_be(b.subrange(0, 8))
    }
}

/// The vote the bytes record, as characters.
pub open spec fn recorded_vote_chars(b: Seq<u8>) -> Option<Seq<char>> {
    if b.len() == 0 || recorded_vote_len(b) == 0 {
        None
    } else {
        Some(decode_utf8(recorded_vote(b)))
    }
}

/// The vote of a hard state, as characters.
pub open spec fn vote_chars(s: State) -> Option<Seq<char>> {
    match s.voted_for {
        Some(v) => Some(v@),
        None => None,
    }
}

/// Turns bytes into a `String` when they are valid UTF-8.
///
/// Calls `String::from_utf8`, which std documents as succeeding exactly on
/// valid UTF-8 and then holding those bytes; the contract states this with
/// vstd's account of UTF-8.
#[verifier::external_body]
fn utf8_string(bytes: Vec<u8>) -> (r: Option<String>)
    ensures
        match r {
            Some(s) => valid_utf8(bytes@) && s@ == decode_utf8(bytes@),
            None => !valid_utf8(bytes@),
        },
{
    match String::from_utf8(bytes) {
        Ok(s) => Some(s),
        Err(_) => None,
    }
}

/// Encodes a hard state for storage.
pub fn encode_state(state: &State) -> (r: Vec<u8>)
    ensures
        r@ == state_bytes(*state),
{
    let mut out: Vec<u8> = Vec::new();
    push_u64_be(&mut out, state.current_term);
    match &state.voted_for {
        Some(voted_for) => {
            let bytes = voted_for.as_str().as_bytes();
            push_u64_be(&mut out, bytes.len() as u64);
            let ghost start = out@;
            let mut i: usize = 0;
            while i < bytes.len()
                invariant
                    i <= bytes@.len(),
                    out@ == start + bytes@.subrange(0, i as int),
                decreases bytes@.len() - i,
            {
                out.push(bytes[i]);
                i = i + 1;
                assert(bytes@.subrange(0, i as int) == bytes@.subrange(0, i - 1).push(bytes@[i - 1]));
            }
            assert(bytes@.subrange(0, bytes@.len() as int) == bytes@);
        },
        None => {
            push_u64_be(&mut out, 0);
            assert(out@ == out@ + Seq::<u8>::empty());
        },
    }
    out
}

/// Decodes stored hard state; `None` when the bytes hold no hard state.
pub fn decode_state(bytes: &[u8]) -> (r: Option<State>)
    ensures
        r is Some <==> state_decodes(bytes@),
        match r {
            Some(s) => s.current_term == recorded_term(bytes@) && vote_chars(s)
                == recorded_vote_chars(bytes@),
            None => true,
        },
{
    if bytes.len() == 0 {
        return Some(State { current_term: 0, voted_for: None });
    }
    if bytes.len() < 16 {
        return None;
    }
    let current_term = read_u64_be(bytes, 0);
    let voted_len = read_u64_be(bytes, 8);
    if voted_len == 0 {
        return Some(State { current_term, voted_for: None });
    }
    if voted_len > (bytes.len() - 16) as u64 {
        return None;
    }
    let end = 16 + voted_len as usize;
    let mut vote: Vec<u8> = Vec::new();
    let mut i: usize = 16;
    while i < end
        invariant
            16 <= i <= end <= bytes@.len(),
            vote@ == bytes@.subrange(16, i as int),
        decreases end - i,
    {
        vote.push(bytes[i]);
        i = i + 1;
        assert(bytes@.subrange(16, i as int) == bytes@.subrange(16, i - 1).push(bytes@[i - 1]));
    }
    match utf8_string(vote) {
        Some(s) => Some(State { current_term, voted_for: Some(NodeId(s)) }),
        None => None,
    }
}

/// Stored hard state reads back as it was written: the same term and a vote
/// for the same node (a vote for a node with an empty identifier is stored as
/// its length, zero, and so reads back as no vote).
pub proof fn lemma_state_round_trip(s: State)
    requires
        match s.voted_for {
            Some(v) => v@.len() > 0,
            None => true,
        },
        vote_bytes(s).len() <= u64::MAX,
    ensures
        state_decodes(state_bytes(s)),
        recorded_term(state_bytes(s)) == s.current_term,
        recorded_vote_chars(state_bytes(s)) == vote_chars(s),
{
    let b = state_bytes(s);
    let v = vote_bytes(s);
    lemma_u64_be_round_trip(s.current_term);
    lemma_u64_be_round_trip(v.len() as u64);
    assert(b.subrange(0, 8) == u64_be_bytes(s.current_term));
    assert(b.subrange(8, 16) == u64_be_bytes(v.len() as u64));
    assert(recorded_vote_len(b) == v.len());
    assert(recorded_vote(b) == v);
    match s.voted_for {
        Some(id) => {
            encode_utf8_valid_utf8(id@);
            encode_utf8_decode_utf8(id@);
            if v.len() == 0 {
                assert(v == Seq::<u8>::empty());
                assert(decode_utf8(Seq::<u8>::empty()) == Seq::<char>::empty());
            }
        },
        None => {},
    }
}

} // verus!
