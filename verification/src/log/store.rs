//! The store of a segment: length-prefixed records, one after another. Each
//! record is its length as eight big-endian bytes followed by its bytes.
use vstd::prelude::*;
use crate::codec::{lemma_u64_be_round_trip, push_u64_be, read_u64_be, u64_be_bytes, u64_from_be};
use crate::log::LogError;

verus! {

/// Width of the length prefix of a record.
pub const LENGTH_WIDTH: u64 = 8;

#[derive(Clone, Debug)]
pub struct Config {
    pub sync_writes: bool,
}

/// The contents of a store file.
#[derive(Debug)]
pub struct Store {
    size: u64,
    data: Vec<u8>,
    config: Config,
}

/// The record that starts at `pos`, if one lies whole within `data`.
pub open spec fn record_at(data: Seq<u8>, pos: int) -> Option<Seq<u8>> {
    if 0 <= pos && pos + 8 <= data.len() {
        let n = u64_from_be(data.subrange(pos, pos + 8));
        if pos + 8 + n <= data.len() {
            Some(data.subrange(pos + 8, pos + 8 + n))
        } else {
            None
        }
    } else {
        None
    }
}

/// The bytes of a record as it is stored.
pub open spec fn framed(buf: Seq<u8>) -> Seq<u8> {
    u64_be_bytes(buf.len() as u64) + buf
}

/// Appending a record leaves every record that lay whole in the store as it
/// was, and puts the new record at the old end.
pub proof fn lemma_append_record(data: Seq<u8>, buf: Seq<u8>)
    requires
        buf.len() <= u64::MAX,
    ensures
        record_at(data + framed(buf), data.len() as int) == Some(buf),
        forall|p: int| #[trigger] record_at(data, p) is Some ==> record_at(data + framed(buf), p)
            == record_at(data, p),
{
    let d2 = data + framed(buf);
    let p0 = data.len() as int;
    lemma_u64_be_round_trip(buf.len() as u64);
    assert(d2.subrange(p0, p0 + 8) == u64_be_bytes(buf.len() as u64));
    assert(d2.subrange(p0 + 8, p0 + 8 + buf.len()) == buf);
    assert forall|p: int| #[trigger] record_at(data, p) is Some implies record_at(d2, p)
        == record_at(data, p) by {
        assert(d2.subrange(p, p + 8) == data.subrange(p, p + 8));
        let n = u64_from_be(data.subrange(p, p + 8));
        assert(d2.subrange(p + 8, p + 8 + n) == data.subrange(p + 8, p + 8 + n));
    }
}

impl Store {
    /// The bytes of the store.
    pub closed spec fn bytes(&self) -> Seq<u8> {
        self.data@
    }

    /// The recorded size matches the bytes.
    pub closed spec fn wf(&self) -> bool {
        self.size == self.data@.len()
    }

    /// Whether appends are to be synced to disk.
    pub closed spec fn syncs(&self) -> bool {
        self.config.sync_writes
    }

    /// A store holding the bytes `contents` of its file.
    pub fn new(contents: Vec<u8>, config: Config) -> (s: Store)
        ensures
            s.wf(),
            s.bytes() == contents@,
            s.syncs() == config.sync_writes,
    {
        let size = contents.len() as u64;
        Store { size, data: contents, config }
    }

    /// Appends a record; returns how many bytes it took.
    pub fn append(&mut self, buf: &[u8]) -> (written: u64)
        requires
            old(self).wf(),
            old(self).bytes().len() + buf@.len() + LENGTH_WIDTH <= u64::MAX,
        ensures
            final(self).wf(),
            final(self).bytes() == old(self).bytes() + framed(buf@),
            written == buf@.len() + LENGTH_WIDTH,
            final(self).syncs() == old(self).syncs(),
    {
        let ghost start = self.data@;
        let ghost syncs = self.config.sync_writes;
        push_u64_be(&mut self.data, buf.len() as u64);
        let ghost mid = self.data@;
        let mut i: usize = 0;
        while i < buf.len()
            invariant
                i <= buf@.len(),
                self.data@ == mid + buf@.subrange(0, i as int),
                mid == start + u64_be_bytes(buf@.len() as u64),
                self.size == start.len(),
                self.config.sync_writes == syncs,
                start.len() + buf@.len() + LENGTH_WIDTH <= u64::MAX,
            decreases buf@.len() - i,
        {
            self.data.push(buf[i]);
            i = i + 1;
            assert(buf@.subrange(0, i as int) == buf@.subrange(0, i - 1).push(buf@[i - 1]));
        }
        assert(buf@.subrange(0, buf@.len() as int) == buf@);
        let written = buf.len() as u64 + LENGTH_WIDTH;
        self.size = self.size + written;
        written
    }

    /// Reads the record that starts at `pos` into `buf`.
    pub fn read(&self, pos: u64, buf: &mut Vec<u8>) -> (r: Result<(), LogError>)
        requires
            self.wf(),
        ensures
            match record_at(self.bytes(), pos as int) {
                Some(rec) => r is Ok && final(buf)@ == rec,
                None => r == Err::<(), LogError>(LogError::StoreOutOfRange) && final(buf)@ == old(
                    buf,
                )@,
            },
    {
        if pos > self.size || self.size - pos < LENGTH_WIDTH {
            return Err(LogError::StoreOutOfRange);
        }
        let len = self.data.len();
        assert(len == self.size);
        let at = pos as usize;
        assert(at == pos);
        let slice = self.data.as_slice();
        let n = read_u64_be(slice, at);
        if n > self.size - pos - LENGTH_WIDTH {
            return Err(LogError::StoreOutOfRange);
        }
        let start = at + 8;
        let end = start + n as usize;
        buf.clear();
        let mut i: usize = start;
        while i < end
            invariant
                start <= i <= end <= self.data@.len(),
                buf@ == self.data@.subrange(start as int, i as int),
            decreases end - i,
        {
            buf.push(self.data[i]);
            i = i + 1;
            assert(self.data@.subrange(start as int, i as int) == self.data@.subrange(
                start as int,
                i - 1,
            ).push(self.data@[i - 1]));
        }
        Ok(())
    }

    /// The size of the store in bytes.
    pub fn len(&self) -> (n: u64)
        requires
            self.wf(),
        ensures
            n == self.bytes().len(),
    {
        self.size
    }

    /// The bytes of the store, as the file holds them.
    pub fn as_bytes(&self) -> (b: &[u8])
        ensures
            b@ == self.bytes(),
    {
        self.data.as_slice()
    }

    /// Whether appends are to be synced to disk.
    pub fn sync_writes(&self) -> (b: bool)
        ensures
            b == self.syncs(),
    {
        self.config.sync_writes
    }
}

} // verus!
