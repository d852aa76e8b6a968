//! The index of a segment: fixed-width entries, each the entry's offset
//! relative to the segment's base (four big-endian bytes) and the position of
//! its record in the store (eight big-endian bytes). The index occupies a
//! region of `max_size_bytes`; its first `len` bytes hold the entries.
use vstd::prelude::*;
use crate::codec::{
    lemma_u32_be_round_trip, lemma_u64_be_round_trip, read_u32_be, read_u64_be, u32_be_bytes,
    u32_from_be, u64_be_bytes, u64_from_be,
};
use crate::log::LogError;

verus! {

pub const OFF_WIDTH: u64 = 4;

pub const POSITION_WIDTH: u64 = 8;

/// Width of one index entry.
pub const ENTIRE_WIDTH: u64 = 12;

#[derive(Clone, Debug)]
pub struct Config {
    pub max_size_bytes: u64,
}

/// The index region of a segment and how much of it is in use.
#[derive(Debug)]
pub struct Index {
    mmap: Vec<u8>,
    size: u64,
}

/// The relative offset stored in entry `j`.
pub open spec fn entry_off(b: Seq<u8>, j: int) -> u32 {
    u32_from_be(b.subrange(12 * j, 12 * j + 4))
}

/// The store position stored in entry `j`.
pub open spec fn entry_pos(b: Seq<u8>, j: int) -> u64 {
    u64_from_be(b.subrange(12 * j + 4, 12 * j + 12))
}

/// The bytes of an entry.
pub open spec fn entry_bytes(off: u32, pos: u64) -> Seq<u8> {
    u32_be_bytes(off) + u64_be_bytes(pos)
}

/// The region `b` with the entry `(off, pos)` written at byte `at`.
pub open spec fn with_entry(b: Seq<u8>, at: int, off: u32, pos: u64) -> Seq<u8> {
    b.subrange(0, at) + entry_bytes(off, pos) + b.subrange(at + 12, b.len() as int)
}

/// Counting from entry `j`, the entries of an index region left by an abrupt
/// stop: the run of whole entries whose offsets are `j`, `j + 1`, ...
pub open spec fn recovered_entries(b: Seq<u8>, j: nat) -> nat
    decreases b.len() - 12 * j,
{
    if 12 * j + 12 <= b.len() && entry_off(b, j as int) as int == j {
        recovered_entries(b, j + 1)
    } else {
        j
    }
}

/// The region of a fresh index: every byte 0xFF, so that no slot reads as an entry.
pub open spec fn fresh_region(n: nat) -> Seq<u8> {
    Seq::new(n, |i: int| 0xFFu8)
}

/// The index region of a segment opened from an index file holding `file`:
/// a fresh region for an empty file, otherwise the file grown with zero bytes
/// to `max` bytes.
pub open spec fn reopened_region(file: Seq<u8>, max: u64) -> Seq<u8> {
    if file.len() == 0 {
        fresh_region(max as nat)
    } else {
        file + Seq::new((max - file.len()) as nat, |i: int| 0u8)
    }
}

/// How many bytes of that region hold entries: none for an empty file; the
/// recovered run of entries for a file of `max` bytes (left by an abrupt
/// stop); the whole file otherwise (cut to its entries on a clean close).
pub open spec fn reopened_used(file: Seq<u8>, max: u64) -> nat {
    if file.len() == 0 {
        0
    } else if file.len() == max {
        12 * recovered_entries(file, 0)
    } else {
        file.len()
    }
}

/// A region of `n` whole entries numbered 0, 1, ..., n - 1 is recovered whole.
pub proof fn lemma_recovered_numbered(b: Seq<u8>, n: nat)
    requires
        b.len() == 12 * n,
        forall|j: int| 0 <= j < n ==> #[trigger] entry_off(b, j) as int == j,
    ensures
        recovered_entries(b, 0) == n,
{
    lemma_recovered_from(b, n, 0);
}

proof fn lemma_recovered_from(b: Seq<u8>, n: nat, k: nat)
    requires
        b.len() == 12 * n,
        k <= n,
        forall|j: int| 0 <= j < n ==> #[trigger] entry_off(b, j) as int == j,
    ensures
        recovered_entries(b, k) == n,
    decreases n - k,
{
    if k < n {
        assert(entry_off(b, k as int) as int == k);
        lemma_recovered_from(b, n, k + 1);
    }
}

proof fn lemma_recovered_bounds(b: Seq<u8>, j: nat)
    requires
        12 * j <= b.len(),
    ensures
        j <= recovered_entries(b, j),
        12 * recovered_entries(b, j) <= b.len(),
    decreases b.len() - 12 * j,
{
    if 12 * j + 12 <= b.len() && entry_off(b, j as int) as int == j {
        lemma_recovered_bounds(b, j + 1);
    }
}

impl Index {
    /// The index region.
    pub closed spec fn bytes(&self) -> Seq<u8> {
        self.mmap@
    }

    /// How many bytes of the region hold entries.
    pub closed spec fn used(&self) -> u64 {
        self.size
    }

    pub open spec fn wf(&self) -> bool {
        self.used() <= self.bytes().len()
    }

    /// Opens the index whose file holds `file`: the region is the file grown
    /// (with zero bytes) to `max_size_bytes`; a fresh file is filled with 0xFF
    /// and holds no entry; a file of exactly `max_size_bytes` was left by an
    /// abrupt stop, and its entries are recovered; any other file was cut to
    /// its entries on a clean close.
    pub fn new(file: Vec<u8>, config: Config) -> (ix: Index)
        requires
            file@.len() <= config.max_size_bytes,
            config.max_size_bytes <= usize::MAX,
            config.max_size_bytes <= 12 * (u32::MAX as int),
        ensures
            ix.wf(),
            ix.bytes().len() == config.max_size_bytes,
            ix.bytes() == reopened_region(file@, config.max_size_bytes),
            ix.used() == reopened_used(file@, config.max_size_bytes),
            ix.used() <= file@.len(),
    {
        let size0 = file.len() as u64;
        let max = config.max_size_bytes as usize;
        let mut mmap = file;
        if size0 == 0 {
            let mut i: usize = 0;
            while i < max
                invariant
                    i <= max,
                    mmap@ == fresh_region(i as nat),
                decreases max - i,
            {
                mmap.push(0xFFu8);
                i = i + 1;
            }
            return Index { mmap, size: 0 };
        }
        let ghost before = mmap@;
        let mut i: usize = mmap.len();
        while i < max
            invariant
                before.len() <= i <= max,
                mmap@ == before + Seq::new((i - before.len()) as nat, |k: int| 0u8),
            decreases max - i,
        {
            mmap.push(0u8);
            i = i + 1;
        }
        let mut size = size0;
        if size0 == config.max_size_bytes {
            assert(mmap@ == before);
            size = Self::recover_size(&mmap);
        }
        Index { mmap, size }
    }

    /// The size of the run of entries whose offsets are 0, 1, 2, ...
    fn recover_size(mmap: &Vec<u8>) -> (size: u64)
        requires
            mmap@.len() <= 12 * (u32::MAX as int),
        ensures
            size == 12 * recovered_entries(mmap@, 0),
            size <= mmap@.len(),
    {
        let ulen = mmap.len();
        let len = ulen as u64;
        let mut size: u64 = 0;
        let mut expected: u32 = 0;
        let slice = mmap.as_slice();
        while size + ENTIRE_WIDTH <= len
            invariant
                ulen == mmap@.len() <= 12 * (u32::MAX as int),
                len == ulen,
                slice@ == mmap@,
                size == 12 * (expected as int),
                size <= len,
                recovered_entries(mmap@, expected as nat) == recovered_entries(mmap@, 0),
            decreases len - size,
        {
            let start = size as usize;
            let off = read_u32_be(slice, start);
            assert(entry_off(mmap@, expected as int) == off);
            if off != expected {
                return size;
            }
            expected = expected + 1;
            size = size + ENTIRE_WIDTH;
        }
        size
    }

    /// How many entries an index opened from `file` holds (what `new` would
    /// recover), without opening it.
    pub fn reopened_entries(file: &Vec<u8>, max_size_bytes: u64) -> (n: u64)
        requires
            file@.len() <= max_size_bytes,
            max_size_bytes <= 12 * (u32::MAX as int),
        ensures
            n == reopened_used(file@, max_size_bytes) / 12,
    {
        let len = file.len() as u64;
        if len == 0 {
            0
        } else if len == max_size_bytes {
            Self::recover_size(file) / ENTIRE_WIDTH
        } else {
            len / ENTIRE_WIDTH
        }
    }

    /// Appends an entry, or refuses when the region is full.
    pub fn write(&mut self, offset: u32, pos: u64) -> (r: Result<(), LogError>)
        requires
            old(self).wf(),
        ensures
            final(self).wf(),
            final(self).bytes().len() == old(self).bytes().len(),
            old(self).used() + ENTIRE_WIDTH > old(self).bytes().len() ==> {
                &&& r == Err::<(), LogError>(LogError::IndexFull)
                &&& final(self).bytes() == old(self).bytes()
                &&& final(self).used() == old(self).used()
            },
            old(self).used() + ENTIRE_WIDTH <= old(self).bytes().len() ==> {
                &&& r is Ok
                &&& final(self).used() == old(self).used() + ENTIRE_WIDTH
                &&& final(self).bytes() == with_entry(old(self).bytes(), old(self).used() as int, offset, pos)
            },
    {
        let len = self.mmap.len() as u64;
        if self.size > len || len - self.size < ENTIRE_WIDTH {
            return Err(LogError::IndexFull);
        }
        let start = self.size as usize;
        let ghost before = self.mmap@;
        self.mmap.set(start, (offset >> 24u32) as u8);
        self.mmap.set(start + 1, (offset >> 16u32) as u8);
        self.mmap.set(start + 2, (offset >> 8u32) as u8);
        self.mmap.set(start + 3, offset as u8);
        self.mmap.set(start + 4, (pos >> 56u64) as u8);
        self.mmap.set(start + 5, (pos >> 48u64) as u8);
        self.mmap.set(start + 6, (pos >> 40u64) as u8);
        self.mmap.set(start + 7, (pos >> 32u64) as u8);
        self.mmap.set(start + 8, (pos >> 24u64) as u8);
        self.mmap.set(start + 9, (pos >> 16u64) as u8);
        self.mmap.set(start + 10, (pos >> 8u64) as u8);
        self.mmap.set(start + 11, pos as u8);
        assert(self.mmap@ == before.subrange(0, start as int) + entry_bytes(offset, pos)
            + before.subrange(start + 12, before.len() as int));
        self.size = self.size + ENTIRE_WIDTH;
        Ok(())
    }

    /// Reads entry `off`: its stored offset and store position.
    pub fn read(&self, off: u32) -> (r: Result<(u32, u64), LogError>)
        requires
            self.wf(),
        ensures
            12 * off + 12 > self.used() ==> r == Err::<(u32, u64), LogError>(
                LogError::IndexOutOfRange,
            ),
            12 * off + 12 <= self.used() ==> r == Ok::<(u32, u64), LogError>(
                (entry_off(self.bytes(), off as int), entry_pos(self.bytes(), off as int)),
            ),
    {
        let start = off as u64 * ENTIRE_WIDTH;
        if start + ENTIRE_WIDTH > self.size {
            return Err(LogError::IndexOutOfRange);
        }
        let ulen = self.mmap.len();
        assert(start + ENTIRE_WIDTH <= ulen);
        let at = start as usize;
        let slice = self.mmap.as_slice();
        let o = read_u32_be(slice, at);
        let p = read_u64_be(slice, at + 4);
        Ok((o, p))
    }

    /// How many bytes of the region hold entries.
    pub fn len(&self) -> (n: u64)
        ensures
            n == self.used(),
    {
        self.size
    }

    /// How many entries the index holds.
    pub fn current_offset(&self) -> (n: u64)
        ensures
            n == self.used() / ENTIRE_WIDTH,
    {
        self.size / ENTIRE_WIDTH
    }

    /// The index region.
    pub fn as_bytes(&self) -> (b: &[u8])
        ensures
            b@ == self.bytes(),
    {
        self.mmap.as_slice()
    }
}

/// Writing an entry at slot `j` makes it read back as written.
pub proof fn lemma_entry_round_trip(b: Seq<u8>, j: int, off: u32, pos: u64)
    requires
        0 <= j,
        12 * j + 12 <= b.len(),
    ensures
        entry_off(with_entry(b, 12 * j, off, pos), j) == off,
        entry_pos(with_entry(b, 12 * j, off, pos), j) == pos,
        with_entry(b, 12 * j, off, pos).len() == b.len(),
{
    let b2 = with_entry(b, 12 * j, off, pos);
    lemma_u32_be_round_trip(off);
    lemma_u64_be_round_trip(pos);
    assert(b2.subrange(12 * j, 12 * j + 4) == u32_be_bytes(off));
    assert(b2.subrange(12 * j + 4, 12 * j + 12) == u64_be_bytes(pos));
}

} // verus!
