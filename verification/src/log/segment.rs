//! One segment of the log: a store of records and the index of their
//! positions, holding the offsets `base_offset .. next_offset`.
use vstd::prelude::*;
use crate::log::index::{
    entry_bytes, entry_off, entry_pos, lemma_entry_round_trip, reopened_region, reopened_used,
    with_entry, Index, ENTIRE_WIDTH,
};
use crate::log::store::{framed, lemma_append_record, record_at, Store, LENGTH_WIDTH};
use crate::log::{index, store, LogError};

verus! {

#[derive(Clone, Debug)]
pub struct Config {
    pub max_index_bytes: u64,
    pub max_store_bytes: u64,
    pub sync_writes: bool,
}

/// A store/index pair covering the offsets `base_offset .. next_offset`.
#[derive(Debug)]
pub struct Segment {
    cfg: Config,
    index: Index,
    store: Store,
    next_offset: u64,
    base_offset: u64,
}

/// The bounds a segment configuration must respect: the index region fits in
/// memory and holds no more entries than a relative offset can number.
pub open spec fn config_ok(cfg: Config) -> bool {
    &&& cfg.max_index_bytes <= usize::MAX
    &&& cfg.max_index_bytes <= 12 * (u32::MAX as int)
}

/// What reading offset `off` from `seg` does: an offset outside the segment,
/// an index without that entry, or an entry pointing outside the store is an
/// error (and `buf` is left as it was); otherwise `buf` holds the record.
pub open spec fn read_post(seg: Segment, off: u64, before: Seq<u8>, after: Seq<u8>, r: Result<(), LogError>) -> bool {
    let j = (off - seg.base()) as u32;
    if off < seg.base() || off >= seg.next() {
        r == Err::<(), LogError>(LogError::SegmentOutOfRange) && after == before
    } else if 12 * j + 12 > seg.index_used() {
        r == Err::<(), LogError>(LogError::IndexOutOfRange) && after == before
    } else {
        match record_at(seg.store_bytes(), entry_pos(seg.index_bytes(), j as int) as int) {
            Some(rec) => r is Ok && after == rec,
            None => r == Err::<(), LogError>(LogError::StoreOutOfRange) && after == before,
        }
    }
}

/// What appending `record` to `old` does: the record goes to the store; when
/// the index is full the append fails there, otherwise the index gains an
/// entry for the record (its relative offset and store position) and the
/// segment gains the offset `old.next()`.
pub open spec fn append_post(old: Segment, new: Segment, record: Seq<u8>, r: Result<u64, LogError>) -> bool {
    &&& new.wf()
    &&& new.base() == old.base()
    &&& new.config() == old.config()
    &&& new.store_bytes() == old.store_bytes() + framed(record)
    &&& if old.index_used() + ENTIRE_WIDTH > old.index_bytes().len() {
        &&& r == Err::<u64, LogError>(LogError::IndexFull)
        &&& new.next() == old.next()
        &&& new.index_bytes() == old.index_bytes()
        &&& new.index_used() == old.index_used()
    } else {
        &&& r == Ok::<u64, LogError>(old.next())
        &&& new.next() == old.next() + 1
        &&& new.index_used() == old.index_used() + ENTIRE_WIDTH
        &&& new.index_bytes() == with_entry(
            old.index_bytes(),
            old.index_used() as int,
            (old.next() - old.base()) as u32,
            old.store_bytes().len() as u64,
        )
    }
    &&& old.consistent() ==> new.consistent()
    &&& old.consistent() && r is Ok ==> new.records() == old.records().push(record)
    &&& old.consistent() && r is Err ==> new.records() == old.records()
}

/// In a consistent segment, reading an offset the segment holds gives its record.
pub proof fn lemma_consistent_read(seg: Segment, off: u64, before: Seq<u8>, after: Seq<u8>, r: Result<(), LogError>)
    requires
        seg.consistent(),
        seg.base() <= off < seg.next(),
        read_post(seg, off, before, after, r),
        seg.wf(),
    ensures
        r is Ok,
        after == seg.records()[off - seg.base()],
{
    seg.lemma_wf();
    let j = off - seg.base();
    assert((off - seg.base()) as u32 == j);
    assert(record_at(seg.store_bytes(), entry_pos(seg.index_bytes(), j) as int) is Some);
}

impl Segment {
    pub closed spec fn base(&self) -> u64 {
        self.base_offset
    }

    pub closed spec fn next(&self) -> u64 {
        self.next_offset
    }

    pub closed spec fn config(&self) -> Config {
        self.cfg
    }

    /// The bytes of the segment's store.
    pub closed spec fn store_bytes(&self) -> Seq<u8> {
        self.store.bytes()
    }

    /// The segment's index region.
    pub closed spec fn index_bytes(&self) -> Seq<u8> {
        self.index.bytes()
    }

    /// How many bytes of the index region hold entries.
    pub closed spec fn index_used(&self) -> u64 {
        self.index.used()
    }

    /// What well-formedness gives a caller: the bounds of the index and the
    /// order of the offsets.
    pub proof fn lemma_wf(&self)
        requires
            self.wf(),
        ensures
            self.index_used() <= self.index_bytes().len() == self.config().max_index_bytes,
            config_ok(self.config()),
            self.base() <= self.next(),
    {
    }

    pub closed spec fn wf(&self) -> bool {
        &&& self.store.wf()
        &&& self.index.wf()
        &&& self.base_offset <= self.next_offset
        &&& self.index.bytes().len() == self.cfg.max_index_bytes
        &&& config_ok(self.cfg)
        &&& self.store.syncs() == self.cfg.sync_writes
    }

    /// How many records the segment holds.
    pub open spec fn count(&self) -> int {
        self.next() - self.base()
    }

    /// The index has one entry per offset of the segment, each entry carries
    /// its offset relative to the base, and each points at a record that lies
    /// whole in the store.
    pub open spec fn consistent(&self) -> bool {
        &&& self.index_used() == 12 * self.count()
        &&& forall|j: int| 0 <= j < self.count() ==> #[trigger] entry_off(self.index_bytes(), j) as int
            == j
        &&& forall|j: int| 0 <= j < self.count() ==> #[trigger] record_at(
            self.store_bytes(),
            entry_pos(self.index_bytes(), j) as int,
        ) is Some
    }

    /// The records of the segment, by offset relative to its base.
    pub open spec fn records(&self) -> Seq<Seq<u8>> {
        Seq::new(
            self.count() as nat,
            |j: int| record_at(self.store_bytes(), entry_pos(self.index_bytes(), j) as int).unwrap(),
        )
    }

    /// Opens the segment at `base_offset` whose store and index files hold
    /// `store_file` and `index_file`: the index region and the part of it in
    /// use are those `Index::new` recovers from the file, and the offsets run
    /// up to the number of entries in use.
    pub fn new(cfg: Config, base_offset: u64, store_file: Vec<u8>, index_file: Vec<u8>) -> (s:
        Segment)
        requires
            config_ok(cfg),
            index_file@.len() <= cfg.max_index_bytes,
            base_offset + reopened_used(index_file@, cfg.max_index_bytes) / 12 <= u64::MAX,
        ensures
            s.wf(),
            s.base() == base_offset,
            s.config() == cfg,
            s.store_bytes() == store_file@,
            s.next() == base_offset + s.index_used() / 12,
            s.index_bytes() == reopened_region(index_file@, cfg.max_index_bytes),
            s.index_used() == reopened_used(index_file@, cfg.max_index_bytes),
            index_file@.len() == 0 ==> s.index_used() == 0 && s.index_bytes()
                == crate::log::index::fresh_region(cfg.max_index_bytes as nat),
            store_file@.len() == 0 && index_file@.len() == 0 ==> s.consistent() && s.records()
                =~= Seq::<Seq<u8>>::empty(),
    {
        let store = Store::new(store_file, store::Config { sync_writes: cfg.sync_writes });
        let index = Index::new(index_file, index::Config { max_size_bytes: cfg.max_index_bytes });
        let next_offset = base_offset + index.current_offset();
        Segment { cfg, index, store, base_offset, next_offset }
    }

    /// Appends a record and returns its offset. The record goes to the store
    /// first; if the index is full the append fails after that.
    pub fn append(&mut self, record: &[u8]) -> (r: Result<u64, LogError>)
        requires
            old(self).wf(),
            old(self).store_bytes().len() + record@.len() + LENGTH_WIDTH <= u64::MAX,
            old(self).next() < u64::MAX,
        ensures
            append_post(*old(self), *final(self), record@, r),
    {
        let ghost old_store = self.store.bytes();
        let ghost old_index = self.index.bytes();
        let cur = self.next_offset;
        let pos = self.store.len();
        self.store.append(record);
        proof {
            lemma_append_record(old_store, record@);
        }
        let w = self.index.write((self.next_offset - self.base_offset) as u32, pos);
        match w {
            Ok(()) => {
                self.next_offset = self.next_offset + 1;
                proof {
                    self.lemma_append_keeps_records(old_store, old_index, record@);
                }
                Ok(cur)
            },
            Err(e) => {
                proof {
                    if old(self).consistent() {
                        assert forall|j: int| 0 <= j < self.count() implies #[trigger] record_at(
                            self.store_bytes(),
                            entry_pos(self.index_bytes(), j) as int,
                        ) == record_at(old_store, entry_pos(old_index, j) as int) by {
                            assert(record_at(
                                old(self).store_bytes(),
                                entry_pos(old(self).index_bytes(), j) as int,
                            ) is Some);
                        }
                        assert(self.records() =~= old(self).records());
                    }
                }
                Err(e)
            },
        }
    }

    proof fn lemma_append_keeps_records(
        &self,
        old_store: Seq<u8>,
        old_index: Seq<u8>,
        record: Seq<u8>,
    )
        requires
            self.count() >= 1,
            self.store_bytes() == old_store + framed(record),
            self.index_used() >= 12,
            self.index_bytes() == with_entry(
                old_index,
                self.index_used() - 12,
                (self.count() - 1) as u32,
                old_store.len() as u64,
            ),
            self.index_used() <= old_index.len(),
            old_index.len() == self.index_bytes().len(),
            record.len() <= u64::MAX,
            old_store.len() <= u64::MAX,
            old_index.len() <= 12 * (u32::MAX as int),
        ensures
            ({
                let old_used = self.index_used() - 12;
                let n = self.count() - 1;
                (old_used == 12 * n && (forall|j: int| 0 <= j < n ==> #[trigger] entry_off(
                    old_index,
                    j,
                ) as int == j) && forall|j: int| 0 <= j < n ==> #[trigger] record_at(
                    old_store,
                    entry_pos(old_index, j) as int,
                ) is Some) ==> {
                    &&& self.consistent()
                    &&& self.records() == Seq::new(
                        n as nat,
                        |j: int| record_at(old_store, entry_pos(old_index, j) as int).unwrap(),
                    ).push(record)
                }
            }),
    {
        let old_used = self.index_used() - 12;
        let n = self.count() - 1;
        if old_used == 12 * n && (forall|j: int| 0 <= j < n ==> #[trigger] entry_off(old_index, j)
            as int == j) && forall|j: int| 0 <= j < n ==> #[trigger] record_at(
            old_store,
            entry_pos(old_index, j) as int,
        ) is Some {
            lemma_append_record(old_store, record);
            lemma_entry_round_trip(old_index, n, (self.count() - 1) as u32, old_store.len() as u64);
            assert forall|j: int| 0 <= j < n implies entry_pos(self.index_bytes(), j) == entry_pos(
                old_index,
                j,
            ) && entry_off(self.index_bytes(), j) == entry_off(old_index, j) by {
                assert(self.index_bytes().subrange(12 * j + 4, 12 * j + 12) == old_index.subrange(
                    12 * j + 4,
                    12 * j + 12,
                ));
                assert(self.index_bytes().subrange(12 * j, 12 * j + 4) == old_index.subrange(
                    12 * j,
                    12 * j + 4,
                ));
            }
            assert forall|j: int| 0 <= j < self.count() implies #[trigger] entry_off(
                self.index_bytes(),
                j,
            ) as int == j by {
                if j < n {
                    assert(entry_off(old_index, j) as int == j);
                }
            }
            assert forall|j: int| 0 <= j < self.count() implies #[trigger] record_at(
                self.store_bytes(),
                entry_pos(self.index_bytes(), j) as int,
            ) is Some by {
                if j < n {
                    assert(record_at(old_store, entry_pos(old_index, j) as int) is Some);
                }
            }
            assert(self.records() =~= Seq::new(
                n as nat,
                |j: int| record_at(old_store, entry_pos(old_index, j) as int).unwrap(),
            ).push(record)) by {
                assert forall|j: int| 0 <= j < n implies record_at(
                    self.store_bytes(),
                    entry_pos(self.index_bytes(), j) as int,
                ) == record_at(old_store, entry_pos(old_index, j) as int) by {
                    assert(record_at(old_store, entry_pos(old_index, j) as int) is Some);
                }
            }
        }
    }

    /// Reads the record at offset `off` into `buf`.
    pub fn read(&self, off: u64, buf: &mut Vec<u8>) -> (r: Result<(), LogError>)
        requires
            self.wf(),
        ensures
            read_post(*self, off, old(buf)@, final(buf)@, r),
            self.consistent() && self.base() <= off < self.next() ==> r is Ok && final(buf)@
                == self.records()[off - self.base()],
    {
        if off < self.base_offset || off >= self.next_offset {
            return Err(LogError::SegmentOutOfRange);
        }
        let (_, pos) = match self.index.read((off - self.base_offset) as u32) {
            Ok(entry) => entry,
            Err(e) => {
                proof {
                    if self.consistent() {
                        assert(12 * (off - self.base()) + 12 <= self.index_used());
                    }
                }
                return Err(e);
            },
        };
        proof {
            if self.consistent() {
                let j = off - self.base();
                assert(record_at(self.store_bytes(), entry_pos(self.index_bytes(), j) as int) is Some);
            }
        }
        self.store.read(pos, buf)
    }

    /// Whether the index or the store has reached its configured size.
    pub fn is_maxed(&self) -> (b: bool)
        requires
            self.wf(),
        ensures
            b == (self.index_used() >= self.config().max_index_bytes || self.store_bytes().len()
                >= self.config().max_store_bytes),
    {
        self.index.len() >= self.cfg.max_index_bytes || self.store.len() >= self.cfg.max_store_bytes
    }

    /// Whether the segment holds offset `off`.
    pub fn is_in_range(&self, off: u64) -> (b: bool)
        ensures
            b == (self.base() <= off < self.next()),
    {
        self.base_offset <= off && off < self.next_offset
    }

    /// Whether the segment starts after `off`.
    pub fn is_lesser_than_range(&self, off: u64) -> (b: bool)
        ensures
            b == (off < self.base()),
    {
        off < self.base_offset
    }

    pub fn base_offset(&self) -> (b: u64)
        ensures
            b == self.base(),
    {
        self.base_offset
    }

    pub fn next_offset(&self) -> (n: u64)
        ensures
            n == self.next(),
    {
        self.next_offset
    }

    /// The size of the store in bytes.
    pub fn store_len(&self) -> (n: u64)
        requires
            self.wf(),
        ensures
            n == self.store_bytes().len(),
    {
        self.store.len()
    }

    /// How many bytes of the index region hold entries.
    pub fn index_len(&self) -> (n: u64)
        ensures
            n == self.index_used(),
    {
        self.index.len()
    }

    /// The bytes of the store, as its file holds them.
    pub fn store_contents(&self) -> (b: &[u8])
        ensures
            b@ == self.store_bytes(),
    {
        self.store.as_bytes()
    }

    /// The index region, as its file holds it until a clean close.
    pub fn index_contents(&self) -> (b: &[u8])
        ensures
            b@ == self.index_bytes(),
    {
        self.index.as_bytes()
    }

    /// Whether appends are to be synced to disk.
    pub fn sync_writes(&self) -> (b: bool)
        ensures
            b == self.config().sync_writes,
    {
        self.cfg.sync_writes
    }
}

} // verus!
