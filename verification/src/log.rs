//! A segmented, append-only log of length-prefixed records. Each segment pairs
//! a store of records with an index from logical offsets to store positions;
//! a segment that reaches its configured size is followed by a new one.
pub mod index;
pub mod naming;
pub mod segment;
pub mod store;

use std::path::PathBuf;
use vstd::prelude::*;
use crate::log::index::{
    entry_off, entry_pos, fresh_region, lemma_recovered_numbered,
    reopened_region, reopened_used,
};
use crate::log::store::record_at;
use crate::log::segment::{append_post, config_ok, lemma_consistent_read, read_post, Segment};
use crate::log::store::LENGTH_WIDTH;

verus! {

/// Why a log operation failed.
#[derive(Clone, Copy, Debug, PartialEq, Eq, Structural)]
pub enum LogError {
    /// The index of a segment has no room for another entry.
    IndexFull,
    /// The index of a segment has no entry at the requested slot.
    IndexOutOfRange,
    /// The store holds no whole record at the requested position.
    StoreOutOfRange,
    /// The segment does not hold the requested offset.
    SegmentOutOfRange,
    /// No segment of the log holds the requested offset.
    LogOutOfRange,
}

#[verifier::external_type_specification]
#[verifier::external_body]
pub struct ExPathBuf(PathBuf);

/// Copies a path.
///
/// Calls `PathBuf::clone`; the contract claims the copy is the same path.
#[verifier::external_body]
fn clone_path(p: &PathBuf) -> (r: PathBuf)
    ensures
        r == *p,
{
    p.clone()
}

#[derive(Clone, Debug)]
pub struct Config {
    pub inital_offset: u64,
    pub sync_writes: bool,
    pub max_size_bytes: u64,
    pub max_store_bytes: u64,
}

/// A segment as its files hold it: its base offset and the contents of its
/// store and index files.
pub struct StoredSegment {
    pub base_offset: u64,
    pub store: Vec<u8>,
    pub index: Vec<u8>,
}

/// The segment configuration a log configuration gives.
pub open spec fn seg_config(cfg: Config) -> segment::Config {
    segment::Config {
        max_index_bytes: cfg.max_size_bytes,
        max_store_bytes: cfg.max_store_bytes,
        sync_writes: cfg.sync_writes,
    }
}

/// `seg` is a new, empty segment at `base`.
pub open spec fn fresh(seg: Segment, base: u64, cfg: Config) -> bool {
    &&& seg.wf()
    &&& seg.base() == base
    &&& seg.next() == base
    &&& seg.config() == seg_config(cfg)
    &&& seg.store_bytes() == Seq::<u8>::empty()
    &&& seg.index_used() == 0
    &&& seg.index_bytes() == fresh_region(cfg.max_size_bytes as nat)
    &&& seg.consistent()
    &&& seg.records() == Seq::<Seq<u8>>::empty()
}

/// The segment has reached its configured size.
pub open spec fn maxed(seg: Segment) -> bool {
    seg.index_used() >= seg.config().max_index_bytes || seg.store_bytes().len()
        >= seg.config().max_store_bytes
}

/// The segment holds offset `off`.
pub open spec fn holds(seg: Segment, off: u64) -> bool {
    seg.base() <= off < seg.next()
}

/// The segments cover increasing, non-overlapping ranges of offsets.
pub open spec fn ordered(segs: Seq<Segment>) -> bool {
    forall|i: int, j: int| 0 <= i < j < segs.len() ==> #[trigger] segs[i].next() <= #[trigger] segs[j].base()
}

/// Every segment's index matches its store.
pub open spec fn all_consistent(segs: Seq<Segment>) -> bool {
    forall|i: int| 0 <= i < segs.len() ==> #[trigger] segs[i].consistent()
}

/// The record the log holds at `off`, if any: the record of the segment that
/// holds `off`.
pub open spec fn record_of(segs: Seq<Segment>, off: u64) -> Option<Seq<u8>> {
    if exists|i: int| 0 <= i < segs.len() && holds(#[trigger] segs[i], off) {
        let i = choose|i: int| 0 <= i < segs.len() && holds(#[trigger] segs[i], off);
        Some(segs[i].records()[off - segs[i].base()])
    } else {
        None
    }
}

/// The base offsets the segments from `from` on carry, last first.
pub open spec fn bases_from_end(segs: Seq<Segment>, from: int) -> Seq<u64>
    decreases segs.len() - from,
{
    if from >= segs.len() {
        Seq::empty()
    } else {
        bases_from_end(segs, from + 1).push(segs[from].base())
    }
}

/// How many segments are left when the trailing segments that start after
/// `off` are removed.
pub open spec fn kept_after_truncate(segs: Seq<Segment>, off: u64) -> nat
    decreases segs.len(),
{
    if segs.len() == 0 {
        0
    } else if off < segs.last().base() {
        kept_after_truncate(segs.drop_last(), off)
    } else {
        segs.len()
    }
}

/// The segments a log opens from the segment files `stored`: one per pair of
/// files, at its base offset, with the store as its file holds it, and the
/// index region and its part in use recovered from the index file.
pub open spec fn reopened_from(segs: Seq<Segment>, stored: Seq<StoredSegment>, cfg: Config) -> bool {
    &&& segs.len() == stored.len()
    &&& forall|i: int| 0 <= i < stored.len() ==> {
        &&& (#[trigger] segs[i]).base() == stored[i].base_offset
        &&& segs[i].store_bytes() == stored[i].store@
        &&& segs[i].index_bytes() == reopened_region(stored[i].index@, cfg.max_size_bytes)
        &&& segs[i].index_used() == reopened_used(stored[i].index@, cfg.max_size_bytes)
        &&& segs[i].next() == stored[i].base_offset + segs[i].index_used() / 12
    }
}

/// The segment files that a clean close of `segs` leaves: for each segment,
/// its base offset, its store, and its index cut to the entries in use.
pub open spec fn closed_image(stored: Seq<StoredSegment>, segs: Seq<Segment>) -> bool {
    &&& stored.len() == segs.len()
    &&& forall|i: int| 0 <= i < segs.len() ==> {
        &&& (#[trigger] stored[i]).base_offset == segs[i].base()
        &&& stored[i].store@ == segs[i].store_bytes()
        &&& stored[i].index@ == segs[i].index_bytes().subrange(0, segs[i].index_used() as int)
    }
}

/// A segment opened from the files of a consistent segment holds the same
/// offsets and records and is consistent again.
proof fn lemma_reopen_segment(before: Segment, file: Seq<u8>, after: Segment, max: u64)
    requires
        before.wf(),
        before.consistent(),
        before.config().max_index_bytes == max,
        file == before.index_bytes().subrange(0, before.index_used() as int),
        after.base() == before.base(),
        after.store_bytes() == before.store_bytes(),
        after.index_bytes() == reopened_region(file, max),
        after.index_used() == reopened_used(file, max),
        after.next() == before.base() + after.index_used() / 12,
    ensures
        after.next() == before.next(),
        after.consistent(),
        after.records() == before.records(),
{
    before.lemma_wf();
    let n = before.count();
    let u = before.index_used();
    assert(file.len() == 12 * n);
    if n > 0 {
        assert forall|j: int| 0 <= j < n implies entry_off(file, j) == entry_off(
            before.index_bytes(),
            j,
        ) && entry_pos(file, j) == entry_pos(before.index_bytes(), j) && entry_off(
            after.index_bytes(),
            j,
        ) == entry_off(before.index_bytes(), j) && entry_pos(after.index_bytes(), j) == entry_pos(
            before.index_bytes(),
            j,
        ) by {
            assert(file.subrange(12 * j, 12 * j + 4) == before.index_bytes().subrange(
                12 * j,
                12 * j + 4,
            ));
            assert(file.subrange(12 * j + 4, 12 * j + 12) == before.index_bytes().subrange(
                12 * j + 4,
                12 * j + 12,
            ));
            assert(after.index_bytes().subrange(12 * j, 12 * j + 4) == file.subrange(
                12 * j,
                12 * j + 4,
            ));
            assert(after.index_bytes().subrange(12 * j + 4, 12 * j + 12) == file.subrange(
                12 * j + 4,
                12 * j + 12,
            ));
        }
        if file.len() == max {
            assert forall|j: int| 0 <= j < n implies #[trigger] entry_off(file, j) as int == j by {
                assert(entry_off(before.index_bytes(), j) as int == j);
            }
            lemma_recovered_numbered(file, n as nat);
        }
        assert(after.index_used() == u);
        assert forall|j: int| 0 <= j < after.count() implies #[trigger] entry_off(
            after.index_bytes(),
            j,
        ) as int == j by {
            assert(entry_off(before.index_bytes(), j) as int == j);
        }
        assert forall|j: int| 0 <= j < after.count() implies #[trigger] record_at(
            after.store_bytes(),
            entry_pos(after.index_bytes(), j) as int,
        ) is Some by {
            assert(record_at(before.store_bytes(), entry_pos(before.index_bytes(), j) as int) is Some);
        }
        assert(after.records() =~= before.records());
    } else {
        assert(after.index_used() == 0);
        assert(after.records() =~= before.records());
    }
}

/// A log closed cleanly and opened again from the files it left reads back
/// every record it held, at the same offset, and no record it did not hold.
pub proof fn lemma_reopen_reads_back(
    before: Seq<Segment>,
    stored: Seq<StoredSegment>,
    after: Seq<Segment>,
    cfg: Config,
)
    requires
        forall|i: int| 0 <= i < before.len() ==> (#[trigger] before[i]).wf() && before[i].config()
            == seg_config(cfg),
        ordered(before),
        all_consistent(before),
        closed_image(stored, before),
        reopened_from(after, stored, cfg),
    ensures
        ordered(after),
        all_consistent(after),
        forall|i: int| 0 <= i < after.len() ==> (#[trigger] after[i]).records() == before[i].records(),
        forall|o: u64| record_of(after, o) == record_of(before, o),
{
    assert forall|i: int| 0 <= i < after.len() implies (#[trigger] after[i]).next() == before[i].next()
        && after[i].consistent() && after[i].records() == before[i].records() by {
        assert(before[i].consistent());
        lemma_reopen_segment(before[i], stored[i].index@, after[i], cfg.max_size_bytes);
    }
    assert(ordered(after)) by {
        assert forall|i: int, j: int| 0 <= i < j < after.len() implies #[trigger] after[i].next()
            <= #[trigger] after[j].base() by {
            assert(before[i].next() <= before[j].base());
        }
    }
    assert forall|o: u64| record_of(after, o) == record_of(before, o) by {
        if exists|i: int| 0 <= i < before.len() && holds(#[trigger] before[i], o) {
            let i = choose|i: int| 0 <= i < before.len() && holds(#[trigger] before[i], o);
            lemma_record_of_holder(before, i, o);
            lemma_record_of_holder(after, i, o);
        } else {
            assert forall|i: int| 0 <= i < after.len() implies !holds(#[trigger] after[i], o) by {
                assert(!holds(before[i], o));
            }
        }
    }
}

/// What reading offset `off` from the segments `segs` does, whatever state
/// they are in: with no segment holding `off` it is `LogOutOfRange` and the
/// buffer stays as it was; otherwise it is what reading `off` from the first
/// segment that holds it does.
#[verifier::opaque]
pub open spec fn read_gives(
    segs: Seq<Segment>,
    off: u64,
    before: Seq<u8>,
    after: Seq<u8>,
    r: Result<(), LogError>,
) -> bool {
    &&& (forall|i: int| 0 <= i < segs.len() ==> !holds(#[trigger] segs[i], off)) ==> r == Err::<
        (),
        LogError,
    >(LogError::LogOutOfRange) && after == before
    &&& (exists|i: int| 0 <= i < segs.len() && holds(#[trigger] segs[i], off)) ==> exists|i: int|
        0 <= i < segs.len() && holds(#[trigger] segs[i], off) && (forall|j: int|
            0 <= j < i ==> !holds(segs[j], off)) && read_post(segs[i], off, before, after, r)
}

/// How many offsets `first ..= through` covers.
pub open spec fn range_len(first: u64, through: u64) -> nat {
    if first <= through {
        (through - first + 1) as nat
    } else {
        0
    }
}

/// Truncating at `off` keeps exactly the leading segments up to the last one
/// that starts at or before `off`: every removed segment starts after `off`,
/// and the last kept one starts at or before it. In ordered segments every
/// kept segment starts at or before `off`, and every record at an offset up
/// to `off` reads back from the kept segments as before.
pub proof fn lemma_truncate_keeps_what_starts_by(segs: Seq<Segment>, off: u64)
    ensures
        kept_after_truncate(segs, off) <= segs.len(),
        forall|i: int| kept_after_truncate(segs, off) <= i < segs.len() ==> off < (
        #[trigger] segs[i]).base(),
        kept_after_truncate(segs, off) > 0 ==> segs[kept_after_truncate(segs, off) - 1].base()
            <= off,
        ordered(segs) && (forall|i: int| 0 <= i < segs.len() ==> (#[trigger] segs[i]).base()
            <= segs[i].next()) ==> {
            &&& forall|i: int| 0 <= i < kept_after_truncate(segs, off) ==> (
            #[trigger] segs[i]).base() <= off
            &&& forall|o: u64| o <= off ==> record_of(
                segs.subrange(0, kept_after_truncate(segs, off) as int),
                o,
            ) == record_of(segs, o)
        },
    decreases segs.len(),
{
    let k = kept_after_truncate(segs, off);
    if segs.len() > 0 && off < segs.last().base() {
        let t = segs.drop_last();
        lemma_truncate_keeps_what_starts_by(t, off);
        assert forall|i: int| k <= i < segs.len() implies off < (#[trigger] segs[i]).base() by {
            if i < t.len() {
                assert(t[i] == segs[i]);
            }
        }
        if k > 0 {
            assert(t[k - 1] == segs[k - 1]);
        }
        if ordered(segs) && (forall|i: int| 0 <= i < segs.len() ==> (#[trigger] segs[i]).base()
            <= segs[i].next()) {
            assert(ordered(t)) by {
                assert forall|i: int, j: int| 0 <= i < j < t.len() implies #[trigger] t[i].next()
                    <= #[trigger] t[j].base() by {
                    assert(segs[i].next() <= segs[j].base());
                }
            }
            assert forall|i: int| 0 <= i < t.len() implies (#[trigger] t[i]).base() <= t[i].next() by {
                assert(segs[i].base() <= segs[i].next());
            }
            assert forall|i: int| 0 <= i < k implies (#[trigger] segs[i]).base() <= off by {
                assert(t[i].base() <= off);
            }
            assert(segs.subrange(0, k as int) == t.subrange(0, k as int));
            assert forall|o: u64| o <= off implies record_of(segs.subrange(0, k as int), o)
                == record_of(segs, o) by {
                let last = segs.len() - 1;
                assert(!holds(segs[last], o));
                if exists|i: int| 0 <= i < segs.len() && holds(#[trigger] segs[i], o) {
                    let i = choose|i: int| 0 <= i < segs.len() && holds(#[trigger] segs[i], o);
                    assert(i < last);
                    assert(t[i] == segs[i]);
                    lemma_record_of_holder(segs, i, o);
                    lemma_record_of_holder(t, i, o);
                } else {
                    assert forall|i: int| 0 <= i < t.len() implies !holds(#[trigger] t[i], o) by {
                        assert(t[i] == segs[i]);
                        assert(!holds(segs[i], o));
                    }
                }
            }
        }
    } else {
        assert(k == segs.len());
        assert(segs.subrange(0, k as int) =~= segs);
        if ordered(segs) && (forall|i: int| 0 <= i < segs.len() ==> (#[trigger] segs[i]).base()
            <= segs[i].next()) && segs.len() > 0 {
            assert forall|i: int| 0 <= i < k implies (#[trigger] segs[i]).base() <= off by {
                let last = segs.len() - 1;
                if i < last {
                    assert(segs[i].next() <= segs[last].base());
                }
            }
        }
    }
}

/// In ordered segments, the segment that holds an offset gives the log's record there.
pub proof fn lemma_record_of_holder(segs: Seq<Segment>, i: int, off: u64)
    requires
        ordered(segs),
        0 <= i < segs.len(),
        holds(segs[i], off),
    ensures
        record_of(segs, off) == Some(segs[i].records()[off - segs[i].base()]),
{
    let k = choose|k: int| 0 <= k < segs.len() && holds(#[trigger] segs[k], off);
    if k < i {
        assert(segs[k].next() <= segs[i].base());
    } else if k > i {
        assert(segs[i].next() <= segs[k].base());
    }
}

/// Appending to the last of ordered, consistent segments keeps them ordered
/// and consistent, makes the new offset read back the appended record, and
/// leaves every other offset's record as it was.
proof fn lemma_append_records(
    old_segs: Seq<Segment>,
    new_segs: Seq<Segment>,
    buf: Seq<u8>,
    r: Result<u64, LogError>,
    cfg: Config,
)
    requires
        old_segs.len() >= 1,
        forall|i: int| 0 <= i < old_segs.len() ==> (#[trigger] old_segs[i]).wf(),
        ordered(old_segs),
        all_consistent(old_segs),
        ({
            let a = old_segs.len() - 1;
            let s = new_segs[a];
            &&& append_post(old_segs[a], s, buf, r)
            &&& new_segs.subrange(0, a) == old_segs.subrange(0, a)
            &&& if r is Ok && maxed(s) {
                &&& new_segs.len() == old_segs.len() + 1
                &&& fresh(new_segs.last(), (r->Ok_0 + 1) as u64, cfg)
            } else {
                new_segs.len() == old_segs.len()
            }
        }),
    ensures
        ordered(new_segs),
        all_consistent(new_segs),
        r is Ok ==> record_of(new_segs, r->Ok_0) == Some(buf),
        forall|o: u64| !(r is Ok && o == r->Ok_0) ==> record_of(new_segs, o) == record_of(old_segs, o),
{
    let a = old_segs.len() - 1;
    let s0 = old_segs[a];
    let s1 = new_segs[a];
    s0.lemma_wf();
    assert forall|i: int| 0 <= i < a implies new_segs[i] == old_segs[i] by {
        assert(new_segs.subrange(0, a)[i] == old_segs.subrange(0, a)[i]);
    }
    assert(ordered(new_segs)) by {
        assert forall|i: int, j: int| 0 <= i < j < new_segs.len() implies #[trigger] new_segs[i].next()
            <= #[trigger] new_segs[j].base() by {
            if j < a {
                assert(old_segs[i].next() <= old_segs[j].base());
            } else if j == a {
                assert(old_segs[i].next() <= old_segs[a].base());
            } else {
                if i < a {
                    assert(old_segs[i].next() <= old_segs[a].base());
                }
            }
        }
    }
    assert(all_consistent(new_segs)) by {
        assert forall|i: int| 0 <= i < new_segs.len() implies #[trigger] new_segs[i].consistent() by {
            if i < a {
                assert(old_segs[i].consistent());
            } else if i == a {
                assert(old_segs[a].consistent());
            }
        }
    }
    assert(s0.consistent());
    assert forall|o: u64| !(r is Ok && o == r->Ok_0) implies record_of(new_segs, o) == record_of(
        old_segs,
        o,
    ) by {
        if exists|i: int| 0 <= i < old_segs.len() && holds(#[trigger] old_segs[i], o) {
            let i = choose|i: int| 0 <= i < old_segs.len() && holds(#[trigger] old_segs[i], o);
            lemma_record_of_holder(old_segs, i, o);
            if i < a {
                lemma_record_of_holder(new_segs, i, o);
            } else {
                lemma_record_of_holder(new_segs, a, o);
            }
        } else {
            assert forall|i: int| 0 <= i < new_segs.len() implies !holds(#[trigger] new_segs[i], o) by {
                if i < a {
                    assert(!holds(old_segs[i], o));
                } else if i == a {
                    assert(!holds(old_segs[a], o));
                }
            }
        }
    }
    if r is Ok {
        let off = r->Ok_0;
        lemma_record_of_holder(new_segs, a, off);
    }
}

/// A log: its segments, the last of which takes appends.
pub struct Log {
    active_index: usize,
    dir: PathBuf,
    cfg: Config,
    segments: Vec<Segment>,
}

impl Log {
    pub closed spec fn segs(&self) -> Seq<Segment> {
        self.segments@
    }

    pub closed spec fn active(&self) -> int {
        self.active_index as int
    }

    pub closed spec fn config(&self) -> Config {
        self.cfg
    }

    pub closed spec fn directory(&self) -> PathBuf {
        self.dir
    }

    /// The last segment takes appends (a log truncated below its first
    /// segment has none, and takes no appends); every segment is well formed
    /// and configured by the log.
    pub open spec fn wf(&self) -> bool {
        &&& self.active() == if self.segs().len() == 0 {
            0
        } else {
            self.segs().len() - 1
        }
        &&& config_ok(seg_config(self.config()))
        &&& forall|i: int| 0 <= i < self.segs().len() ==> (#[trigger] self.segs()[i]).wf()
            && self.segs()[i].config() == seg_config(self.config())
    }

    /// The log in directory `dir` whose segment files hold `stored`: one
    /// segment per entry, in the order given (`naming::segment_offsets` gives
    /// the base offsets in increasing order); a log with no segment starts
    /// with an empty one at the configured initial offset.
    pub fn new(cfg: Config, dir: PathBuf, stored: Vec<StoredSegment>) -> (log: Log)
        requires
            config_ok(seg_config(cfg)),
            forall|i: int| 0 <= i < stored@.len() ==> (#[trigger] stored@[i]).index@.len()
                <= cfg.max_size_bytes && stored@[i].base_offset + reopened_used(
                stored@[i].index@,
                cfg.max_size_bytes,
            ) / 12 <= u64::MAX,
        ensures
            log.wf(),
            log.config() == cfg,
            log.directory() == dir,
            stored@.len() == 0 ==> log.segs().len() == 1 && fresh(
                log.segs()[0],
                cfg.inital_offset,
                cfg,
            ) && ordered(log.segs()) && all_consistent(log.segs()),
            stored@.len() > 0 ==> reopened_from(log.segs(), stored@, cfg),
    {
        let ghost all = stored@;
        let n = stored.len();
        let mut rest = stored;
        let mut segments: Vec<Segment> = Vec::new();
        let mut i: usize = 0;
        while i < n
            invariant
                i <= n == all.len(),
                rest@ == all.subrange(i as int, n as int),
                segments@.len() == i,
                config_ok(seg_config(cfg)),
                forall|k: int| 0 <= k < all.len() ==> (#[trigger] all[k]).index@.len()
                    <= cfg.max_size_bytes && all[k].base_offset + reopened_used(
                    all[k].index@,
                    cfg.max_size_bytes,
                ) / 12 <= u64::MAX,
                forall|k: int| 0 <= k < i ==> {
                    &&& (#[trigger] segments@[k]).wf()
                    &&& segments@[k].config() == seg_config(cfg)
                    &&& segments@[k].base() == all[k].base_offset
                    &&& segments@[k].store_bytes() == all[k].store@
                    &&& segments@[k].next() == all[k].base_offset + segments@[k].index_used() / 12
                    &&& segments@[k].index_bytes() == reopened_region(all[k].index@, cfg.max_size_bytes)
                    &&& segments@[k].index_used() == reopened_used(all[k].index@, cfg.max_size_bytes)
                },
            decreases n - i,
        {
            let s = rest.remove(0);
            assert(s == all[i as int]);
            let seg = Segment::new(
                segment::Config {
                    max_index_bytes: cfg.max_size_bytes,
                    max_store_bytes: cfg.max_store_bytes,
                    sync_writes: cfg.sync_writes,
                },
                s.base_offset,
                s.store,
                s.index,
            );
            segments.push(seg);
            i = i + 1;
        }
        if segments.len() == 0 {
            segments.push(Self::new_segment(&cfg, cfg.inital_offset));
            assert(all_consistent(segments@)) by {
                assert(segments@[0].consistent());
            }
        }
        let active_index = segments.len() - 1;
        Log { active_index, dir, cfg, segments }
    }

    /// A new, empty segment at `off`.
    fn new_segment(cfg: &Config, off: u64) -> (s: Segment)
        requires
            config_ok(seg_config(*cfg)),
        ensures
            fresh(s, off, *cfg),
    {
        let s = Segment::new(
            segment::Config {
                max_index_bytes: cfg.max_size_bytes,
                max_store_bytes: cfg.max_store_bytes,
                sync_writes: cfg.sync_writes,
            },
            off,
            Vec::new(),
            Vec::new(),
        );
        s
    }

    /// Appends a record to the last segment and returns its offset; when that
    /// segment is then full, a new empty segment starts at the next offset.
    pub fn append(&mut self, buf: &[u8]) -> (r: Result<u64, LogError>)
        requires
            old(self).wf(),
            old(self).segs().len() >= 1,
            old(self).segs().last().store_bytes().len() + buf@.len() + LENGTH_WIDTH <= u64::MAX,
            old(self).segs().last().next() < u64::MAX,
        ensures
            final(self).wf(),
            final(self).config() == old(self).config(),
            final(self).directory() == old(self).directory(),
            ({
                let a = old(self).active();
                let s = final(self).segs()[a];
                &&& append_post(old(self).segs()[a], s, buf@, r)
                &&& final(self).segs().subrange(0, a) == old(self).segs().subrange(0, a)
                &&& if r is Ok && maxed(s) {
                    &&& final(self).segs().len() == old(self).segs().len() + 1
                    &&& fresh(final(self).segs().last(), (r->Ok_0 + 1) as u64, old(self).config())
                } else {
                    final(self).segs().len() == old(self).segs().len()
                }
            }),
            ordered(old(self).segs()) && all_consistent(old(self).segs()) ==> {
                &&& ordered(final(self).segs())
                &&& all_consistent(final(self).segs())
                &&& r is Ok ==> record_of(final(self).segs(), r->Ok_0) == Some(buf@)
                &&& forall|o: u64| !(r is Ok && o == r->Ok_0) ==> record_of(final(self).segs(), o)
                    == record_of(old(self).segs(), o)
            },
    {
        let ghost before = self.segments@;
        let mut seg = self.segments.pop().unwrap();
        let res = seg.append(buf);
        let maxed_now = seg.is_maxed();
        self.segments.push(seg);
        assert(self.segments@.subrange(0, before.len() - 1) == before.subrange(
            0,
            before.len() - 1,
        ));
        match res {
            Ok(off) => {
                if maxed_now {
                    let next = Self::new_segment(&self.cfg, off + 1);
                    self.segments.push(next);
                    self.active_index = self.segments.len() - 1;
                    assert(self.segments@.subrange(0, before.len() - 1) == before.subrange(
                        0,
                        before.len() - 1,
                    ));
                }
                proof {
                    if ordered(before) && all_consistent(before) {
                        lemma_append_records(before, self.segments@, buf@, res, self.cfg);
                    }
                }
                Ok(off)
            },
            Err(e) => {
                proof {
                    if ordered(before) && all_consistent(before) {
                        lemma_append_records(before, self.segments@, buf@, res, self.cfg);
                    }
                }
                Err(e)
            },
        }
    }

    /// Reads the record at offset `off` into `buf`, from the first segment
    /// that holds `off`.
    pub fn read(&self, off: u64, buf: &mut Vec<u8>) -> (r: Result<(), LogError>)
        requires
            self.wf(),
        ensures
            read_gives(self.segs(), off, old(buf)@, final(buf)@, r),
            r is Err ==> final(buf)@ == old(buf)@,
            ordered(self.segs()) && all_consistent(self.segs()) ==> match record_of(self.segs(), off) {
                Some(rec) => r is Ok && final(buf)@ == rec,
                None => r == Err::<(), LogError>(LogError::LogOutOfRange) && final(buf)@ == old(buf)@,
            },
    {
        reveal(read_gives);
        let mut cur: usize = 0;
        while cur < self.segments.len() && !self.segments[cur].is_in_range(off)
            invariant
                cur <= self.segs().len(),
                forall|j: int| 0 <= j < cur ==> !holds(#[trigger] self.segs()[j], off),
            decreases self.segs().len() - cur,
        {
            cur = cur + 1;
        }
        if cur >= self.segments.len() {
            return Err(LogError::LogOutOfRange);
        }
        let r = self.segments[cur].read(off, buf);
        proof {
            let segs = self.segs();
            assert(holds(segs[cur as int], off));
            if ordered(segs) && all_consistent(segs) {
                let k = choose|k: int| 0 <= k < segs.len() && holds(#[trigger] segs[k], off);
                if k < cur {
                    assert(!holds(segs[k], off));
                } else if k > cur {
                    assert(segs[cur as int].next() <= segs[k].base());
                }
                assert(segs[cur as int].consistent());
                assert(segs[cur as int].wf());
                lemma_consistent_read(segs[cur as int], off, old(buf)@, buf@, r);
            }
        }
        r
    }

    /// Reads the records at `first, first + 1, ..., through`, in that order,
    /// stopping at the first offset that cannot be read: the records read so
    /// far (each what `read` gives for its offset), and the error that `read`
    /// gave for the offset that stopped the reading, if any.
    #[verifier::rlimit(40)]
    pub fn read_range(&self, first: u64, through: u64) -> (r: (Vec<Vec<u8>>, Result<(), LogError>))
        requires
            self.wf(),
        ensures
            r.0@.len() <= range_len(first, through),
            r.1 is Ok <==> r.0@.len() == range_len(first, through),
            forall|k: int| 0 <= k < r.0@.len() ==> read_gives(
                self.segs(),
                (first + k) as u64,
                Seq::empty(),
                #[trigger] r.0@[k]@,
                Ok(()),
            ),
            r.1 is Err ==> read_gives(
                self.segs(),
                (first + r.0@.len()) as u64,
                Seq::empty(),
                Seq::empty(),
                r.1,
            ),
            ordered(self.segs()) && all_consistent(self.segs()) ==> {
                &&& forall|k: int| 0 <= k < r.0@.len() ==> record_of(self.segs(), (first + k) as u64)
                    == Some(#[trigger] r.0@[k]@)
                &&& r.1 is Err ==> r.1 == Err::<(), LogError>(LogError::LogOutOfRange) && record_of(
                    self.segs(),
                    (first + r.0@.len()) as u64,
                ) is None
            },
    {
        let mut out: Vec<Vec<u8>> = Vec::new();
        if first > through {
            return (out, Ok(()));
        }
        let mut i: u64 = first;
        loop
            invariant
                self.wf(),
                first <= i <= through,
                out@.len() == i - first,
                forall|k: int| 0 <= k < out@.len() ==> read_gives(
                    self.segs(),
                    (first + k) as u64,
                    Seq::empty(),
                    #[trigger] out@[k]@,
                    Ok(()),
                ),
                ordered(self.segs()) && all_consistent(self.segs()) ==> forall|k: int|
                    0 <= k < out@.len() ==> record_of(self.segs(), (first + k) as u64) == Some(
                        #[trigger] out@[k]@,
                    ),
            decreases through - i,
        {
            let mut buf: Vec<u8> = Vec::new();
            assert(buf@ == Seq::<u8>::empty());
            let read = self.read(i, &mut buf);
            assert((first + out@.len()) as u64 == i);
            match read {
                Ok(()) => {
                    let ghost prev = out@;
                    let ghost got = buf@;
                    // The unit payload makes the result `Ok(())` itself.
                    assert(read->Ok_0 == ());
                    out.push(buf);
                    assert forall|k: int| 0 <= k < out@.len() implies read_gives(
                        self.segs(),
                        (first + k) as u64,
                        Seq::empty(),
                        #[trigger] out@[k]@,
                        Ok(()),
                    ) by {
                        if k < prev.len() {
                            assert(out@[k] == prev[k]);
                        } else {
                            assert(out@[k]@ == got);
                            assert((first + k) as u64 == i);
                        }
                    }
                },
                Err(e) => {
                    return (out, Err(e));
                },
            }
            if i == through {
                return (out, Ok(()));
            }
            i = i + 1;
        }
    }

    /// The index extents a close leaves behind: for each segment, its base
    /// offset and how many index bytes hold entries (an index file is cut to
    /// that size on a clean close).
    pub fn close(&self) -> (r: Vec<(u64, u64)>)
        requires
            self.wf(),
        ensures
            r@.len() == self.segs().len(),
            forall|i: int| 0 <= i < self.segs().len() ==> #[trigger] r@[i] == (
                self.segs()[i].base(),
                self.segs()[i].index_used(),
            ),
    {
        let mut out: Vec<(u64, u64)> = Vec::new();
        let mut i: usize = 0;
        while i < self.segments.len()
            invariant
                self.wf(),
                i <= self.segs().len(),
                out@.len() == i,
                forall|k: int| 0 <= k < i ==> #[trigger] out@[k] == (
                    self.segs()[k].base(),
                    self.segs()[k].index_used(),
                ),
            decreases self.segs().len() - i,
        {
            out.push((self.segments[i].base_offset(), self.segments[i].index_len()));
            i = i + 1;
        }
        out
    }

    /// Removes the trailing segments that start after `off`; returns their
    /// base offsets, last first, so that their files can be deleted. An
    /// offset below the first segment removes every segment.
    pub fn truncate(&mut self, off: u64) -> (removed: Vec<u64>)
        requires
            old(self).wf(),
        ensures
            final(self).wf(),
            final(self).config() == old(self).config(),
            final(self).directory() == old(self).directory(),
            final(self).segs() == old(self).segs().subrange(
                0,
                kept_after_truncate(old(self).segs(), off) as int,
            ),
            removed@ == bases_from_end(
                old(self).segs(),
                kept_after_truncate(old(self).segs(), off) as int,
            ),
            ordered(old(self).segs()) ==> ordered(final(self).segs()),
            all_consistent(old(self).segs()) ==> all_consistent(final(self).segs()),
    {
        let ghost all = self.segments@;
        let mut removed: Vec<u64> = Vec::new();
        loop
            invariant
                self.wf(),
                self.config() == old(self).config(),
                self.directory() == old(self).directory(),
                all == old(self).segs(),
                self.segs().len() <= all.len(),
                self.segs() == all.subrange(0, self.segs().len() as int),
                kept_after_truncate(all, off) == kept_after_truncate(self.segs(), off),
                removed@ == bases_from_end(all, self.segs().len() as int),
            ensures
                kept_after_truncate(self.segs(), off) == self.segs().len(),
            decreases self.segs().len(),
        {
            if self.segments.len() == 0 {
                break;
            }
            let last = self.segments.len() - 1;
            assert(self.segs()[last as int] == all[last as int]);
            if !self.segments[last].is_lesser_than_range(off) {
                assert(kept_after_truncate(self.segs(), off) == self.segs().len());
                break;
            }
            proof {
                assert(self.segs().drop_last() == all.subrange(0, last as int));
                assert(bases_from_end(all, last as int) == bases_from_end(all, last + 1).push(
                    all[last as int].base(),
                ));
            }
            let seg = self.segments.pop().unwrap();
            removed.push(seg.base_offset());
            self.active_index = if self.active_index == 0 {
                0
            } else {
                self.active_index - 1
            };
        }
        proof {
            let n = self.segs().len() as int;
            assert forall|i: int| 0 <= i < n implies self.segs()[i] == all[i] by {}
        }
        removed
    }

    /// The offset the next appended record receives.
    pub fn next_offset(&self) -> (n: u64)
        requires
            self.wf(),
            self.segs().len() >= 1,
        ensures
            n == self.segs().last().next(),
    {
        self.segments[self.active_index].next_offset()
    }

    /// The directory of the log.
    pub fn dir(&self) -> (d: PathBuf)
        ensures
            d == self.directory(),
    {
        clone_path(&self.dir)
    }

    /// How many segments the log has.
    pub fn segment_count(&self) -> (n: usize)
        ensures
            n == self.segs().len(),
    {
        self.segments.len()
    }

    /// The position of the segment that takes appends.
    pub fn active_index(&self) -> (i: usize)
        ensures
            i == self.active(),
    {
        self.active_index
    }

    /// The `i`-th segment.
    pub fn segment(&self, i: usize) -> (s: &Segment)
        requires
            i < self.segs().len(),
        ensures
            *s == self.segs()[i as int],
    {
        &self.segments[i]
    }

    /// The configuration of the log.
    pub fn config_ref(&self) -> (c: &Config)
        ensures
            *c == self.config(),
    {
        &self.cfg
    }
}

} // verus!
