//! Statistics over the files of a listing.

use vstd::prelude::*;

verus! {

/// What the statistics read of a file's metadata: its size and its creation
/// and modification times (epoch microseconds).
#[derive(Debug, Clone, Copy, PartialEq, Eq, Structural)]
pub struct FileMeta {
    pub size: u64,
    pub created_epoch_us: i64,
    pub modified_epoch_us: i64,
}

/// Counts, total size and time ranges of the recorded files.
#[derive(Debug, Clone, Copy, PartialEq, Eq, Structural)]
pub struct FileListStats {
    pub number_of_files: usize,
    pub total_size: u64,
    pub ctime_first: Option<i64>,
    pub ctime_last: Option<i64>,
    pub mtime_first: Option<i64>,
    pub mtime_last: Option<i64>,
}

/// Statistics of no file.
pub open spec fn empty_stats() -> FileListStats {
    FileListStats {
        number_of_files: 0,
        total_size: 0,
        ctime_first: None,
        ctime_last: None,
        mtime_first: None,
        mtime_last: None,
    }
}

/// The smaller of a recorded time (if any) and `x`.
pub open spec fn earliest(o: Option<i64>, x: i64) -> Option<i64> {
    match o {
        Some(v) => Some(if v <= x { v } else { x }),
        None => Some(x),
    }
}

/// The larger of a recorded time (if any) and `x`.
pub open spec fn latest(o: Option<i64>, x: i64) -> Option<i64> {
    match o {
        Some(v) => Some(if v >= x { v } else { x }),
        None => Some(x),
    }
}

/// `s` after recording one more file.
pub open spec fn recorded(s: FileListStats, m: FileMeta) -> FileListStats {
    FileListStats {
        number_of_files: (s.number_of_files + 1) as usize,
        total_size: (s.total_size + m.size) as u64,
        ctime_first: earliest(s.ctime_first, m.created_epoch_us),
        ctime_last: latest(s.ctime_last, m.created_epoch_us),
        mtime_first: earliest(s.mtime_first, m.modified_epoch_us),
        mtime_last: latest(s.mtime_last, m.modified_epoch_us),
    }
}

/// The statistics of recording `ms` in order, from none.
pub open spec fn stats_of(ms: Seq<FileMeta>) -> FileListStats
    decreases ms.len(),
{
    if ms.len() == 0 {
        empty_stats()
    } else {
        recorded(stats_of(ms.drop_last()), ms.last())
    }
}

/// The total size of `ms`.
pub open spec fn total_size_of(ms: Seq<FileMeta>) -> nat
    decreases ms.len(),
{
    if ms.len() == 0 {
        0
    } else {
        total_size_of(ms.drop_last()) + ms.last().size as nat
    }
}

impl Default for FileListStats {
    fn default() -> (r: Self)
        ensures
            r == empty_stats(),
    {
        FileListStats {
            number_of_files: 0,
            total_size: 0,
            ctime_first: None,
            ctime_last: None,
            mtime_first: None,
            mtime_last: None,
        }
    }
}

/// The smaller of two times.
fn min_i64(a: i64, b: i64) -> (r: i64)
    ensures
        r == if a <= b { a } else { b },
{
    if a <= b {
        a
    } else {
        b
    }
}

/// The larger of two times.
fn max_i64(a: i64, b: i64) -> (r: i64)
    ensures
        r == if a >= b { a } else { b },
{
    if a >= b {
        a
    } else {
        b
    }
}

impl FileListStats {
    /// Records one file: one more file, its size added, and the time ranges
    /// widened to its times.
    pub fn record(&mut self, meta: &FileMeta)
        requires
            old(self).number_of_files < usize::MAX,
            old(self).total_size + meta.size <= u64::MAX,
        ensures
            *final(self) == recorded(*old(self), *meta),
    {
        self.number_of_files = self.number_of_files + 1;
        self.total_size = self.total_size + meta.size;
        let ct = meta.created_epoch_us;
        self.ctime_first = Some(
            match self.ctime_first {
                Some(v) => min_i64(v, ct),
                None => ct,
            },
        );
        self.ctime_last = Some(
            match self.ctime_last {
                Some(v) => max_i64(v, ct),
                None => ct,
            },
        );
        let mt = meta.modified_epoch_us;
        self.mtime_first = Some(
            match self.mtime_first {
                Some(v) => min_i64(v, mt),
                None => mt,
            },
        );
        self.mtime_last = Some(
            match self.mtime_last {
                Some(v) => max_i64(v, mt),
                None => mt,
            },
        );
    }
}

/// The total size of a prefix is no more than that of the whole.
proof fn lemma_total_size_prefix(ms: Seq<FileMeta>, k: int)
    requires
        0 <= k <= ms.len(),
    ensures
        total_size_of(ms.take(k)) <= total_size_of(ms),
    decreases ms.len() - k,
{
    if k < ms.len() {
        lemma_total_size_prefix(ms, k + 1);
        assert(ms.take(k + 1).drop_last() =~= ms.take(k));
    } else {
        assert(ms.take(k) =~= ms);
    }
}

/// Law: recording files counts them, sums their sizes, and keeps the
/// earliest and latest creation and modification times, each of which is
/// the time of one of the files.
pub proof fn law_stats_of(ms: Seq<FileMeta>)
    ensures
        stats_of(ms).number_of_files == ms.len() || ms.len() > usize::MAX,
        total_size_of(ms) <= u64::MAX ==> stats_of(ms).total_size == total_size_of(ms),
        ms.len() == 0 ==> stats_of(ms) == empty_stats(),
        ms.len() > 0 ==> {
            let s = stats_of(ms);
            &&& s.ctime_first matches Some(f) && (forall|k: int| 0 <= k < ms.len() ==> f <= #[trigger] ms[k].created_epoch_us)
                && (exists|k: int| 0 <= k < ms.len() && #[trigger] ms[k].created_epoch_us == f)
            &&& s.ctime_last matches Some(l) && (forall|k: int| 0 <= k < ms.len() ==> #[trigger] ms[k].created_epoch_us <= l)
                && (exists|k: int| 0 <= k < ms.len() && #[trigger] ms[k].created_epoch_us == l)
            &&& s.mtime_first matches Some(f) && (forall|k: int| 0 <= k < ms.len() ==> f <= #[trigger] ms[k].modified_epoch_us)
                && (exists|k: int| 0 <= k < ms.len() && #[trigger] ms[k].modified_epoch_us == f)
            &&& s.mtime_last matches Some(l) && (forall|k: int| 0 <= k < ms.len() ==> #[trigger] ms[k].modified_epoch_us <= l)
                && (exists|k: int| 0 <= k < ms.len() && #[trigger] ms[k].modified_epoch_us == l)
        },
    decreases ms.len(),
{
    if ms.len() > 0 {
        let p = ms.drop_last();
        law_stats_of(p);
        let m = ms.last();
        assert(ms[ms.len() - 1] == m);
        assert forall|k: int| 0 <= k < p.len() implies #[trigger] p[k] == ms[k] by {}
        if p.len() > 0 {
            let s = stats_of(p);
            let cf = s.ctime_first.unwrap();
            let kcf = choose|k: int| 0 <= k < p.len() && #[trigger] p[k].created_epoch_us == cf;
            assert(ms[kcf] == p[kcf]);
            let cl = s.ctime_last.unwrap();
            let kcl = choose|k: int| 0 <= k < p.len() && #[trigger] p[k].created_epoch_us == cl;
            assert(ms[kcl] == p[kcl]);
            let mf = s.mtime_first.unwrap();
            let kmf = choose|k: int| 0 <= k < p.len() && #[trigger] p[k].modified_epoch_us == mf;
            assert(ms[kmf] == p[kmf]);
            let ml = s.mtime_last.unwrap();
            let kml = choose|k: int| 0 <= k < p.len() && #[trigger] p[k].modified_epoch_us == ml;
            assert(ms[kml] == p[kml]);
            assert forall|k: int| 0 <= k < ms.len() implies cf <= #[trigger] ms[k].created_epoch_us || k == ms.len()
                - 1 by {
                if k < p.len() {
                    assert(p[k] == ms[k]);
                }
            }
            assert forall|k: int| 0 <= k < ms.len() implies #[trigger] ms[k].created_epoch_us <= cl || k == ms.len()
                - 1 by {
                if k < p.len() {
                    assert(p[k] == ms[k]);
                }
            }
            assert forall|k: int| 0 <= k < ms.len() implies mf <= #[trigger] ms[k].modified_epoch_us || k == ms.len()
                - 1 by {
                if k < p.len() {
                    assert(p[k] == ms[k]);
                }
            }
            assert forall|k: int| 0 <= k < ms.len() implies #[trigger] ms[k].modified_epoch_us <= ml || k == ms.len()
                - 1 by {
                if k < p.len() {
                    assert(p[k] == ms[k]);
                }
            }
        }
        if total_size_of(ms) <= u64::MAX {
            assert(total_size_of(p) <= total_size_of(ms));
        }
    }
}

/// The statistics of a listing's files, recorded in order.
pub fn compute_stats(metas: &[FileMeta]) -> (r: FileListStats)
    requires
        total_size_of(metas@) <= u64::MAX,
    ensures
        r == stats_of(metas@),
{
    let mut stats = FileListStats::default();
    let mut i: usize = 0;
    assert(metas@.take(0) =~= Seq::<FileMeta>::empty());
    while i < metas.len()
        invariant
            i <= metas@.len(),
            total_size_of(metas@) <= u64::MAX,
            stats == stats_of(metas@.take(i as int)),
            stats.number_of_files == i,
            stats.total_size == total_size_of(metas@.take(i as int)),
        decreases metas@.len() - i,
    {
        assert(metas@.take(i + 1).drop_last() =~= metas@.take(i as int));
        proof {
            lemma_total_size_prefix(metas@, i + 1);
        }
        stats.record(&metas[i]);
        i = i + 1;
    }
    assert(metas@.take(metas@.len() as int) =~= metas@);
    stats
}

} // verus!
