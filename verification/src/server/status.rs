//! The status reports that the API serves: collection descriptions, log
//! statistics and the readiness snapshot.
use vstd::prelude::*;
use vstd::string::*;
use crate::storage::metadata::CollectionMetadata;

verus! {

/// A collection as the API describes it.
#[derive(Debug)]
pub struct CollectionInfo {
    pub name: String,
    /// Number of stored vectors.
    pub count: usize,
    /// Unix time, in seconds, when the collection was created.
    pub created_at: Option<u64>,
    /// Unix time, in seconds, of the collection's last change.
    pub updated_at: Option<u64>,
    /// Dimension of the collection's vectors, once known.
    pub dimensions: Option<usize>,
}

impl CollectionInfo {
    /// Describes collection `name`, holding `count` vectors, from its
    /// metadata.
    pub fn describe(name: String, count: usize, meta: &CollectionMetadata) -> (info: CollectionInfo)
        ensures
            info.name == name,
            info.count == count,
            info.created_at == Some(meta.created_at),
            info.updated_at == Some(meta.updated_at),
            info.dimensions == meta.dimensions,
    {
        CollectionInfo {
            name,
            count,
            created_at: Some(meta.created_at),
            updated_at: Some(meta.updated_at),
            dimensions: meta.dimensions,
        }
    }
}

/// The described collections.
#[derive(Debug)]
pub struct CollectionsResponse {
    pub collections: Vec<CollectionInfo>,
}

/// How long ago, in seconds, a checkpoint taken at `last` was, at time
/// `now`: unknown without either reading, or when the clock reads earlier
/// than the checkpoint.
pub open spec fn checkpoint_age(last: Option<u64>, now: Option<u64>) -> Option<u64> {
    match (last, now) {
        (Some(ts), Some(n)) => if n >= ts { Some((n - ts) as u64) } else { None },
        _ => None,
    }
}

/// Computes `checkpoint_age`.
pub fn age_of_checkpoint(last: Option<u64>, now: Option<u64>) -> (age: Option<u64>)
    ensures
        age == checkpoint_age(last, now),
{
    match (last, now) {
        (Some(ts), Some(n)) => n.checked_sub(ts),
        _ => None,
    }
}

/// Write-ahead-log statistics of one collection.
#[derive(Debug)]
pub struct WalStats {
    /// The collection's data file.
    pub collection: String,
    /// Unix time, in seconds, of the last checkpoint, if any.
    pub last_checkpoint: Option<u64>,
    /// Seconds since the last checkpoint, when known.
    pub checkpoint_age_secs: Option<u64>,
    /// Size of the log file in bytes, when it could be read.
    pub wal_size_bytes: Option<u64>,
}

impl WalStats {
    /// The statistics of the log of `collection`, read at time `now`.
    pub fn snapshot(collection: String, last_checkpoint: Option<u64>, now: Option<u64>, wal_size_bytes: Option<u64>) -> (s: WalStats)
        ensures
            s.collection == collection,
            s.last_checkpoint == last_checkpoint,
            s.checkpoint_age_secs == checkpoint_age(last_checkpoint, now),
            s.wal_size_bytes == wal_size_bytes,
    {
        WalStats {
            collection,
            last_checkpoint,
            checkpoint_age_secs: age_of_checkpoint(last_checkpoint, now),
            wal_size_bytes,
        }
    }
}

/// What the metrics report reads of an open collection.
#[derive(Debug)]
pub struct CollectionStats {
    pub name: String,
    /// Number of stored vectors.
    pub count: usize,
    /// The kind of vector index in use.
    pub index_type: String,
    /// Memory the collection takes, in bytes.
    pub memory_usage_bytes: usize,
    /// The collection's data file.
    pub path: String,
    /// Unix time, in seconds, of the last checkpoint, if any.
    pub last_checkpoint: Option<u64>,
    /// Size of the log file in bytes, when it could be read.
    pub wal_size_bytes: Option<u64>,
}

/// The metrics of one collection.
#[derive(Debug)]
pub struct CollectionMetrics {
    pub name: String,
    pub vector_count: usize,
    pub index_type: String,
    pub memory_usage_bytes: usize,
}

/// The metrics report: totals, then each collection and its log.
#[derive(Debug)]
pub struct MetricsReport {
    pub total_collections: usize,
    pub total_vectors: usize,
    pub collections: Vec<CollectionMetrics>,
    pub wal_stats: Vec<WalStats>,
}

/// The number of vectors across `stats`.
pub open spec fn stats_total(stats: Seq<CollectionStats>) -> int
    decreases stats.len(),
{
    if stats.len() == 0 {
        0
    } else {
        stats_total(stats.drop_last()) + stats.last().count
    }
}

proof fn lemma_stats_total_prefix(stats: Seq<CollectionStats>, n: int)
    requires
        0 <= n <= stats.len(),
    ensures
        stats_total(stats.take(n)) <= stats_total(stats),
        n > 0 ==> stats_total(stats.take(n)) == stats_total(stats.take(n - 1)) + stats[n - 1].count,
    decreases stats.len() - n,
{
    if n > 0 {
        assert(stats.take(n).drop_last() =~= stats.take(n - 1));
    }
    if n < stats.len() {
        lemma_stats_total_prefix(stats, n + 1);
        assert(stats.take(n + 1).drop_last() =~= stats.take(n));
    } else {
        assert(stats.take(n) =~= stats);
    }
}

/// The metrics report at time `now`: each collection's name, count, index
/// kind and memory use, in the order given; each collection's log
/// statistics (named by its data file), with the age of its last
/// checkpoint; and the totals.
pub fn metrics_report(stats: Vec<CollectionStats>, now: Option<u64>) -> (r: MetricsReport)
    requires
        stats_total(stats@) <= usize::MAX,
    ensures
        r.total_collections == stats@.len(),
        r.total_vectors == stats_total(stats@),
        r.collections@.len() == stats@.len(),
        r.wal_stats@.len() == stats@.len(),
        forall|i: int| 0 <= i < stats@.len() ==> {
            &&& (#[trigger] r.collections@[i]).name == stats@[i].name
            &&& r.collections@[i].vector_count == stats@[i].count
            &&& r.collections@[i].index_type == stats@[i].index_type
            &&& r.collections@[i].memory_usage_bytes == stats@[i].memory_usage_bytes
        },
        forall|i: int| 0 <= i < stats@.len() ==> {
            &&& (#[trigger] r.wal_stats@[i]).collection == stats@[i].path
            &&& r.wal_stats@[i].last_checkpoint == stats@[i].last_checkpoint
            &&& r.wal_stats@[i].checkpoint_age_secs == checkpoint_age(stats@[i].last_checkpoint, now)
            &&& r.wal_stats@[i].wal_size_bytes == stats@[i].wal_size_bytes
        },
{
    let ghost orig = stats@;
    let n = stats.len();
    let mut rest = stats;
    let mut collections: Vec<CollectionMetrics> = Vec::new();
    let mut wal_stats: Vec<WalStats> = Vec::new();
    let mut total: usize = 0;
    let mut i: usize = 0;
    while rest.len() > 0
        invariant
            i <= orig.len(),
            n == orig.len(),
            rest@ == orig.skip(i as int),
            collections@.len() == i,
            wal_stats@.len() == i,
            total == stats_total(orig.take(i as int)),
            stats_total(orig) <= usize::MAX,
            forall|j: int| 0 <= j < i ==> {
                &&& (#[trigger] collections@[j]).name == orig[j].name
                &&& collections@[j].vector_count == orig[j].count
                &&& collections@[j].index_type == orig[j].index_type
                &&& collections@[j].memory_usage_bytes == orig[j].memory_usage_bytes
            },
            forall|j: int| 0 <= j < i ==> {
                &&& (#[trigger] wal_stats@[j]).collection == orig[j].path
                &&& wal_stats@[j].last_checkpoint == orig[j].last_checkpoint
                &&& wal_stats@[j].checkpoint_age_secs == checkpoint_age(orig[j].last_checkpoint, now)
                &&& wal_stats@[j].wal_size_bytes == orig[j].wal_size_bytes
            },
        decreases rest@.len(),
    {
        assert(i < orig.len());
        assert(rest@[0] == orig[i as int]);
        let c = rest.remove(0);
        proof {
            lemma_stats_total_prefix(orig, i + 1);
            assert(orig.skip(i + 1) =~= orig.skip(i as int).drop_first());
        }
        total = total + c.count;
        collections.push(CollectionMetrics {
            name: c.name,
            vector_count: c.count,
            index_type: c.index_type,
            memory_usage_bytes: c.memory_usage_bytes,
        });
        wal_stats.push(WalStats::snapshot(c.path, c.last_checkpoint, now, c.wal_size_bytes));
        i = i + 1;
    }
    proof {
        assert(orig.take(i as int) =~= orig);
    }
    MetricsReport { total_collections: n, total_vectors: total, collections, wal_stats }
}

/// What the readiness check reads of a loaded collection.
#[derive(Debug)]
pub struct LoadedCollection {
    pub name: String,
    /// Number of stored vectors.
    pub count: usize,
    /// The kind of vector index in use.
    pub index_type: String,
    /// Unix time, in seconds, of the last checkpoint, if any.
    pub last_checkpoint: Option<u64>,
    /// Size of the log file in bytes, when it could be read.
    pub wal_size_bytes: Option<u64>,
    /// Schema version of the collection's metadata.
    pub schema_version: u32,
}

/// The health of one collection in the readiness snapshot.
#[derive(Debug)]
pub struct CollectionHealth {
    pub name: String,
    /// Whether the collection is loaded.
    pub loaded: bool,
    pub count: Option<usize>,
    pub index_type: Option<String>,
    pub last_checkpoint: Option<u64>,
    pub checkpoint_age_secs: Option<u64>,
    pub wal_size_bytes: Option<u64>,
    pub schema_version: Option<u32>,
    /// Whether the collection could be read.
    pub integrity_ok: bool,
    /// Why the collection is not healthy, if it is not.
    pub error: Option<String>,
}

/// The readiness snapshot.
#[derive(Debug)]
pub struct ReadyzResponse {
    /// Whether every known collection is loaded and readable.
    pub ok: bool,
    pub version: String,
    pub data_dir: String,
    /// Collections reported, loaded or not.
    pub total_collections: usize,
    pub loaded_collections: usize,
    /// Vectors across the loaded collections.
    pub total_vectors: usize,
    pub disk_total_bytes: Option<u64>,
    pub disk_available_bytes: Option<u64>,
    pub collections: Vec<CollectionHealth>,
}

/// The number of vectors across `cs`.
pub open spec fn total_count(cs: Seq<LoadedCollection>) -> int
    decreases cs.len(),
{
    if cs.len() == 0 {
        0
    } else {
        total_count(cs.drop_last()) + cs.last().count
    }
}

/// The names, as texts, of `cs`.
pub open spec fn names_of(cs: Seq<LoadedCollection>) -> Seq<Seq<char>> {
    Seq::new(cs.len(), |i: int| cs[i].name@)
}

/// The collections found on disk that are not loaded, in the order found.
pub open spec fn unloaded_names(loaded: Seq<LoadedCollection>, on_disk: Seq<String>) -> Seq<String> {
    on_disk.filter(|n: String| !names_of(loaded).contains(n@))
}

/// The health that the snapshot reports for a loaded collection `c` at
/// time `now`.
pub open spec fn loaded_health(h: CollectionHealth, c: LoadedCollection, now: Option<u64>) -> bool {
    &&& h.name == c.name
    &&& h.loaded
    &&& h.count == Some(c.count)
    &&& h.index_type == Some(c.index_type)
    &&& h.last_checkpoint == c.last_checkpoint
    &&& h.checkpoint_age_secs == checkpoint_age(c.last_checkpoint, now)
    &&& h.wal_size_bytes == c.wal_size_bytes
    &&& h.schema_version == Some(c.schema_version)
    &&& h.integrity_ok
    &&& h.error is None
}

/// The health that the snapshot reports for a collection on disk that is
/// not loaded: nothing known, and the error "not loaded".
pub open spec fn unloaded_health(h: CollectionHealth, name: Seq<char>) -> bool {
    &&& h.name@ == name
    &&& !h.loaded
    &&& h.count is None
    &&& h.index_type is None
    &&& h.last_checkpoint is None
    &&& h.checkpoint_age_secs is None
    &&& h.wal_size_bytes is None
    &&& h.schema_version is None
    &&& !h.integrity_ok
    &&& h.error matches Some(e) && e@ == "not loaded"@
}

/// Whether `.db.` starts at position `i` of `s`.
pub open spec fn db_dot_at(s: Seq<char>, i: int) -> bool {
    &&& 0 <= i
    &&& i + 4 <= s.len()
    &&& s[i] == '.'
    &&& s[i + 1] == 'd'
    &&& s[i + 2] == 'b'
    &&& s[i + 3] == '.'
}

/// The collection that a data-directory file named `f` holds: a file
/// `<n>.db` with a non-empty stem `n` holds collection `n`, unless it is one
/// of the files kept beside a collection's data file (its log, index or
/// metadata: `<c>.db.wal.db` and the like), whose stem holds `.db.`. Other
/// files hold none.
pub open spec fn collection_of_file(f: Seq<char>) -> Option<Seq<char>> {
    let stem = f.subrange(0, f.len() - 3);
    if f.len() > 3 && f.subrange(f.len() - 3, f.len() as int) == ".db"@
        && !(exists|i: int| #[trigger] db_dot_at(stem, i)) {
        Some(stem)
    } else {
        None
    }
}

/// The collections that the files named `files` hold, in order.
pub open spec fn collections_in(files: Seq<String>) -> Seq<Seq<char>>
    decreases files.len(),
{
    if files.len() == 0 {
        Seq::empty()
    } else {
        let prev = collections_in(files.drop_last());
        match collection_of_file(files.last()@) {
            Some(n) => prev.push(n),
            None => prev,
        }
    }
}

/// The collection held by the file named `f`, if any.
fn collection_of(f: &str) -> (r: Option<String>)
    ensures
        r is Some <==> collection_of_file(f@) is Some,
        r matches Some(n) ==> collection_of_file(f@) == Some(n@),
{
    proof {
        reveal_strlit(".db");
    }
    let n = f.unicode_len();
    if n <= 3 {
        return None;
    }
    let c0 = f.get_char(n - 3);
    let c1 = f.get_char(n - 2);
    let c2 = f.get_char(n - 1);
    if !(c0 == '.' && c1 == 'd' && c2 == 'b') {
        proof {
            if f@.subrange(n - 3, n as int) == ".db"@ {
                assert(f@.subrange(n - 3, n as int)[0] == '.');
                assert(f@.subrange(n - 3, n as int)[1] == 'd');
                assert(f@.subrange(n - 3, n as int)[2] == 'b');
            }
        }
        return None;
    }
    assert(f@.subrange(n - 3, n as int) =~= ".db"@);
    let m = n - 3;
    let ghost stem = f@.subrange(0, m as int);
    let mut i: usize = 0;
    while i < m && m - i >= 4
        invariant
            m == n - 3,
            n == f@.len(),
            stem == f@.subrange(0, m as int),
            i <= m,
            forall|j: int| 0 <= j < i ==> !#[trigger] db_dot_at(stem, j),
        decreases m - i,
    {
        if f.get_char(i) == '.' && f.get_char(i + 1) == 'd' && f.get_char(i + 2) == 'b' && f.get_char(i + 3) == '.' {
            assert(db_dot_at(stem, i as int));
            return None;
        }
        i = i + 1;
    }
    assert forall|j: int| !#[trigger] db_dot_at(stem, j) by {
        if 0 <= j < i {
        }
    }
    Some(String::from_str(f.substring_char(0, m)))
}

/// The collections held by the files of a data directory, named `files`,
/// in order: each `<n>.db` whose stem is a valid collection name.
pub fn collection_names(files: &Vec<String>) -> (names: Vec<String>)
    ensures
        names@.len() == collections_in(files@).len(),
        forall|i: int| 0 <= i < names@.len() ==> (#[trigger] names@[i])@ == collections_in(files@)[i],
{
    let mut out: Vec<String> = Vec::new();
    let mut i: usize = 0;
    while i < files.len()
        invariant
            i <= files@.len(),
            out@.len() == collections_in(files@.take(i as int)).len(),
            forall|j: int| 0 <= j < out@.len() ==> (#[trigger] out@[j])@ == collections_in(files@.take(i as int))[j],
        decreases files@.len() - i,
    {
        proof {
            assert(files@.take(i + 1).drop_last() =~= files@.take(i as int));
            assert(files@.take(i + 1).last() == files@[i as int]);
        }
        match collection_of(files[i].as_str()) {
            Some(n) => out.push(n),
            None => {},
        }
        i = i + 1;
    }
    proof {
        assert(files@.take(i as int) =~= files@);
    }
    out
}

/// Whether a collection named `name` is among `cs`.
fn is_loaded(cs: &Vec<CollectionHealth>, upto: usize, name: &String) -> (r: bool)
    requires
        upto <= cs@.len(),
    ensures
        r == exists|i: int| 0 <= i < upto && (#[trigger] cs@[i]).name@ == name@,
{
    let mut i: usize = 0;
    while i < upto
        invariant
            i <= upto <= cs@.len(),
            forall|j: int| 0 <= j < i ==> (#[trigger] cs@[j]).name@ != name@,
        decreases upto - i,
    {
        if crate::search::params::same_text(cs[i].name.as_str(), name.as_str()) {
            return true;
        }
        i = i + 1;
    }
    false
}

/// The readiness snapshot: each loaded collection, in the order given, then
/// each collection found on disk (the names that `collection_names` gives)
/// that is not loaded. The server is ready when no collection is left
/// unloaded.
pub fn readiness(
    loaded: Vec<LoadedCollection>,
    on_disk: Vec<String>,
    now: Option<u64>,
    version: String,
    data_dir: String,
    disk_total_bytes: Option<u64>,
    disk_available_bytes: Option<u64>,
) -> (r: ReadyzResponse)
    requires
        total_count(loaded@) <= usize::MAX,
        loaded@.len() + on_disk@.len() <= usize::MAX,
    ensures
        ({
            let l = loaded@.len() as int;
            let unloaded = unloaded_names(loaded@, on_disk@);
            &&& r.collections@.len() == l + unloaded.len()
            &&& forall|i: int| 0 <= i < l ==> loaded_health(#[trigger] r.collections@[i], loaded@[i], now)
            &&& forall|j: int| 0 <= j < unloaded.len() ==> unloaded_health(#[trigger] r.collections@[l + j], unloaded[j]@)
            &&& r.ok == (unloaded.len() == 0)
            &&& r.total_collections == r.collections@.len()
            &&& r.loaded_collections == l
            &&& r.total_vectors == total_count(loaded@)
        }),
        r.version == version,
        r.data_dir == data_dir,
        r.disk_total_bytes == disk_total_bytes,
        r.disk_available_bytes == disk_available_bytes,
{
    let ghost orig = loaded@;
    let ghost disk = on_disk@;
    let n_loaded = loaded.len();
    let mut rest = loaded;
    let mut out: Vec<CollectionHealth> = Vec::new();
    let mut total: usize = 0;
    let mut i: usize = 0;
    while rest.len() > 0
        invariant
            i <= orig.len(),
            n_loaded == orig.len(),
            rest@ == orig.skip(i as int),
            out@.len() == i,
            total == total_count(orig.take(i as int)),
            total_count(orig) <= usize::MAX,
            forall|j: int| 0 <= j < i ==> loaded_health(#[trigger] out@[j], orig[j], now),
        decreases rest@.len(),
    {
        assert(i < orig.len());
        assert(rest@[0] == orig[i as int]);
        let c = rest.remove(0);
        proof {
            assert(orig.take(i + 1).drop_last() =~= orig.take(i as int));
            lemma_total_count_prefix(orig, i + 1);
            assert(orig.skip(i + 1) =~= orig.skip(i as int).drop_first());
        }
        total = total + c.count;
        out.push(CollectionHealth {
            name: c.name,
            loaded: true,
            count: Some(c.count),
            index_type: Some(c.index_type),
            last_checkpoint: c.last_checkpoint,
            checkpoint_age_secs: age_of_checkpoint(c.last_checkpoint, now),
            wal_size_bytes: c.wal_size_bytes,
            schema_version: Some(c.schema_version),
            integrity_ok: true,
            error: None,
        });
        i = i + 1;
    }
    proof {
        assert(orig.take(i as int) =~= orig);
    }
    let ghost pred = |n: String| !names_of(orig).contains(n@);
    let mut disk_rest = on_disk;
    let mut d: usize = 0;
    let mut ready = true;
    while disk_rest.len() > 0
        invariant
            n_loaded == orig.len(),
            d <= disk.len(),
            disk_rest@ == disk.skip(d as int),
            n_loaded + disk.len() <= usize::MAX,
            out@.len() == n_loaded + disk.take(d as int).filter(pred).len(),
            pred == (|n: String| !names_of(orig).contains(n@)),
            forall|j: int| 0 <= j < n_loaded ==> loaded_health(#[trigger] out@[j], orig[j], now),
            forall|j: int| 0 <= j < disk.take(d as int).filter(pred).len()
                ==> unloaded_health(#[trigger] out@[n_loaded + j], disk.take(d as int).filter(pred)[j]@),
            ready == (disk.take(d as int).filter(pred).len() == 0),
        decreases disk_rest@.len(),
    {
        assert(d < disk.len());
        assert(disk_rest@[0] == disk[d as int]);
        let name = disk_rest.remove(0);
        proof {
            assert(disk.take(d + 1) =~= disk.take(d as int).push(name));
            disk.take(d as int).lemma_filter_push(name, pred);
            assert(disk.skip(d + 1) =~= disk.skip(d as int).drop_first());
        }
        let found = is_loaded(&out, n_loaded, &name);
        proof {
            if found {
                let k = choose|k: int| 0 <= k < n_loaded && (#[trigger] out@[k]).name@ == name@;
                assert(loaded_health(out@[k], orig[k], now));
                assert(names_of(orig)[k] == name@);
                assert(names_of(orig).contains(name@));
            } else {
                assert forall|k: int| 0 <= k < names_of(orig).len() implies names_of(orig)[k] != name@ by {
                    assert(loaded_health(out@[k], orig[k], now));
                }
            }
        }
        if !found {
            let ghost before = out@;
            out.push(CollectionHealth {
                name,
                loaded: false,
                count: None,
                index_type: None,
                last_checkpoint: None,
                checkpoint_age_secs: None,
                wal_size_bytes: None,
                schema_version: None,
                integrity_ok: false,
                error: Some(String::from_str("not loaded")),
            });
            ready = false;
            proof {
                let f = disk.take(d + 1).filter(pred);
                assert forall|j: int| 0 <= j < f.len() implies unloaded_health(#[trigger] out@[n_loaded + j], f[j]@) by {
                    if j < f.len() - 1 {
                        assert(out@[n_loaded + j] == before[n_loaded + j]);
                    }
                }
            }
        }
        d = d + 1;
    }
    proof {
        assert(disk.take(d as int) =~= disk);
    }
    let count = out.len();
    ReadyzResponse {
        ok: ready,
        version,
        data_dir,
        total_collections: count,
        loaded_collections: n_loaded,
        total_vectors: total,
        disk_total_bytes,
        disk_available_bytes,
        collections: out,
    }
}

proof fn lemma_total_count_prefix(cs: Seq<LoadedCollection>, n: int)
    requires
        0 <= n <= cs.len(),
    ensures
        total_count(cs.take(n)) <= total_count(cs),
        n > 0 ==> total_count(cs.take(n)) == total_count(cs.take(n - 1)) + cs[n - 1].count,
    decreases cs.len() - n,
{
    if n > 0 {
        assert(cs.take(n).drop_last() =~= cs.take(n - 1));
    }
    if n < cs.len() {
        lemma_total_count_prefix(cs, n + 1);
        assert(cs.take(n + 1).drop_last() =~= cs.take(n));
    } else {
        assert(cs.take(n) =~= cs);
    }
}

} // verus!
