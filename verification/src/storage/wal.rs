//! The write-ahead log's sequencing and replay.
//!
//! Each logged entry carries a sequence number, assigned when it is logged
//! and one greater than the previous one. On disk the log is a header line
//! with the format version followed by one line per entry. Replay keeps, in
//! order, the entries whose number exceeds the last checkpointed one.
use vstd::prelude::*;
use crate::metadata::Metadata;

verus! {

/// The log format version written in the header line.
pub const WAL_VERSION: u32 = 1;

/// One logged operation. Vector components are carried as the bit patterns
/// of their `f32` values.
#[derive(Debug)]
pub enum WalEntry {
    Insert { id: u128, vector: Vec<u32>, text: String, metadata: Metadata, seq: u64 },
    Update { id: u128, vector: Vec<u32>, text: String, metadata: Metadata, seq: u64 },
    Delete { id: u128, seq: u64 },
    Checkpoint { timestamp: u64, seq: u64 },
}

/// The sequence number that an entry carries.
pub open spec fn entry_seq(e: WalEntry) -> u64 {
    match e {
        WalEntry::Insert { seq, .. } => seq,
        WalEntry::Update { seq, .. } => seq,
        WalEntry::Delete { seq, .. } => seq,
        WalEntry::Checkpoint { seq, .. } => seq,
    }
}

/// The entry with its sequence number set to `s` and all else kept.
pub open spec fn with_seq(e: WalEntry, s: u64) -> WalEntry {
    match e {
        WalEntry::Insert { id, vector, text, metadata, .. } => WalEntry::Insert { id, vector, text, metadata, seq: s },
        WalEntry::Update { id, vector, text, metadata, .. } => WalEntry::Update { id, vector, text, metadata, seq: s },
        WalEntry::Delete { id, .. } => WalEntry::Delete { id, seq: s },
        WalEntry::Checkpoint { timestamp, .. } => WalEntry::Checkpoint { timestamp, seq: s },
    }
}

impl WalEntry {
    /// The entry's sequence number.
    pub fn seq(&self) -> (s: u64)
        ensures
            s == entry_seq(*self),
    {
        match self {
            WalEntry::Insert { seq, .. } => *seq,
            WalEntry::Update { seq, .. } => *seq,
            WalEntry::Delete { seq, .. } => *seq,
            WalEntry::Checkpoint { seq, .. } => *seq,
        }
    }

    /// Sets the entry's sequence number.
    pub fn set_seq(&mut self, s: u64)
        ensures
            *final(self) == with_seq(*old(self), s),
    {
        match self {
            WalEntry::Insert { seq, .. } => {
                *seq = s;
            },
            WalEntry::Update { seq, .. } => {
                *seq = s;
            },
            WalEntry::Delete { seq, .. } => {
                *seq = s;
            },
            WalEntry::Checkpoint { seq, .. } => {
                *seq = s;
            },
        }
    }
}

/// One line of a log file, as read back.
#[derive(Debug)]
pub enum WalLine {
    /// An empty line.
    Blank,
    /// A header line naming the format version.
    Header { version: u32 },
    /// A logged entry.
    Entry(WalEntry),
    /// A line that is neither a header nor an entry.
    Malformed,
    /// A line that could not be read.
    Unreadable,
}

/// Why a log could not be replayed.
#[derive(Debug, Clone, Copy, PartialEq, Eq)]
pub enum WalError {
    /// The header names a format version other than `WAL_VERSION`.
    UnsupportedVersion { found: u32 },
    /// A line is neither a header nor an entry.
    Malformed,
    /// A line could not be read.
    Unreadable,
}

/// The outcome of replaying `lines` past sequence number `min_seq`: the
/// entries numbered above `min_seq`, in order, or the first fault.
pub open spec fn replay_lines(lines: Seq<WalLine>, min_seq: u64) -> Result<Seq<WalEntry>, WalError>
    decreases lines.len(),
{
    if lines.len() == 0 {
        Ok(Seq::empty())
    } else {
        match replay_lines(lines.drop_last(), min_seq) {
            Err(e) => Err(e),
            Ok(es) => match lines.last() {
                WalLine::Blank => Ok(es),
                WalLine::Header { version } => if version == WAL_VERSION {
                    Ok(es)
                } else {
                    Err(WalError::UnsupportedVersion { found: version })
                },
                WalLine::Entry(e) => Ok(if entry_seq(e) > min_seq { es.push(e) } else { es }),
                WalLine::Malformed => Err(WalError::Malformed),
                WalLine::Unreadable => Err(WalError::Unreadable),
            },
        }
    }
}

/// The items of `v` in reverse order.
fn reversed<T>(v: Vec<T>) -> (r: Vec<T>)
    ensures
        r@ == v@.reverse(),
{
    let mut v = v;
    let ghost orig = v@;
    let mut r: Vec<T> = Vec::new();
    while v.len() > 0
        invariant
            v@.len() <= orig.len(),
            v@ == orig.subrange(0, v@.len() as int),
            r@ == orig.subrange(v@.len() as int, orig.len() as int).reverse(),
        decreases v@.len(),
    {
        let x = v.pop().unwrap();
        proof {
            assert(r@.push(x) =~= orig.subrange(v@.len() as int, orig.len() as int).reverse());
            assert(v@ =~= orig.subrange(0, v@.len() as int));
        }
        r.push(x);
    }
    proof {
        assert(orig.subrange(0, orig.len() as int) =~= orig);
    }
    r
}

/// The log's state: where it lives, whether it writes, and the number that
/// the next entry gets.
#[derive(Debug)]
pub struct Wal {
    /// The file that holds the log.
    pub path: String,
    /// Whether entries are written to the file.
    pub enabled: bool,
    /// The number that the next entry gets.
    pub next_seq: u64,
}

impl Wal {
    /// A log that writes to `path`, numbering from `next_seq`.
    pub fn new(path: String, next_seq: u64) -> (w: Wal)
        ensures
            w.path@ == path@,
            w.enabled,
            w.next_seq == next_seq,
    {
        Wal { path, enabled: true, next_seq }
    }

    /// A log that writes nothing but still numbers entries from `next_seq`.
    pub fn disabled(path: String, next_seq: u64) -> (w: Wal)
        ensures
            w.path@ == path@,
            !w.enabled,
            w.next_seq == next_seq,
    {
        Wal { path, enabled: false, next_seq }
    }

    /// The file that holds the log.
    pub fn path(&self) -> (p: &String)
        ensures
            p@ == self.path@,
    {
        &self.path
    }

    /// Whether entries are written to the file.
    pub fn is_enabled(&self) -> (b: bool)
        ensures
            b == self.enabled,
    {
        self.enabled
    }

    /// Gives `entry` the next sequence number; answers whether the entry must
    /// be written to the file. `advance` then moves the counter on.
    pub fn stamp(&self, entry: &mut WalEntry) -> (write: bool)
        ensures
            *final(entry) == with_seq(*old(entry), self.next_seq),
            write == self.enabled,
    {
        entry.set_seq(self.next_seq);
        self.enabled
    }

    /// Moves the sequence counter past the entry just logged.
    pub fn advance(&mut self)
        requires
            old(self).next_seq < u64::MAX,
        ensures
            final(self).next_seq == old(self).next_seq + 1,
            final(self).path@ == old(self).path@,
            final(self).enabled == old(self).enabled,
    {
        self.next_seq = self.next_seq + 1;
    }

    /// The checkpoint entry for `timestamp`, to be logged like any other.
    pub fn checkpoint_entry(&self, timestamp: u64) -> (e: WalEntry)
        ensures
            e == (WalEntry::Checkpoint { timestamp, seq: 0 }),
    {
        WalEntry::Checkpoint { timestamp, seq: 0 }
    }

    /// Whether a header line must be written to a log file of `file_len`
    /// bytes: only a writing log whose file is empty gets one.
    pub fn needs_header(&self, file_len: u64) -> (b: bool)
        ensures
            b == (self.enabled && file_len == 0),
    {
        self.enabled && file_len == 0
    }

    /// The entries to replay from the lines of the log file: those numbered
    /// above `min_seq`, in file order. A disabled log replays nothing.
    pub fn replay(&self, lines: Vec<WalLine>, min_seq: u64) -> (r: Result<Vec<WalEntry>, WalError>)
        ensures
            !self.enabled ==> (r matches Ok(es) && es@.len() == 0),
            self.enabled ==> match (r, replay_lines(lines@, min_seq)) {
                (Ok(es), Ok(want)) => es@ == want,
                (Err(e), Err(want)) => e == want,
                _ => false,
            },
    {
        if !self.enabled {
            return Ok(Vec::new());
        }
        let ghost all = lines@;
        let mut rest = reversed(lines);
        let mut out: Vec<WalEntry> = Vec::new();
        let ghost mut done: int = 0;
        while rest.len() > 0
            invariant
                self.enabled,
                all == lines@,
                0 <= done <= all.len(),
                rest@ == all.subrange(done, all.len() as int).reverse(),
                replay_lines(all.subrange(0, done), min_seq) == Ok::<Seq<WalEntry>, WalError>(out@),
            decreases rest@.len(),
        {
            let line = rest.pop().unwrap();
            proof {
                assert(line == all[done]);
                assert(all.subrange(0, done + 1).drop_last() =~= all.subrange(0, done));
                assert(all.subrange(0, done + 1).last() == all[done]);
            }
            match line {
                WalLine::Blank => {},
                WalLine::Header { version } => {
                    if version != WAL_VERSION {
                        proof {
                            lemma_replay_error_persists(all, done + 1, min_seq);
                        }
                        return Err(WalError::UnsupportedVersion { found: version });
                    }
                },
                WalLine::Entry(e) => {
                    if e.seq() > min_seq {
                        out.push(e);
                    }
                },
                WalLine::Malformed => {
                    proof {
                        lemma_replay_error_persists(all, done + 1, min_seq);
                    }
                    return Err(WalError::Malformed);
                },
                WalLine::Unreadable => {
                    proof {
                        lemma_replay_error_persists(all, done + 1, min_seq);
                    }
                    return Err(WalError::Unreadable);
                },
            }
            proof {
                done = done + 1;
                assert(rest@ =~= all.subrange(done, all.len() as int).reverse());
            }
        }
        proof {
            assert(all.subrange(0, done) =~= all);
        }
        Ok(out)
    }
}

/// The lines of a log file that holds a valid header and then `es`.
pub open spec fn written_lines(es: Seq<WalEntry>) -> Seq<WalLine> {
    seq![WalLine::Header { version: WAL_VERSION }] + es.map_values(|e: WalEntry| WalLine::Entry(e))
}

/// What is logged comes back: replaying a log file that holds a valid header
/// and then entries `es` gives exactly the entries numbered above `min_seq`,
/// in the order they were logged.
pub proof fn law_replay_returns_logged(es: Seq<WalEntry>, min_seq: u64)
    ensures
        replay_lines(written_lines(es), min_seq)
            == Ok::<Seq<WalEntry>, WalError>(es.filter(|e: WalEntry| entry_seq(e) > min_seq)),
    decreases es.len(),
{
    let p = |e: WalEntry| entry_seq(e) > min_seq;
    let lines = written_lines(es);
    if es.len() == 0 {
        assert(lines =~= seq![WalLine::Header { version: WAL_VERSION }]);
        assert(lines.drop_last() =~= Seq::<WalLine>::empty());
        assert(replay_lines(lines.drop_last(), min_seq) == Ok::<Seq<WalEntry>, WalError>(Seq::empty()));
        assert(replay_lines(lines, min_seq) == Ok::<Seq<WalEntry>, WalError>(Seq::empty()));
        assert(es.filter(p) =~= Seq::<WalEntry>::empty()) by {
            reveal(Seq::filter);
        }
    } else {
        let front = es.drop_last();
        law_replay_returns_logged(front, min_seq);
        assert(lines.drop_last() =~= written_lines(front));
        assert(lines.last() == WalLine::Entry(es.last()));
        assert(front.push(es.last()) =~= es);
        front.lemma_filter_push(es.last(), p);
        assert(replay_lines(lines, min_seq) == Ok::<Seq<WalEntry>, WalError>(es.filter(p)));
    }
}

/// A checkpoint hides what came before it: once the log has been replayed
/// past `min_seq`, no entry numbered `min_seq` or lower comes back.
pub proof fn law_replay_skips_checkpointed(lines: Seq<WalLine>, min_seq: u64)
    requires
        replay_lines(lines, min_seq) is Ok,
    ensures
        forall|i: int| 0 <= i < replay_lines(lines, min_seq)->Ok_0.len()
            ==> entry_seq(#[trigger] replay_lines(lines, min_seq)->Ok_0[i]) > min_seq,
    decreases lines.len(),
{
    if lines.len() > 0 {
        law_replay_skips_checkpointed(lines.drop_last(), min_seq);
    }
}

/// How many of `n` entries numbered from `start` on a replay past `min_seq`
/// skips: those numbered `min_seq` or lower.
pub open spec fn checkpointed_count(start: int, n: int, min_seq: int) -> int {
    if min_seq < start {
        0
    } else if min_seq - start + 1 > n {
        n
    } else {
        min_seq - start + 1
    }
}

proof fn lemma_filter_consecutive(es: Seq<WalEntry>, start: int, min_seq: u64)
    requires
        forall|i: int| 0 <= i < es.len() ==> entry_seq(#[trigger] es[i]) == start + i,
    ensures
        es.filter(|e: WalEntry| entry_seq(e) > min_seq) == es.skip(checkpointed_count(start, es.len() as int, min_seq as int)),
    decreases es.len(),
{
    let p = |e: WalEntry| entry_seq(e) > min_seq;
    let n = es.len() as int;
    if n == 0 {
        assert(es.filter(p) =~= Seq::<WalEntry>::empty()) by {
            reveal(Seq::filter);
        }
        assert(es.skip(0) =~= es);
    } else {
        let front = es.drop_last();
        assert forall|i: int| 0 <= i < front.len() implies entry_seq(#[trigger] front[i]) == start + i by {
            assert(front[i] == es[i]);
        }
        lemma_filter_consecutive(front, start, min_seq);
        assert(front.push(es.last()) =~= es);
        front.lemma_filter_push(es.last(), p);
        assert(entry_seq(es[n - 1]) == start + n - 1);
        let k0 = checkpointed_count(start, n - 1, min_seq as int);
        let k = checkpointed_count(start, n, min_seq as int);
        if entry_seq(es.last()) > min_seq {
            assert(k == k0);
            assert(front.skip(k0).push(es.last()) =~= es.skip(k));
        } else {
            assert(k == n);
            assert(k0 == n - 1);
            assert(front.skip(k0) =~= Seq::<WalEntry>::empty());
            assert(es.skip(k) =~= Seq::<WalEntry>::empty());
        }
    }
}

/// A checkpoint hides exactly what it covers: when the logged entries are
/// numbered one after another from `start` (as stamping and advancing
/// number them), replaying past `min_seq` gives back every entry numbered
/// above it, and no other, in the order they were logged.
pub proof fn law_replay_after_checkpoint(es: Seq<WalEntry>, start: int, min_seq: u64)
    requires
        forall|i: int| 0 <= i < es.len() ==> entry_seq(#[trigger] es[i]) == start + i,
    ensures
        replay_lines(written_lines(es), min_seq)
            == Ok::<Seq<WalEntry>, WalError>(es.skip(checkpointed_count(start, es.len() as int, min_seq as int))),
{
    law_replay_returns_logged(es, min_seq);
    lemma_filter_consecutive(es, start, min_seq);
}

/// Once a prefix of the lines fails to replay, the whole log fails with the
/// same fault.
proof fn lemma_replay_error_persists(lines: Seq<WalLine>, n: int, min_seq: u64)
    requires
        0 <= n <= lines.len(),
        replay_lines(lines.subrange(0, n), min_seq) is Err,
    ensures
        replay_lines(lines, min_seq) == replay_lines(lines.subrange(0, n), min_seq),
    decreases lines.len() - n,
{
    if n < lines.len() {
        assert(lines.subrange(0, n + 1).drop_last() =~= lines.subrange(0, n));
        lemma_replay_error_persists(lines, n + 1, min_seq);
    } else {
        assert(lines.subrange(0, n) =~= lines);
    }
}

} // verus!
