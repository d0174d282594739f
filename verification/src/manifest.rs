//! The per-card record of what has already been ingested and verified.
//!
//! The manifest records the BLAKE3 verified at copy time, so a re-run only has to confirm
//! that neither side of a copy has been touched since. Reading and writing it as JSON is the
//! caller's; what a record means for a file is decided here.
use vstd::prelude::*;
use crate::scan::IngestFile;
use crate::text::{chars_of, extend_str, string_of};
use crate::ingest::{path_join, path_join_str};

verus! {

/// Timestamps this close are the same time: FAT-family cards and the NAS round them.
pub const MTIME_TOLERANCE_SECS: i64 = 2;

/// Largest whole-hour timestamp shift still treated as a timezone artefact.
pub const MAX_TIMEZONE_SHIFT_SECS: i64 = 90000;

pub const MANIFEST_VERSION: u32 = 1;

/// What was recorded about one ingested file.
#[derive(Debug, Clone, PartialEq, Eq)]
pub struct Entry {
    pub src_size: u64,
    pub src_mtime: i64,
    pub dst_size: u64,
    pub dst_mtime: i64,
    /// BLAKE3 of the file, verified against the destination after copying.
    pub blake3: String,
    /// Thumbnail path relative to the card's ingest directory, if one could be made.
    pub thumb: Option<String>,
    pub camera: Option<String>,
}

impl Entry {
    /// An identical copy.
    pub fn duplicate(&self) -> (r: Entry)
        ensures
            r == *self,
    {
        Entry {
            src_size: self.src_size,
            src_mtime: self.src_mtime,
            dst_size: self.dst_size,
            dst_mtime: self.dst_mtime,
            blake3: self.blake3.clone(),
            thumb: match &self.thumb {
                Some(t) => Some(t.clone()),
                None => None,
            },
            camera: match &self.camera {
                Some(c) => Some(c.clone()),
                None => None,
            },
        }
    }
}

/// Whether a file still matches what the manifest says was ingested.
#[derive(Debug, Clone, Copy, PartialEq, Eq, Structural)]
pub enum Freshness {
    /// Both sides match what was recorded: skip it entirely.
    Current,
    /// Sizes match but a timestamp moved by a whole number of quarter hours: a timezone or
    /// DST artefact on a FAT-family card, confirmed by hashing the source.
    Recheck,
    /// Genuinely different, missing, or never ingested.
    Stale,
}

/// A card's manifest. Entries are keyed by relative path with forward slashes; no key
/// occurs twice.
#[derive(Debug, Clone)]
pub struct Manifest {
    pub version: u32,
    /// The card's opaque signature: what proves the folder belongs to the card.
    pub card_signature: String,
    pub card_name: String,
    pub entries: Vec<(String, Entry)>,
}

/// The entries as a map from key to record; a later entry for a key wins.
pub open spec fn entry_map(s: Seq<(String, Entry)>) -> Map<Seq<char>, Entry>
    decreases s.len(),
{
    if s.len() == 0 {
        Map::empty()
    } else {
        entry_map(s.drop_last()).insert(s.last().0@, s.last().1)
    }
}

pub open spec fn keys_unique(s: Seq<(String, Entry)>) -> bool {
    forall|i: int, j: int| 0 <= i < j < s.len() ==> s[i].0@ != s[j].0@
}

/// `\` becomes `/`, so a key reads the same whichever machine wrote it.
pub open spec fn key_spec(rel: Seq<char>) -> Seq<char> {
    rel.map_values(|c: char| if c == '\\' { '/' } else { c })
}

pub fn key_for(rel_path: &str) -> (r: String)
    ensures
        r@ == key_spec(rel_path@),
{
    let s = chars_of(rel_path);
    let mut out: Vec<char> = Vec::new();
    let mut i: usize = 0;
    while i < s.len()
        invariant
            i <= s.len(),
            out@ == key_spec(s@.take(i as int)),
        decreases s.len() - i,
    {
        let c = s[i];
        out.push(if c == '\\' { '/' } else { c });
        i += 1;
        assert(out@ =~= key_spec(s@.take(i as int)));
    }
    assert(s@.take(s.len() as int) =~= s@);
    string_of(&out)
}

/// `|a - b| <= 2`.
pub open spec fn within_tolerance_spec(a: int, b: int) -> bool {
    -MTIME_TOLERANCE_SECS <= a - b <= MTIME_TOLERANCE_SECS
}

pub open spec fn abs_diff(a: int, b: int) -> int {
    if a >= b {
        a - b
    } else {
        b - a
    }
}

/// A difference that is a whole number of quarter hours (give or take the usual two
/// seconds), non-zero and no more than 25 hours: a timezone reinterpretation, not an edit.
pub open spec fn timezone_shift_spec(a: int, b: int) -> bool {
    let delta = abs_diff(a, b);
    delta != 0 && delta <= MAX_TIMEZONE_SHIFT_SECS && (delta % 900 <= 2 || 900 - delta % 900 <= 2)
}

fn diff(a: i64, b: i64) -> (r: u64)
    ensures
        r == abs_diff(a as int, b as int),
{
    let d: i128 = if a >= b {
        a as i128 - b as i128
    } else {
        b as i128 - a as i128
    };
    d as u64
}

pub fn within_tolerance(a: i64, b: i64) -> (r: bool)
    ensures
        r == within_tolerance_spec(a as int, b as int),
{
    diff(a, b) <= MTIME_TOLERANCE_SECS as u64
}

pub fn is_timezone_shift(a: i64, b: i64) -> (r: bool)
    ensures
        r == timezone_shift_spec(a as int, b as int),
{
    let delta = diff(a, b);
    if delta == 0 || delta > MAX_TIMEZONE_SHIFT_SECS as u64 {
        return false;
    }
    let quarter: u64 = 900;
    let remainder = delta % quarter;
    remainder <= 2 || quarter - remainder <= 2
}

/// What the manifest decides for a file of `size` and `mtime` whose destination is `dst`.
pub open spec fn freshness_spec(
    m: Map<Seq<char>, Entry>,
    key: Seq<char>,
    size: u64,
    mtime: i64,
    dst: Option<(u64, i64)>,
) -> Freshness {
    if !m.contains_key(key) {
        Freshness::Stale
    } else {
        match dst {
            None => Freshness::Stale,
            Some((dst_size, dst_mtime)) => {
                let e = m[key];
                if e.src_size != size || e.dst_size != dst_size {
                    Freshness::Stale
                } else if !within_tolerance_spec(e.dst_mtime as int, dst_mtime as int) {
                    Freshness::Stale
                } else if within_tolerance_spec(e.src_mtime as int, mtime as int) {
                    Freshness::Current
                } else if timezone_shift_spec(e.src_mtime as int, mtime as int) {
                    Freshness::Recheck
                } else {
                    Freshness::Stale
                }
            },
        }
    }
}

proof fn lemma_map_last_wins(s: Seq<(String, Entry)>, i: int, k: Seq<char>)
    requires
        0 <= i < s.len(),
        s[i].0@ == k,
        forall|j: int| i < j < s.len() ==> s[j].0@ != k,
    ensures
        entry_map(s).contains_key(k),
        entry_map(s)[k] == s[i].1,
    decreases s.len(),
{
    if i < s.len() - 1 {
        lemma_map_last_wins(s.drop_last(), i, k);
    }
}

proof fn lemma_map_absent(s: Seq<(String, Entry)>, k: Seq<char>)
    requires
        forall|j: int| 0 <= j < s.len() ==> s[j].0@ != k,
    ensures
        !entry_map(s).contains_key(k),
    decreases s.len(),
{
    if s.len() > 0 {
        lemma_map_absent(s.drop_last(), k);
    }
}

proof fn lemma_map_update(s: Seq<(String, Entry)>, i: int, key: String, e: Entry)
    requires
        0 <= i < s.len(),
        s[i].0@ == key@,
        keys_unique(s),
    ensures
        entry_map(s.update(i, (key, e))) == entry_map(s).insert(key@, e),
    decreases s.len(),
{
    let t = s.update(i, (key, e));
    if i == s.len() - 1 {
        assert(t.drop_last() =~= s.drop_last());
        assert(entry_map(t) =~= entry_map(s).insert(key@, e));
    } else {
        assert(t.drop_last() =~= s.drop_last().update(i, (key, e)));
        lemma_map_update(s.drop_last(), i, key, e);
        assert(s.last().0@ != key@);
        assert(entry_map(t) =~= entry_map(s).insert(key@, e));
    }
}

/// Index of the entry keyed `key`, if any.
fn find_key(entries: &Vec<(String, Entry)>, key: &String) -> (r: Option<usize>)
    ensures
        match r {
            Some(i) => i < entries.len() && entries@[i as int].0@ == key@,
            None => forall|j: int| 0 <= j < entries.len() ==> entries@[j].0@ != key@,
        },
{
    let mut i: usize = 0;
    while i < entries.len()
        invariant
            i <= entries.len(),
            forall|j: int| 0 <= j < i ==> entries@[j].0@ != key@,
        decreases entries.len() - i,
    {
        if entries[i].0 == *key {
            return Some(i);
        }
        i += 1;
    }
    None
}

impl Manifest {
    pub open spec fn wf(&self) -> bool {
        keys_unique(self.entries@)
    }

    /// The entries as a map from key to record.
    pub open spec fn map(&self) -> Map<Seq<char>, Entry> {
        entry_map(self.entries@)
    }

    /// A manifest with no entries.
    pub fn new() -> (r: Manifest)
        ensures
            r.wf(),
            r.map() == Map::<Seq<char>, Entry>::empty(),
            r.version == MANIFEST_VERSION,
            r.card_signature@ == Seq::<char>::empty(),
            r.card_name@ == Seq::<char>::empty(),
    {
        Manifest {
            version: MANIFEST_VERSION,
            card_signature: String::new(),
            card_name: String::new(),
            entries: Vec::new(),
        }
    }

    /// Where a card's manifest lives inside its ingest folder.
    pub fn path_in(card_dir: &str) -> (r: String)
        ensures
            r@ == path_join(card_dir@, crate::ingest::MANIFEST_NAME@),
    {
        path_join_str(card_dir, crate::ingest::MANIFEST_NAME)
    }

    pub fn get(&self, rel_path: &str) -> (r: Option<&Entry>)
        requires
            self.wf(),
        ensures
            match r {
                Some(e) => self.map().contains_key(key_spec(rel_path@)) && *e == self.map()[key_spec(
                    rel_path@,
                )],
                None => !self.map().contains_key(key_spec(rel_path@)),
            },
    {
        let key = key_for(rel_path);
        match find_key(&self.entries, &key) {
            Some(i) => {
                proof {
                    lemma_map_last_wins(self.entries@, i as int, key@);
                }
                Some(&self.entries[i].1)
            },
            None => {
                proof {
                    lemma_map_absent(self.entries@, key@);
                }
                None
            },
        }
    }

    pub fn insert(&mut self, rel_path: &str, entry: Entry)
        requires
            old(self).wf(),
        ensures
            final(self).wf(),
            final(self).map() == old(self).map().insert(key_spec(rel_path@), entry),
            final(self).version == old(self).version,
            final(self).card_signature == old(self).card_signature,
            final(self).card_name == old(self).card_name,
    {
        let key = key_for(rel_path);
        match find_key(&self.entries, &key) {
            Some(i) => {
                proof {
                    lemma_map_update(self.entries@, i as int, key, entry);
                }
                self.entries.set(i, (key, entry));
            },
            None => {
                let ghost before = self.entries@;
                self.entries.push((key, entry));
                assert(self.entries@.drop_last() =~= before);
            },
        }
    }

    /// Decide whether `file` still needs work, given the destination's `(size, mtime)`, or
    /// `None` when it does not exist.
    pub fn freshness(&self, file: &IngestFile, dst: Option<(u64, i64)>) -> (r: Freshness)
        requires
            self.wf(),
        ensures
            r == freshness_spec(self.map(), key_spec(file.rel_path@), file.size, file.mtime, dst),
    {
        let entry = match self.get(file.rel_path.as_str()) {
            Some(e) => e,
            None => return Freshness::Stale,
        };
        let (dst_size, dst_mtime) = match dst {
            Some(d) => d,
            None => return Freshness::Stale,
        };
        if entry.src_size != file.size || entry.dst_size != dst_size {
            return Freshness::Stale;
        }
        if !within_tolerance(entry.dst_mtime, dst_mtime) {
            return Freshness::Stale;
        }
        if within_tolerance(entry.src_mtime, file.mtime) {
            return Freshness::Current;
        }
        if is_timezone_shift(entry.src_mtime, file.mtime) {
            return Freshness::Recheck;
        }
        Freshness::Stale
    }
}

/// `path` with `.bak` appended: where an atomic save leaves the previous version.
pub fn backup_path(path: &str) -> (r: String)
    ensures
        r@ == path@ + ".bak"@,
{
    let mut v = chars_of(path);
    extend_str(&mut v, ".bak");
    string_of(&v)
}

/// `path` with `.tmp` appended: where an atomic save writes before renaming.
pub fn temp_path(path: &str) -> (r: String)
    ensures
        r@ == path@ + ".tmp"@,
{
    let mut v = chars_of(path);
    extend_str(&mut v, ".tmp");
    string_of(&v)
}


/// A key reads the same whichever separator wrote it: keying a key changes nothing, and
/// two paths that differ only in their separators share a key.
pub proof fn law_keys_are_portable(a: Seq<char>, b: Seq<char>)
    ensures
        key_spec(key_spec(a)) == key_spec(a),
        a.len() == b.len() && (forall|i: int|
            0 <= i < a.len() ==> (a[i] == b[i] || (a[i] == '\\' && b[i] == '/') || (a[i] == '/' && b[i] == '\\')))
            ==> key_spec(a) == key_spec(b),
{
    assert(key_spec(key_spec(a)) =~= key_spec(a));
    if a.len() == b.len() && (forall|i: int|
        0 <= i < a.len() ==> (a[i] == b[i] || (a[i] == '\\' && b[i] == '/') || (a[i] == '/' && b[i] == '\\'))) {
        assert(key_spec(a) =~= key_spec(b));
    }
}

/// What the manifest records for a file is what it reads back, under either separator;
/// and a file recorded just as it was copied, untouched since on both sides, is current.
pub proof fn law_a_recorded_file_reads_back_and_is_current(
    m: Map<Seq<char>, Entry>,
    rel: Seq<char>,
    e: Entry,
    size: u64,
    mtime: i64,
)
    requires
        e.src_size == size,
        e.src_mtime == mtime,
    ensures
        m.insert(key_spec(rel), e)[key_spec(rel)] == e,
        freshness_spec(m.insert(key_spec(rel), e), key_spec(rel), size, mtime, Some((e.dst_size, e.dst_mtime)))
            == Freshness::Current,
{
}

} // verus!
