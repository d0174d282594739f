//! Deciding what on a card to ingest.
//!
//! The walk over the card's directories is the caller's; everything it finds is decided
//! here: which JPEGs are only a camera's preview of a RAW beside them, how a card's
//! contents are summarised, and which few files are worth reading a camera name from.
use vstd::prelude::*;
use crate::text::{
    chars_of, dec, dec_usize, digits_value, extend, extend_str, is_digit, is_digit_char,
    join, lower_seq, lower_vec, parse_digits, seq_eq, string_of, upper_seq, upper_vec, views,
};
use crate::ingest::{
    extension, extension_of_spec, extension_vec, file_name, file_name_vec, is_raw_ext,
    is_raw_extension, parent, parent_vec, slice_from, slice_to, stem, stem_vec,
};

verus! {

/// How many sample groups a camera name is read from, at most.
pub const MAX_CAMERA_SAMPLES: usize = 24;

/// One file that will be ingested.
#[derive(Debug, Clone, PartialEq, Eq)]
pub struct IngestFile {
    /// Path relative to the card root: the identity of the file everywhere downstream.
    pub rel_path: String,
    pub src_abs: String,
    pub size: u64,
    pub mtime: i64,
}

impl IngestFile {
    /// An identical copy.
    pub fn duplicate(&self) -> (r: IngestFile)
        ensures
            r == *self,
    {
        IngestFile {
            rel_path: self.rel_path.clone(),
            src_abs: self.src_abs.clone(),
            size: self.size,
            mtime: self.mtime,
        }
    }
}

/// What the scan chose not to ingest, so nothing disappears silently from a card that is
/// about to be formatted.
#[derive(Debug, Default, Clone, Copy, PartialEq, Eq, Structural)]
pub struct Skipped {
    /// JPEGs dropped because the same shot is present as a RAW.
    pub jpeg_with_raw: usize,
    /// Everything else: video, sidecars, firmware, index files.
    pub other: usize,
}

/// The sentence `describe` gives for a non-empty skip count.
pub open spec fn describe_text(jpeg_with_raw: nat, other: nat) -> Seq<char> {
    "skipped "@ + (if jpeg_with_raw > 0 {
        dec(jpeg_with_raw) + " JPEG with RAW"@
    } else {
        Seq::empty()
    }) + (if jpeg_with_raw > 0 && other > 0 {
        ", "@
    } else {
        Seq::empty()
    }) + (if other > 0 {
        dec(other) + " non-image"@
    } else {
        Seq::empty()
    })
}

impl Skipped {
    /// Human-readable summary, or `None` when nothing was skipped.
    pub fn describe(&self) -> (r: Option<String>)
        ensures
            (self.jpeg_with_raw == 0 && self.other == 0) ==> r is None,
            !(self.jpeg_with_raw == 0 && self.other == 0) ==> (r matches Some(t) && t@
                == describe_text(self.jpeg_with_raw as nat, self.other as nat)),
    {
        if self.jpeg_with_raw == 0 && self.other == 0 {
            return None;
        }
        let mut out: Vec<char> = Vec::new();
        extend_str(&mut out, "skipped ");
        if self.jpeg_with_raw > 0 {
            let d = dec_usize(self.jpeg_with_raw);
            extend(&mut out, &d);
            extend_str(&mut out, " JPEG with RAW");
        }
        if self.jpeg_with_raw > 0 && self.other > 0 {
            extend_str(&mut out, ", ");
        }
        if self.other > 0 {
            let d = dec_usize(self.other);
            extend(&mut out, &d);
            extend_str(&mut out, " non-image");
        }
        proof {
            let a: Seq<char> = if self.jpeg_with_raw > 0 {
                dec(self.jpeg_with_raw as nat) + " JPEG with RAW"@
            } else {
                Seq::empty()
            };
            let b: Seq<char> = if self.jpeg_with_raw > 0 && self.other > 0 {
                ", "@
            } else {
                Seq::empty()
            };
            let c: Seq<char> = if self.other > 0 {
                dec(self.other as nat) + " non-image"@
            } else {
                Seq::empty()
            };
            assert(out@ =~= "skipped "@ + a + b + c);
        }
        Some(string_of(&out))
    }
}

/// Everything the ingest screen needs to describe a card.
#[derive(Debug, Clone)]
pub struct CardScan {
    pub files: Vec<IngestFile>,
    /// Upper-case extension counts, commonest first, e.g. `[("NEF", 2120)]`.
    pub ext_counts: Vec<(String, usize)>,
    pub cameras: Vec<String>,
    pub skipped: Skipped,
}

/// One `count ext` piece of a contents summary.
pub open spec fn count_piece(e: (String, usize)) -> Seq<char> {
    dec(e.1 as nat) + seq![' '] + e.0@
}

impl CardScan {
    /// e.g. `2120 NEF, 17 CR2`.
    pub fn describe_contents(&self) -> (r: String)
        ensures
            r@ == join(self.ext_counts@.map_values(|e: (String, usize)| count_piece(e)), ", "@),
    {
        let mut pieces: Vec<Vec<char>> = Vec::new();
        let mut i: usize = 0;
        while i < self.ext_counts.len()
            invariant
                i <= self.ext_counts.len(),
                pieces.len() == i,
                forall|k: int| 0 <= k < i ==> #[trigger] pieces@[k]@ == count_piece(
                    self.ext_counts@[k],
                ),
            decreases self.ext_counts.len() - i,
        {
            let (ext, count) = &self.ext_counts[i];
            let mut p = dec_usize(*count);
            p.push(' ');
            let e = chars_of(ext.as_str());
            extend(&mut p, &e);
            pieces.push(p);
            i += 1;
        }
        assert(views(pieces@) =~= self.ext_counts@.map_values(
            |e: (String, usize)| count_piece(e),
        ));
        let sep = chars_of(", ");
        let j = crate::text::join_vec(&pieces, &sep);
        string_of(&j)
    }
}

// ---------------------------------------------------------------------------------------
// JPEGs shadowed by a RAW
// ---------------------------------------------------------------------------------------

/// The identity a RAW and its preview JPEG share: directory and lower-case stem.
pub open spec fn stem_key_spec(rel: Seq<char>) -> (Seq<char>, Seq<char>) {
    (parent(rel), lower_seq(stem(file_name(rel))))
}

/// Key of a file: its directory and its lower-cased stem.
pub fn stem_key(rel_path: &str) -> (r: (String, String))
    ensures
        (r.0@, r.1@) == stem_key_spec(rel_path@),
{
    let s = chars_of(rel_path);
    let p = parent_vec(&s);
    let n = file_name_vec(&s);
    let st = stem_vec(&n);
    let l = lower_vec(&st);
    (string_of(&p), string_of(&l))
}

pub open spec fn is_raw_path(rel: Seq<char>) -> bool {
    is_raw_ext(extension_of_spec(rel))
}

/// A JPEG (or any non-RAW) whose directory and stem match a RAW's in the same set.
pub open spec fn shadowed(files: Seq<IngestFile>, f: IngestFile) -> bool {
    !is_raw_path(f.rel_path@) && exists|j: int|
        0 <= j < files.len() && is_raw_path(files[j].rel_path@) && stem_key_spec(
            files[j].rel_path@,
        ) == stem_key_spec(f.rel_path@)
}

pub open spec fn key_ok(k: (Vec<char>, Vec<char>, bool), f: IngestFile) -> bool {
    (k.0@, k.1@) == stem_key_spec(f.rel_path@) && k.2 == is_raw_path(f.rel_path@)
}

fn key_parts(rel: &String) -> (r: (Vec<char>, Vec<char>, bool))
    ensures
        (r.0@, r.1@) == stem_key_spec(rel@),
        r.2 == is_raw_path(rel@),
{
    let s = chars_of(rel.as_str());
    let p = parent_vec(&s);
    let n = file_name_vec(&s);
    let st = stem_vec(&n);
    let l = lower_vec(&st);
    let ext = crate::ingest::extension_of(rel.as_str());
    let raw = is_raw_extension(ext.as_str());
    (p, l, raw)
}

/// Drop JPEGs that are only the camera's preview of a RAW beside them. Scoped to a single
/// directory: two folders may hold different shots under one name.
pub fn drop_jpegs_shadowed_by_raw(files: Vec<IngestFile>) -> (r: (Vec<IngestFile>, usize))
    ensures
        r.0@ == files@.filter(|f: IngestFile| !shadowed(files@, f)),
        r.1 == files@.len() - r.0@.len(),
{
    let mut keys: Vec<(Vec<char>, Vec<char>, bool)> = Vec::new();
    let mut i: usize = 0;
    while i < files.len()
        invariant
            i <= files.len(),
            keys.len() == i,
            forall|k: int| 0 <= k < i ==> key_ok(#[trigger] keys@[k], files@[k]),
        decreases files.len() - i,
    {
        keys.push(key_parts(&files[i].rel_path));
        i += 1;
    }
    let ghost all = files@;
    let ghost pred = |f: IngestFile| !shadowed(all, f);
    let mut kept: Vec<IngestFile> = Vec::new();
    let mut dropped: usize = 0;
    let mut i: usize = 0;
    while i < files.len()
        invariant
            i <= files.len(),
            all == files@,
            pred == (|f: IngestFile| !shadowed(all, f)),
            keys.len() == files.len(),
            forall|k: int| 0 <= k < files.len() ==> key_ok(#[trigger] keys@[k], files@[k]),
            kept@ == files@.take(i as int).filter(pred),
            dropped == i - kept@.len(),
        decreases files.len() - i,
    {
        let mut shadow = false;
        if !keys[i].2 {
            let mut j: usize = 0;
            while j < keys.len()
                invariant
                    i < files.len(),
                    j <= keys.len(),
                    keys.len() == files.len(),
                    forall|k: int| 0 <= k < files.len() ==> key_ok(#[trigger] keys@[k], files@[k]),
                    shadow == exists|m: int|
                        0 <= m < j && is_raw_path(files@[m].rel_path@) && stem_key_spec(
                            files@[m].rel_path@,
                        ) == stem_key_spec(files@[i as int].rel_path@),
                decreases keys.len() - j,
            {
                if keys[j].2 && seq_eq(&keys[j].0, &keys[i].0) && seq_eq(&keys[j].1, &keys[i].1) {
                    shadow = true;
                }
                proof {
                    assert(key_ok(keys@[j as int], files@[j as int]));
                    assert(key_ok(keys@[i as int], files@[i as int]));
                }
                j += 1;
            }
        }
        assert(key_ok(keys@[i as int], files@[i as int]));
        assert(shadow == shadowed(all, files@[i as int]));
        proof {
            assert(files@.take(i + 1) =~= files@.take(i as int).push(files@[i as int]));
            files@.take(i as int).lemma_filter_push(files@[i as int], pred);
            assert(pred(files@[i as int]) == !shadow);
        }
        if shadow {
            dropped += 1;
        } else {
            kept.push(files[i].duplicate());
        }
        i += 1;
    }
    assert(files@.take(files.len() as int) =~= files@);
    (kept, dropped)
}


// ---------------------------------------------------------------------------------------
// Camera samples
// ---------------------------------------------------------------------------------------

/// Index just past the last character that is not an ASCII digit (0 when there is none).
pub open spec fn digits_start(s: Seq<char>) -> int
    decreases s.len(),
{
    if s.len() == 0 {
        0
    } else if !is_digit(s.last()) {
        s.len() as int
    } else {
        digits_start(s.drop_last())
    }
}

/// The trailing digits of `s` can be split off at a character boundary: the character
/// before them, if any, is ASCII.
pub open spec fn splittable(s: Seq<char>) -> bool {
    digits_start(s) == 0 || (s[digits_start(s) - 1] as u32) < 128
}

/// `DSC03798` splits into (`dsc`, 3798); a name with no trailing digits, or more than
/// nineteen of them, gets number 0.
pub open spec fn split_spec(s: Seq<char>) -> (Seq<char>, nat) {
    let ds = digits_start(s);
    let digits = s.skip(ds);
    (
        lower_seq(s.take(ds)),
        if digits.len() == 0 || digits.len() > 19 {
            0
        } else {
            digits_value(digits)
        },
    )
}

proof fn lemma_digits_start(s: Seq<char>)
    ensures
        0 <= digits_start(s) <= s.len(),
        forall|k: int| digits_start(s) <= k < s.len() ==> is_digit(s[k]),
        digits_start(s) > 0 ==> !is_digit(s[digits_start(s) - 1]),
    decreases s.len(),
{
    if s.len() > 0 && is_digit(s.last()) {
        lemma_digits_start(s.drop_last());
        assert forall|k: int| digits_start(s) <= k < s.len() implies is_digit(s[k]) by {
            if k < s.len() - 1 {
                assert(s.drop_last()[k] == s[k]);
            }
        }
        if digits_start(s) > 0 {
            assert(s.drop_last()[digits_start(s) - 1] == s[digits_start(s) - 1]);
        }
    }
}

fn split_parts(s: &[char]) -> (r: (Vec<char>, u64))
    requires
        splittable(s@),
    ensures
        r.0@ == split_spec(s@).0,
        r.1 == split_spec(s@).1,
{
    let mut ds = s.len();
    assert(s@.take(s.len() as int) =~= s@);
    while ds > 0 && is_digit_char(s[ds - 1])
        invariant
            ds <= s.len(),
            digits_start(s@) == digits_start(s@.take(ds as int)),
        decreases ds,
    {
        assert(s@.take(ds as int).drop_last() =~= s@.take(ds - 1));
        ds -= 1;
    }
    proof {
        if ds > 0 {
            assert(s@.take(ds as int).last() == s@[ds - 1]);
        }
        lemma_digits_start(s@);
    }
    let head = slice_to(s, ds);
    let prefix = lower_vec(&head);
    let digits = slice_from(s, ds);
    let number = if digits.len() == 0 || digits.len() > 19 {
        0
    } else {
        parse_digits(&digits)
    };
    (prefix, number)
}

/// Whether a stem's frame number can be split off: see `splittable`.
pub fn can_split_sequence(stem: &str) -> (r: bool)
    ensures
        r == splittable(stem@),
{
    let s = chars_of(stem);
    let mut ds = s.len();
    assert(s@.take(s.len() as int) =~= s@);
    while ds > 0 && is_digit_char(s[ds - 1])
        invariant
            ds <= s.len(),
            digits_start(s@) == digits_start(s@.take(ds as int)),
        decreases ds,
    {
        assert(s@.take(ds as int).drop_last() =~= s@.take(ds - 1));
        ds -= 1;
    }
    proof {
        if ds > 0 {
            assert(s@.take(ds as int).last() == s@[ds - 1]);
        }
        lemma_digits_start(s@);
    }
    ds == 0 || (s[ds - 1] as u32) < 128
}

/// Whether every file's frame number can be split off, as sampling needs.
pub fn all_sample_names_splittable(files: &[IngestFile]) -> (r: bool)
    ensures
        r == all_splittable(files@),
{
    let mut i: usize = 0;
    while i < files.len()
        invariant
            i <= files.len(),
            forall|k: int| 0 <= k < i ==> splittable(#[trigger] stem(file_name(files@[k].rel_path@))),
        decreases files.len() - i,
    {
        let p = chars_of(files[i].rel_path.as_str());
        let n = file_name_vec(&p);
        let st = stem_vec(&n);
        let t = string_of(&st);
        if !can_split_sequence(t.as_str()) {
            return false;
        }
        i += 1;
    }
    true
}

/// Split a file stem into its lower-cased prefix and its frame number.
pub fn split_sequence(stem: &str) -> (r: (String, u64))
    requires
        splittable(stem@),
    ensures
        r.0@ == split_spec(stem@).0,
        r.1 == split_spec(stem@).1,
{
    let s = chars_of(stem);
    let (p, n) = split_parts(&s);
    (string_of(&p), n)
}

/// The group a file is sampled within: directory, name prefix, extension.
pub open spec fn sample_key(f: IngestFile) -> (Seq<char>, Seq<char>, Seq<char>) {
    let name = file_name(f.rel_path@);
    (parent(f.rel_path@), split_spec(stem(name)).0, lower_seq(extension(name)))
}

pub open spec fn sample_number(f: IngestFile) -> nat {
    split_spec(stem(file_name(f.rel_path@))).1
}

/// Whether file `i` starts a run of consecutive numbers within its group: no other file of
/// the group carries the number just before it, nor its own number at an earlier index.
pub open spec fn starts_run(files: Seq<IngestFile>, i: int) -> bool {
    !exists|j: int|
        0 <= j < files.len() && j != i && #[trigger] sample_key(files[j]) == sample_key(files[i])
            && ((sample_number(files[j]) == sample_number(files[i]) && j < i) || sample_number(
            files[j],
        ) + 1 == sample_number(files[i]))
}

/// The indices, in file order, of the files among the first `m` that start a run.
pub open spec fn run_starts(files: Seq<IngestFile>, m: int) -> Seq<int>
    decreases m,
{
    if m <= 0 {
        Seq::empty()
    } else if starts_run(files, m - 1) {
        run_starts(files, m - 1).push(m - 1)
    } else {
        run_starts(files, m - 1)
    }
}

/// Every file name can be split into prefix and number.
pub open spec fn all_splittable(files: Seq<IngestFile>) -> bool {
    forall|i: int| 0 <= i < files.len() ==> splittable(#[trigger] stem(file_name(files[i].rel_path@)))
}

pub open spec fn sample_spec(files: Seq<IngestFile>) -> Seq<int> {
    let all = run_starts(files, files.len() as int);
    if all.len() > MAX_CAMERA_SAMPLES {
        all.take(MAX_CAMERA_SAMPLES as int)
    } else {
        all
    }
}

pub open spec fn sample_ok(
    k: (Vec<char>, Vec<char>, Vec<char>, u64),
    f: IngestFile,
) -> bool {
    (k.0@, k.1@, k.2@) == sample_key(f) && k.3 == sample_number(f)
}

fn sample_parts(f: &IngestFile) -> (r: (Vec<char>, Vec<char>, Vec<char>, u64))
    requires
        splittable(stem(file_name(f.rel_path@))),
    ensures
        sample_ok(r, *f),
{
    let s = chars_of(f.rel_path.as_str());
    let name = file_name_vec(&s);
    let st = stem_vec(&name);
    let (prefix, number) = split_parts(&st);
    let e = extension_vec(&name);
    let ext = lower_vec(&e);
    let dir = parent_vec(&s);
    (dir, prefix, ext, number)
}

/// One representative file per run of consecutively numbered files sharing a directory,
/// name prefix and extension, in file order, at most [`MAX_CAMERA_SAMPLES`] of them.
pub fn sample_files(files: &[IngestFile]) -> (r: Vec<&IngestFile>)
    requires
        all_splittable(files@),
    ensures
        r@.len() == sample_spec(files@).len(),
        forall|k: int| 0 <= k < r@.len() ==> *r@[k] == files@[sample_spec(files@)[k]],
{
    let mut keys: Vec<(Vec<char>, Vec<char>, Vec<char>, u64)> = Vec::new();
    let mut i: usize = 0;
    while i < files.len()
        invariant
            i <= files.len(),
            all_splittable(files@),
            keys.len() == i,
            forall|k: int| 0 <= k < i ==> sample_ok(#[trigger] keys@[k], files@[k]),
        decreases files.len() - i,
    {
        assert(splittable(stem(file_name(files@[i as int].rel_path@))));
        keys.push(sample_parts(&files[i]));
        i += 1;
    }
    let mut starts: Vec<usize> = Vec::new();
    let mut i: usize = 0;
    while i < files.len()
        invariant
            i <= files.len(),
            keys.len() == files.len(),
            forall|k: int| 0 <= k < files.len() ==> sample_ok(#[trigger] keys@[k], files@[k]),
            starts@.map_values(|x: usize| x as int) == run_starts(files@, i as int),
            forall|k: int| 0 <= k < starts.len() ==> starts@[k] < i,
        decreases files.len() - i,
    {
        let mut first = true;
        let mut j: usize = 0;
        while j < keys.len()
            invariant
                i < files.len(),
                j <= keys.len(),
                keys.len() == files.len(),
                forall|k: int| 0 <= k < files.len() ==> sample_ok(#[trigger] keys@[k], files@[k]),
                first == !exists|m: int|
                    0 <= m < j && m != i && #[trigger] sample_key(files@[m]) == sample_key(
                        files@[i as int],
                    ) && ((sample_number(files@[m]) == sample_number(files@[i as int]) && m < i)
                        || sample_number(files@[m]) + 1 == sample_number(files@[i as int])),
            decreases keys.len() - j,
        {
            proof {
                assert(sample_ok(keys@[j as int], files@[j as int]));
                assert(sample_ok(keys@[i as int], files@[i as int]));
            }
            if j != i && seq_eq(&keys[j].0, &keys[i].0) && seq_eq(&keys[j].1, &keys[i].1)
                && seq_eq(&keys[j].2, &keys[i].2) {
                let nj = keys[j].3;
                let ni = keys[i].3;
                if (nj == ni && j < i) || (nj < ni && nj + 1 == ni) {
                    first = false;
                }
            }
            j += 1;
        }
        assert(first == starts_run(files@, i as int));
        if first {
            starts.push(i);
        }
        i += 1;
        assert(starts@.map_values(|x: usize| x as int) =~= run_starts(files@, i as int));
    }
    starts.truncate(MAX_CAMERA_SAMPLES);
    let ghost chosen = sample_spec(files@);
    assert(starts@.map_values(|x: usize| x as int) =~= chosen);
    let mut out: Vec<&IngestFile> = Vec::new();
    let mut k: usize = 0;
    while k < starts.len()
        invariant
            k <= starts.len(),
            starts@.map_values(|x: usize| x as int) == chosen,
            forall|m: int| 0 <= m < starts.len() ==> starts@[m] < files.len(),
            out@.len() == k,
            forall|m: int| 0 <= m < k ==> *out@[m] == files@[chosen[m]],
        decreases starts.len() - k,
    {
        assert(chosen[k as int] == starts@[k as int]);
        out.push(&files[starts[k]]);
        k += 1;
    }
    out
}

// ---------------------------------------------------------------------------------------
// The order files are ingested in
// ---------------------------------------------------------------------------------------

/// Path order: component by component, each compared as text, a path before any path it
/// is a prefix of.
pub open spec fn comps_lt(a: Seq<Seq<char>>, b: Seq<Seq<char>>) -> bool
    decreases a.len(),
{
    if a.len() == 0 {
        b.len() > 0
    } else if b.len() == 0 {
        false
    } else if a[0] != b[0] {
        crate::text::lex_lt(a[0], b[0])
    } else {
        comps_lt(a.drop_first(), b.drop_first())
    }
}

proof fn lemma_comps_order(a: Seq<Seq<char>>, b: Seq<Seq<char>>, c: Seq<Seq<char>>)
    ensures
        !comps_lt(a, a),
        comps_lt(a, b) ==> !comps_lt(b, a),
        a != b ==> comps_lt(a, b) || comps_lt(b, a),
        comps_lt(a, b) && comps_lt(b, c) ==> comps_lt(a, c),
    decreases a.len(),
{
    if a.len() > 0 {
        crate::text::lemma_lex_irreflexive(a[0]);
        if b.len() > 0 {
            crate::text::lemma_lex_asymmetric(a[0], b[0]);
            crate::text::lemma_lex_total(a[0], b[0]);
            if c.len() > 0 {
                crate::text::lemma_lex_transitive(a[0], b[0], c[0]);
                lemma_comps_order(a.drop_first(), b.drop_first(), c.drop_first());
            } else {
                lemma_comps_order(a.drop_first(), b.drop_first(), b.drop_first());
            }
            if a.drop_first() == b.drop_first() && a[0] == b[0] {
                assert(a =~= seq![a[0]] + a.drop_first());
                assert(b =~= seq![b[0]] + b.drop_first());
            }
        } else {
            lemma_comps_order(a.drop_first(), a.drop_first(), a.drop_first());
        }
    } else if b.len() == 0 {
        assert(a =~= b);
    }
}

/// The key files are ordered by: the components of their relative path.
pub open spec fn path_key(f: IngestFile) -> Seq<Seq<char>> {
    crate::status_text::components(f.rel_path@)
}

pub open spec fn path_insert_pos(s: Seq<IngestFile>, k: Seq<Seq<char>>) -> int
    decreases s.len(),
{
    if s.len() == 0 {
        0
    } else if comps_lt(k, path_key(s[0])) {
        0
    } else {
        1 + path_insert_pos(s.drop_first(), k)
    }
}

/// `s` stably sorted by path.
pub open spec fn sorted_by_path(s: Seq<IngestFile>) -> Seq<IngestFile>
    decreases s.len(),
{
    if s.len() == 0 {
        s
    } else {
        let t = sorted_by_path(s.drop_last());
        t.insert(path_insert_pos(t, path_key(s.last())), s.last())
    }
}

pub open spec fn path_sorted(s: Seq<IngestFile>) -> bool {
    forall|i: int, j: int| 0 <= i < j < s.len() ==> !comps_lt(#[trigger] path_key(s[j]), #[trigger] path_key(s[i]))
}

proof fn lemma_path_pos_unique(s: Seq<IngestFile>, k: Seq<Seq<char>>, j: int)
    requires
        0 <= j <= s.len(),
        forall|m: int| 0 <= m < j ==> !comps_lt(k, #[trigger] path_key(s[m])),
        j == s.len() || comps_lt(k, path_key(s[j])),
    ensures
        path_insert_pos(s, k) == j,
    decreases s.len(),
{
    if s.len() > 0 && j > 0 {
        let t = s.drop_first();
        assert forall|m: int| 0 <= m < j - 1 implies !comps_lt(k, #[trigger] path_key(t[m])) by {
            assert(t[m] == s[m + 1]);
        }
        if j < s.len() {
            assert(t[j - 1] == s[j]);
        }
        assert(!comps_lt(k, path_key(s[0])));
        lemma_path_pos_unique(t, k, j - 1);
    }
}

proof fn lemma_path_pos_bounds(s: Seq<IngestFile>, k: Seq<Seq<char>>)
    ensures
        0 <= path_insert_pos(s, k) <= s.len(),
        forall|m: int| 0 <= m < path_insert_pos(s, k) ==> !comps_lt(k, #[trigger] path_key(s[m])),
        path_insert_pos(s, k) < s.len() ==> comps_lt(k, path_key(s[path_insert_pos(s, k)])),
    decreases s.len(),
{
    if s.len() > 0 && !comps_lt(k, path_key(s[0])) {
        let t = s.drop_first();
        lemma_path_pos_bounds(t, k);
        assert forall|m: int| 0 <= m < path_insert_pos(s, k) implies !comps_lt(k, #[trigger] path_key(s[m])) by {
            if m > 0 {
                assert(s[m] == t[m - 1]);
            }
        }
        if path_insert_pos(s, k) < s.len() {
            assert(s[path_insert_pos(s, k)] == t[path_insert_pos(t, k)]);
        }
    }
}

/// The sorted files are in path order.
pub proof fn law_files_sorted_by_path(s: Seq<IngestFile>)
    ensures
        path_sorted(sorted_by_path(s)),
    decreases s.len(),
{
    if s.len() > 0 {
        let t = sorted_by_path(s.drop_last());
        law_files_sorted_by_path(s.drop_last());
        let x = s.last();
        let k = path_key(x);
        let p = path_insert_pos(t, k);
        lemma_path_pos_bounds(t, k);
        let r = t.insert(p, x);
        assert(r == sorted_by_path(s));
        assert forall|i: int, j: int| 0 <= i < j < r.len() implies !comps_lt(
            #[trigger] path_key(r[j]),
            #[trigger] path_key(r[i]),
        ) by {
            if j < p {
                assert(r[i] == t[i] && r[j] == t[j]);
            } else if j == p {
                assert(r[i] == t[i] && r[j] == x);
            } else if i < p {
                assert(r[i] == t[i] && r[j] == t[j - 1]);
                let ki = path_key(t[i]);
                let kp = path_key(t[p]);
                let kj = path_key(t[j - 1]);
                lemma_comps_order(k, kp, kj);
                lemma_comps_order(kj, kp, k);
                lemma_comps_order(kj, ki, k);
                lemma_comps_order(ki, k, kj);
                lemma_comps_order(k, kj, ki);
                lemma_comps_order(kj, k, kp);
                if j - 1 > p {
                    assert(!comps_lt(kj, kp));
                }
            } else if i == p {
                assert(r[i] == x && r[j] == t[j - 1]);
                let kp = path_key(t[p]);
                let kj = path_key(t[j - 1]);
                lemma_comps_order(k, kp, kj);
                lemma_comps_order(kj, k, kp);
                lemma_comps_order(kj, kp, k);
                if j - 1 > p {
                    assert(!comps_lt(kj, kp));
                }
            } else {
                assert(r[i] == t[i - 1] && r[j] == t[j - 1]);
            }
        }
    }
}

/// Sorting the files neither drops nor adds one.
pub proof fn law_file_sort_is_a_permutation(s: Seq<IngestFile>)
    ensures
        sorted_by_path(s).to_multiset() == s.to_multiset(),
    decreases s.len(),
{
    if s.len() > 0 {
        law_file_sort_is_a_permutation(s.drop_last());
        let t = sorted_by_path(s.drop_last());
        lemma_path_pos_bounds(t, path_key(s.last()));
        vstd::seq_lib::to_multiset_insert(t, path_insert_pos(t, path_key(s.last())), s.last());
        vstd::seq_lib::to_multiset_build(s.drop_last(), s.last());
        assert(s.drop_last().push(s.last()) =~= s);
    }
}

/// Files whose paths differ come out in strictly increasing path order.
pub proof fn law_distinct_paths_strictly_increase(s: Seq<IngestFile>)
    requires
        path_sorted(s),
        forall|i: int, j: int| 0 <= i < j < s.len() ==> path_key(s[i]) != path_key(s[j]),
    ensures
        forall|i: int, j: int| 0 <= i < j < s.len() ==> comps_lt(#[trigger] path_key(s[i]), #[trigger] path_key(s[j])),
{
    assert forall|i: int, j: int| 0 <= i < j < s.len() implies comps_lt(#[trigger] path_key(s[i]), #[trigger] path_key(s[j])) by {
        lemma_comps_order(path_key(s[i]), path_key(s[j]), path_key(s[j]));
    }
}

proof fn lemma_sorted_keys_distinct(orig: Seq<IngestFile>, i: int, j: int)
    requires
        forall|a: int, b: int| 0 <= a < b < orig.len() ==> path_key(orig[a]) != path_key(orig[b]),
        0 <= i < j < sorted_by_path(orig).len(),
    ensures
        path_key(sorted_by_path(orig)[i]) != path_key(sorted_by_path(orig)[j]),
{
    let r = sorted_by_path(orig);
    law_file_sort_is_a_permutation(orig);
    assert(orig.no_duplicates()) by {
        assert forall|a: int, b: int| 0 <= a < orig.len() && 0 <= b < orig.len() && a != b implies orig[a] != orig[b] by {
            if a < b {
                assert(path_key(orig[a]) != path_key(orig[b]));
            } else {
                assert(path_key(orig[b]) != path_key(orig[a]));
            }
        }
    }
    orig.lemma_multiset_has_no_duplicates();
    r.lemma_multiset_has_no_duplicates_conv();
    assert(r[i] != r[j]);
    vstd::seq_lib::to_multiset_contains(r, r[i]);
    vstd::seq_lib::to_multiset_contains(r, r[j]);
    vstd::seq_lib::to_multiset_contains(orig, r[i]);
    vstd::seq_lib::to_multiset_contains(orig, r[j]);
    assert(r.contains(r[i]));
    assert(r.contains(r[j]));
    let a = choose|a: int| 0 <= a < orig.len() && orig[a] == r[i];
    let b = choose|b: int| 0 <= b < orig.len() && orig[b] == r[j];
    assert(a != b);
    if a < b {
        assert(path_key(orig[a]) != path_key(orig[b]));
    } else {
        assert(path_key(orig[b]) != path_key(orig[a]));
    }
}

fn comps_less(a: &Vec<Vec<char>>, b: &Vec<Vec<char>>) -> (r: bool)
    ensures
        r == comps_lt(views(a@), views(b@)),
{
    let mut i: usize = 0;
    assert(views(a@).skip(0) =~= views(a@));
    assert(views(b@).skip(0) =~= views(b@));
    while i < a.len() && i < b.len()
        invariant
            i <= a.len(),
            i <= b.len(),
            forall|m: int| 0 <= m < i ==> a@[m]@ == b@[m]@,
            comps_lt(views(a@), views(b@)) == comps_lt(views(a@).skip(i as int), views(b@).skip(i as int)),
        decreases a.len() - i,
    {
        let ghost va = views(a@).skip(i as int);
        let ghost vb = views(b@).skip(i as int);
        assert(va[0] == a@[i as int]@ && vb[0] == b@[i as int]@);
        assert(va.drop_first() =~= views(a@).skip(i + 1));
        assert(vb.drop_first() =~= views(b@).skip(i + 1));
        if !seq_eq(&a[i], &b[i]) {
            return crate::text::lex_less(&a[i], &b[i]);
        }
        i += 1;
    }
    assert(views(a@).skip(i as int).len() == a.len() - i);
    assert(views(b@).skip(i as int).len() == b.len() - i);
    i == a.len() && i < b.len()
}

/// Puts the scanned files in path order: the order the grid draws them and the workers
/// take them. Files with equal paths keep the order given; none is dropped or added.
pub fn sort_by_rel_path(files: &mut Vec<IngestFile>)
    ensures
        final(files)@ == sorted_by_path(old(files)@),
        final(files)@.to_multiset() == old(files)@.to_multiset(),
        path_sorted(final(files)@),
        (forall|i: int, j: int| 0 <= i < j < old(files)@.len() ==> path_key(old(files)@[i]) != path_key(old(files)@[j]))
            ==> forall|i: int, j: int| 0 <= i < j < final(files)@.len() ==> comps_lt(
                #[trigger] path_key(final(files)@[i]),
                #[trigger] path_key(final(files)@[j]),
            ),
{
    let ghost orig = files@;
    let n = files.len();
    let mut keys: Vec<Vec<Vec<char>>> = Vec::new();
    let mut i: usize = 0;
    while i < n
        invariant
            n == files.len(),
            files@ == orig,
            i <= n,
            keys@.len() == i,
            forall|m: int| 0 <= m < i ==> views(#[trigger] keys@[m]@) == path_key(files@[m]),
        decreases n - i,
    {
        keys.push(crate::status_text::components_vec(files[i].rel_path.as_str()));
        i += 1;
    }
    i = 0;
    assert(files@.take(0) =~= sorted_by_path(orig.take(0)));
    while i < n
        invariant
            n == files.len() == keys@.len() == orig.len(),
            i <= n,
            files@.take(i as int) == sorted_by_path(orig.take(i as int)),
            files@.skip(i as int) == orig.skip(i as int),
            forall|m: int| 0 <= m < n ==> views(#[trigger] keys@[m]@) == path_key(files@[m]),
        decreases n - i,
    {
        let ghost before = files@;
        let ghost before_keys = keys@;
        let ghost t = before.take(i as int);
        proof {
            assert(orig.take(i + 1).drop_last() =~= orig.take(i as int));
            assert(orig.skip(i as int)[0] == orig[i as int]);
            assert(before.skip(i as int)[0] == before[i as int]);
            assert(orig.take(i + 1).last() == orig[i as int]);
        }
        let mut j: usize = 0;
        while j < i && !comps_less(&keys[i], &keys[j])
            invariant
                j <= i < n,
                n == keys@.len(),
                forall|m: int| 0 <= m < j ==> !comps_lt(views(keys@[i as int]@), #[trigger] views(keys@[m]@)),
            decreases i - j,
        {
            j += 1;
        }
        proof {
            assert forall|m: int| 0 <= m < j implies !comps_lt(
                path_key(before[i as int]),
                #[trigger] path_key(t[m]),
            ) by {
                assert(t[m] == before[m]);
                assert(views(keys@[m]@) == path_key(before[m]));
            }
            if j < i {
                assert(t[j as int] == before[j as int]);
                assert(views(keys@[j as int]@) == path_key(before[j as int]));
            }
            lemma_path_pos_unique(t, path_key(before[i as int]), j as int);
        }
        let a = files.remove(i);
        let k = keys.remove(i);
        files.insert(j, a);
        keys.insert(j, k);
        proof {
            assert(files@.take(i + 1) =~= t.insert(j as int, before[i as int]));
            assert(files@.skip(i + 1) =~= before.skip(i + 1));
            assert(before.skip(i + 1) =~= orig.skip(i + 1)) by {
                assert forall|m: int| 0 <= m < n - i - 1 implies #[trigger] before.skip(i + 1)[m]
                    == orig.skip(i + 1)[m] by {
                    assert(before.skip(i as int)[m + 1] == orig.skip(i as int)[m + 1]);
                }
            }
            assert forall|m: int| 0 <= m < n implies views(#[trigger] keys@[m]@) == path_key(files@[m]) by {
                if m < j {
                    assert(keys@[m] == before_keys[m] && files@[m] == before[m]);
                } else if m == j {
                } else if m <= i {
                    assert(keys@[m] == before_keys[m - 1] && files@[m] == before[m - 1]);
                } else {
                    assert(keys@[m] == before_keys[m] && files@[m] == before[m]);
                }
            }
        }
        i += 1;
    }
    assert(files@ =~= files@.take(n as int));
    assert(orig =~= orig.take(n as int));
    proof {
        law_files_sorted_by_path(orig);
        law_file_sort_is_a_permutation(orig);
        let r = files@;
        if forall|i: int, j: int| 0 <= i < j < orig.len() ==> path_key(orig[i]) != path_key(orig[j]) {
            assert forall|i: int, j: int| 0 <= i < j < r.len() implies path_key(r[i]) != path_key(r[j]) by {
                lemma_sorted_keys_distinct(orig, i, j);
            }
            law_distinct_paths_strictly_increase(r);
        }
    }
}

} // verus!
