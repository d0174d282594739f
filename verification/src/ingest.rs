//! Memory-card ingest: which files are photographs, how their names and cameras read, and
//! where their thumbnails go.
//!
//! Paths are handled as text. A path component ends at either separator, `/` or `\`, and
//! the library joins components with `/`, which every platform it runs on accepts.
use vstd::prelude::*;
use crate::text::{chars_of, extend, extend_str, has_prefix, is_alpha, is_lower, is_lower_char, is_upper, is_upper_char, join, join_vec, lower, lower_seq, lower_vec, starts_with, str_eq, string_of, trim, trim_str, upper, upper_char, views, words, words_vec};

verus! {

/// The summary left at the root of an ingested card.
pub const CARD_LOG_NAME: &'static str = "phase_log.txt";

/// Per-card manifest, stored alongside the ingested files.
pub const MANIFEST_NAME: &'static str = ".phase-ingest.json";

/// Subdirectory of a card's ingest folder holding generated thumbnails.
pub const THUMBS_DIR: &'static str = "thumbs";

/// Directories a card walk never enters: what operating systems leave on removable media.
pub open spec fn skipped_dir_name(lowered: Seq<char>) -> bool {
    ||| lowered == "system volume information"@
    ||| lowered == "$recycle.bin"@
    ||| lowered == ".trashes"@
    ||| lowered == ".spotlight-v100"@
    ||| lowered == ".fseventsd"@
}

/// Whether a card walk skips a directory of this name (ASCII case ignored).
pub fn is_skipped_dir(name: &str) -> (r: bool)
    ensures
        r == skipped_dir_name(lower_seq(name@)),
{
    let n = chars_of(name);
    let l = lower_vec(&n);
    let t = string_of(&l);
    let x = t.as_str();
    str_eq(x, "system volume information") || str_eq(x, "$recycle.bin") || str_eq(x, ".trashes")
        || str_eq(x, ".spotlight-v100") || str_eq(x, ".fseventsd")
}

/// Whether a file on a card is the log a previous ingest left there (ASCII case
/// ignored): it is never ingested itself.
pub fn is_card_log(name: &str) -> (r: bool)
    ensures
        r == (lower_seq(name@) == lower_seq(CARD_LOG_NAME@)),
{
    let n = chars_of(name);
    let l = lower_vec(&n);
    let c = chars_of(CARD_LOG_NAME);
    let cl = lower_vec(&c);
    crate::text::seq_eq(&l, &cl)
}

/// Camera RAW formats.
pub open spec fn is_raw_ext(e: Seq<char>) -> bool {
    ||| e == "3fr"@ ||| e == "arw"@ ||| e == "cr2"@ ||| e == "cr3"@ ||| e == "crw"@
    ||| e == "dcr"@ ||| e == "dng"@ ||| e == "erf"@ ||| e == "iiq"@ ||| e == "kdc"@
    ||| e == "mef"@ ||| e == "mos"@ ||| e == "mrw"@ ||| e == "nef"@ ||| e == "nrw"@
    ||| e == "orf"@ ||| e == "pef"@ ||| e == "raf"@ ||| e == "raw"@ ||| e == "rw2"@
    ||| e == "rwl"@ ||| e == "sr2"@ ||| e == "srf"@ ||| e == "srw"@ ||| e == "x3f"@
}

/// Non-RAW stills worth ingesting. `bmp` is absent on purpose: cameras do not shoot it, but
/// Magic Lantern installs `.bmp` UI assets on the card.
pub open spec fn is_still_ext(e: Seq<char>) -> bool {
    ||| e == "jpg"@ ||| e == "jpeg"@ ||| e == "png"@ ||| e == "tif"@ ||| e == "tiff"@
    ||| e == "webp"@
}

pub fn is_raw_extension(ext: &str) -> (r: bool)
    ensures
        r == is_raw_ext(ext@),
{
    str_eq(ext, "3fr") || str_eq(ext, "arw") || str_eq(ext, "cr2") || str_eq(ext, "cr3")
        || str_eq(ext, "crw") || str_eq(ext, "dcr") || str_eq(ext, "dng") || str_eq(ext, "erf")
        || str_eq(ext, "iiq") || str_eq(ext, "kdc") || str_eq(ext, "mef") || str_eq(ext, "mos")
        || str_eq(ext, "mrw") || str_eq(ext, "nef") || str_eq(ext, "nrw") || str_eq(ext, "orf")
        || str_eq(ext, "pef") || str_eq(ext, "raf") || str_eq(ext, "raw") || str_eq(ext, "rw2")
        || str_eq(ext, "rwl") || str_eq(ext, "sr2") || str_eq(ext, "srf") || str_eq(ext, "srw")
        || str_eq(ext, "x3f")
}

pub fn is_still_extension(ext: &str) -> (r: bool)
    ensures
        r == is_still_ext(ext@),
{
    str_eq(ext, "jpg") || str_eq(ext, "jpeg") || str_eq(ext, "png") || str_eq(ext, "tif")
        || str_eq(ext, "tiff") || str_eq(ext, "webp")
}

/// Whether a file is something ingest should copy at all.
pub fn is_ingestable_extension(ext: &str) -> (r: bool)
    ensures
        r == (is_raw_ext(ext@) || is_still_ext(ext@)),
{
    is_raw_extension(ext) || is_still_extension(ext)
}

// ---------------------------------------------------------------------------------------
// Path text
// ---------------------------------------------------------------------------------------

pub open spec fn is_sep(c: char) -> bool {
    c == '/' || c == '\\'
}

/// Index just past the last separator, or 0 when there is none.
pub open spec fn name_start(s: Seq<char>) -> int
    decreases s.len(),
{
    if s.len() == 0 {
        0
    } else if is_sep(s.last()) {
        s.len() as int
    } else {
        name_start(s.drop_last())
    }
}

/// The last component of a path: the text after its last separator.
pub open spec fn file_name(s: Seq<char>) -> Seq<char> {
    s.skip(name_start(s))
}

/// Everything before the last separator; empty when there is none.
pub open spec fn parent(s: Seq<char>) -> Seq<char> {
    if name_start(s) == 0 {
        Seq::empty()
    } else {
        s.take(name_start(s) - 1)
    }
}

/// Index of the last `.` in `s`, or -1.
pub open spec fn last_dot(s: Seq<char>) -> int
    decreases s.len(),
{
    if s.len() == 0 {
        -1
    } else if s.last() == '.' {
        s.len() - 1
    } else {
        last_dot(s.drop_last())
    }
}

/// The extension of a file name: what follows its last dot, unless that dot starts it.
pub open spec fn extension(name: Seq<char>) -> Seq<char> {
    if last_dot(name) <= 0 {
        Seq::empty()
    } else {
        name.skip(last_dot(name) + 1)
    }
}

/// The name without its extension (and without the dot before it).
pub open spec fn stem(name: Seq<char>) -> Seq<char> {
    if last_dot(name) <= 0 {
        name
    } else {
        name.take(last_dot(name))
    }
}

proof fn lemma_name_start_bounds(s: Seq<char>)
    ensures
        0 <= name_start(s) <= s.len(),
        forall|k: int| name_start(s) <= k < s.len() ==> !is_sep(s[k]),
        name_start(s) > 0 ==> is_sep(s[name_start(s) - 1]),
    decreases s.len(),
{
    if s.len() > 0 && !is_sep(s.last()) {
        lemma_name_start_bounds(s.drop_last());
        assert forall|k: int| name_start(s) <= k < s.len() implies !is_sep(s[k]) by {
            if k < s.len() - 1 {
                assert(s.drop_last()[k] == s[k]);
            }
        }
        if name_start(s) > 0 {
            assert(s.drop_last()[name_start(s) - 1] == s[name_start(s) - 1]);
        }
    }
}

proof fn lemma_last_dot_bounds(s: Seq<char>)
    ensures
        -1 <= last_dot(s) < s.len(),
        last_dot(s) >= 0 ==> s[last_dot(s)] == '.',
        forall|k: int| last_dot(s) < k < s.len() ==> s[k] != '.',
    decreases s.len(),
{
    if s.len() > 0 && s.last() != '.' {
        lemma_last_dot_bounds(s.drop_last());
        assert forall|k: int| last_dot(s) < k < s.len() implies s[k] != '.' by {
            if k < s.len() - 1 {
                assert(s.drop_last()[k] == s[k]);
            }
        }
        if last_dot(s) >= 0 {
            assert(s.drop_last()[last_dot(s)] == s[last_dot(s)]);
        }
    }
}

/// `name_start` computed.
pub fn name_start_exec(s: &[char]) -> (r: usize)
    ensures
        r == name_start(s@),
{
    let mut i = s.len();
    assert(s@.take(s.len() as int) =~= s@);
    while i > 0 && !(s[i - 1] == '/' || s[i - 1] == '\\')
        invariant
            i <= s.len(),
            name_start(s@) == name_start(s@.take(i as int)),
        decreases i,
    {
        assert(s@.take(i as int).drop_last() =~= s@.take(i - 1));
        i -= 1;
    }
    proof {
        if i > 0 {
            assert(s@.take(i as int).last() == s@[i - 1]);
        }
    }
    assert(s@.take(s.len() as int) =~= s@);
    i
}

pub fn last_dot_exec(s: &[char]) -> (r: Option<usize>)
    ensures
        match r {
            Some(i) => last_dot(s@) == i,
            None => last_dot(s@) == -1,
        },
{
    let mut i = s.len();
    assert(s@.take(s.len() as int) =~= s@);
    while i > 0 && s[i - 1] != '.'
        invariant
            i <= s.len(),
            last_dot(s@) == last_dot(s@.take(i as int)),
        decreases i,
    {
        assert(s@.take(i as int).drop_last() =~= s@.take(i - 1));
        i -= 1;
    }
    if i == 0 {
        None
    } else {
        assert(s@.take(i as int).last() == s@[i - 1]);
        Some(i - 1)
    }
}

pub fn file_name_vec(s: &[char]) -> (r: Vec<char>)
    ensures
        r@ == file_name(s@),
{
    let start = name_start_exec(s);
    proof {
        lemma_name_start_bounds(s@);
    }
    slice_from(s, start)
}

pub fn parent_vec(s: &[char]) -> (r: Vec<char>)
    ensures
        r@ == parent(s@),
{
    let start = name_start_exec(s);
    proof {
        lemma_name_start_bounds(s@);
    }
    if start == 0 {
        Vec::new()
    } else {
        slice_to(s, start - 1)
    }
}

pub fn slice_from(s: &[char], start: usize) -> (r: Vec<char>)
    requires
        start <= s.len(),
    ensures
        r@ == s@.skip(start as int),
{
    let mut out: Vec<char> = Vec::new();
    let mut i = start;
    while i < s.len()
        invariant
            start <= i <= s.len(),
            out@ == s@.subrange(start as int, i as int),
        decreases s.len() - i,
    {
        out.push(s[i]);
        i += 1;
        assert(out@ =~= s@.subrange(start as int, i as int));
    }
    assert(out@ =~= s@.skip(start as int));
    out
}

pub fn slice_to(s: &[char], end: usize) -> (r: Vec<char>)
    requires
        end <= s.len(),
    ensures
        r@ == s@.take(end as int),
{
    let mut out: Vec<char> = Vec::new();
    let mut i: usize = 0;
    while i < end
        invariant
            i <= end <= s.len(),
            out@ == s@.take(i as int),
        decreases end - i,
    {
        out.push(s[i]);
        i += 1;
        assert(out@ =~= s@.take(i as int));
    }
    out
}

pub fn extension_vec(name: &[char]) -> (r: Vec<char>)
    ensures
        r@ == extension(name@),
{
    match last_dot_exec(name) {
        Some(d) => {
            if d == 0 {
                Vec::new()
            } else {
                proof {
                    lemma_last_dot_bounds(name@);
                }
                assert(d < name.len());
                slice_from(name, d + 1)
            }
        },
        None => Vec::new(),
    }
}

pub fn stem_vec(name: &[char]) -> (r: Vec<char>)
    ensures
        r@ == stem(name@),
{
    match last_dot_exec(name) {
        Some(d) => {
            if d == 0 {
                slice_to(name, name.len())
            } else {
                proof {
                    lemma_last_dot_bounds(name@);
                }
                slice_to(name, d)
            }
        },
        None => {
            let r = slice_to(name, name.len());
            assert(r@ =~= name@);
            r
        },
    }
}

/// Lowercased extension of a file's name, without the dot; empty when there is none.
pub open spec fn extension_of_spec(path: Seq<char>) -> Seq<char> {
    lower_seq(extension(file_name(path)))
}

pub fn extension_of(name: &str) -> (r: String)
    ensures
        r@ == extension_of_spec(name@),
{
    let s = chars_of(name);
    let f = file_name_vec(&s);
    let e = extension_vec(&f);
    let l = lower_vec(&e);
    string_of(&l)
}

/// `a` joined with `b` by `/`, as the library writes paths.
pub open spec fn path_join(a: Seq<char>, b: Seq<char>) -> Seq<char> {
    if a.len() == 0 {
        b
    } else if is_sep(a.last()) {
        a + b
    } else {
        a + seq!['/'] + b
    }
}

pub fn path_join_vec(a: &[char], b: &[char]) -> (r: Vec<char>)
    ensures
        r@ == path_join(a@, b@),
{
    let mut out = slice_to(a, a.len());
    assert(out@ =~= a@);
    if a.len() > 0 && !(a[a.len() - 1] == '/' || a[a.len() - 1] == '\\') {
        out.push('/');
    }
    extend(&mut out, b);
    out
}

pub fn path_join_str(a: &str, b: &str) -> (r: String)
    ensures
        r@ == path_join(a@, b@),
{
    let x = chars_of(a);
    let y = chars_of(b);
    let j = path_join_vec(&x, &y);
    string_of(&j)
}

/// A card as the library knows it: the parts of its fingerprint that name its folder.
#[derive(Debug, Clone, PartialEq, Eq)]
pub struct CardFingerprint {
    pub drive_letter: char,
    pub label: String,
    pub volume_serial: u32,
    pub fs_type: String,
    pub total_bytes: u64,
    /// Opaque identity of the card's filesystem.
    pub signature: String,
    /// A human-glanceable label such as `64GB_88c252`, not a unique key.
    pub friendly_name: String,
}

/// Where a card's files land: `{ingest_root}/{friendly_name}`.
pub fn card_dir(ingest_root: &str, card: &CardFingerprint) -> (r: String)
    ensures
        r@ == path_join(ingest_root@, card.friendly_name@),
{
    path_join_str(ingest_root, card.friendly_name.as_str())
}

/// The thumbnail path of an ingested file: its relative path mirrored under `thumbs/`, with
/// `.jpg` appended to (not replacing) the source extension, so `IMG_1.NEF` and `IMG_1.JPG`
/// never share a thumbnail.
pub open spec fn thumb_rel_spec(rel: Seq<char>) -> Seq<char> {
    path_join(path_join("thumbs"@, parent(rel)), file_name(rel) + ".jpg"@)
}

pub fn thumb_rel_path(rel_path: &str) -> (r: String)
    ensures
        r@ == thumb_rel_spec(rel_path@),
{
    let s = chars_of(rel_path);
    let p = parent_vec(&s);
    let mut name = file_name_vec(&s);
    extend_str(&mut name, ".jpg");
    let t = chars_of(THUMBS_DIR);
    let dir = path_join_vec(&t, &p);
    let j = path_join_vec(&dir, &name);
    string_of(&j)
}

// ---------------------------------------------------------------------------------------
// Camera names
// ---------------------------------------------------------------------------------------

/// Whether a word is SHOUTED prose worth title-casing: at least one upper-case letter, no
/// lower-case ones, only letters, and longer than three of them.
pub open spec fn shouted_prose(w: Seq<char>) -> bool {
    &&& exists|i: int| 0 <= i < w.len() && is_upper(w[i])
    &&& forall|i: int| 0 <= i < w.len() ==> !is_lower(w[i])
    &&& forall|i: int| 0 <= i < w.len() ==> is_alpha(w[i])
    &&& w.len() > 3
}

/// `ILCE-7R` and `600D` are model codes, `EOS` is short: only long, all-letter, shouted
/// words are softened, to their first letter followed by lower case.
pub open spec fn soften(w: Seq<char>) -> Seq<char> {
    if shouted_prose(w) {
        seq![upper(w[0])] + lower_seq(w.drop_first())
    } else {
        w
    }
}

pub fn soften_shouted_word(word: &[char]) -> (r: Vec<char>)
    ensures
        r@ == soften(word@),
{
    let mut any_upper = false;
    let mut any_lower = false;
    let mut all_alpha = true;
    let mut i: usize = 0;
    while i < word.len()
        invariant
            i <= word.len(),
            any_upper == exists|k: int| 0 <= k < i && is_upper(word@[k]),
            any_lower == exists|k: int| 0 <= k < i && is_lower(word@[k]),
            all_alpha == forall|k: int| 0 <= k < i ==> is_alpha(word@[k]),
        decreases word.len() - i,
    {
        let c = word[i];
        if is_upper_char(c) {
            any_upper = true;
        }
        if is_lower_char(c) {
            any_lower = true;
        }
        if !(is_upper_char(c) || is_lower_char(c)) {
            all_alpha = false;
        }
        i += 1;
    }
    if !any_upper || any_lower || !all_alpha || word.len() <= 3 {
        return slice_to(word, word.len());
    }
    let mut out: Vec<char> = Vec::new();
    out.push(upper_char(word[0]));
    let rest = slice_from(word, 1);
    let low = lower_vec(&rest);
    extend(&mut out, &low);
    assert(rest@ =~= word@.drop_first());
    out
}

/// How `format_camera` presents a make and model.
pub open spec fn camera_text(make: Seq<char>, model: Seq<char>) -> Seq<char> {
    let make = trim(make);
    let model = trim(model);
    let first = if words(make).len() > 0 {
        words(make)[0]
    } else {
        Seq::<char>::empty()
    };
    let combined = if model.len() == 0 {
        make
    } else if first.len() == 0 || starts_with(lower_seq(model), lower_seq(first)) {
        model
    } else {
        first + seq![' '] + model
    };
    join(words(combined).map_values(|w: Seq<char>| soften(w)), seq![' '])
}

/// Present a camera as a person would write it: drop a make the model already repeats,
/// and title-case shouted words while leaving model codes alone.
pub fn format_camera(make: &str, model: &str) -> (r: String)
    ensures
        r@ == camera_text(make@, model@),
{
    let tmake = trim_str(make);
    let tmodel = trim_str(model);
    let make_words = words_vec(&tmake);
    let first: Vec<char> = if make_words.len() > 0 {
        let w = &make_words[0];
        slice_to(w, w.len())
    } else {
        Vec::new()
    };
    assert(make_words.len() > 0 ==> first@ =~= make_words@[0]@);
    assert(make_words.len() > 0 ==> views(make_words@)[0] == make_words@[0]@);
    let combined: Vec<char> = if tmodel.len() == 0 {
        tmake
    } else {
        let lm = lower_vec(&tmodel);
        let lf = lower_vec(&first);
        if first.len() == 0 || has_prefix(&lm, &lf) {
            tmodel
        } else {
            let mut c = first;
            c.push(' ');
            extend(&mut c, &tmodel);
            c
        }
    };
    let parts = words_vec(&combined);
    let mut softened: Vec<Vec<char>> = Vec::new();
    let mut i: usize = 0;
    while i < parts.len()
        invariant
            i <= parts.len(),
            softened.len() == i,
            forall|k: int| 0 <= k < i ==> #[trigger] softened@[k]@ == soften(parts@[k]@),
        decreases parts.len() - i,
    {
        let s = soften_shouted_word(&parts[i]);
        softened.push(s);
        i += 1;
    }
    assert(views(softened@) =~= views(parts@).map_values(|w: Seq<char>| soften(w)));
    assert(views(parts@) == words(combined@));
    let sep: [char; 1] = [' '];
    assert(sep@ =~= seq![' ']);
    let joined = join_vec(&softened, &sep);
    proof {
        let mk = trim(make@);
        let md = trim(model@);
        let first_spec = if words(mk).len() > 0 {
            words(mk)[0]
        } else {
            Seq::<char>::empty()
        };
        assert(first@ == first_spec);
        let comb = if md.len() == 0 {
            mk
        } else if first_spec.len() == 0 || starts_with(lower_seq(md), lower_seq(first_spec)) {
            md
        } else {
            first_spec + seq![' '] + md
        };
        assert(combined@ == comb);
    }
    string_of(&joined)
}

/// Every camera RAW format the card ingest knows is recognised as RAW, and every RAW and
/// still format is ingestable.
pub proof fn law_camera_raw_formats_are_ingested(e: Seq<char>)
    ensures
        is_raw_ext("3fr"@) && is_raw_ext("arw"@) && is_raw_ext("cr2"@) && is_raw_ext("cr3"@) && is_raw_ext("crw"@),
        is_raw_ext("dcr"@) && is_raw_ext("dng"@) && is_raw_ext("erf"@) && is_raw_ext("iiq"@) && is_raw_ext("kdc"@),
        is_raw_ext("mef"@) && is_raw_ext("mos"@) && is_raw_ext("mrw"@) && is_raw_ext("nef"@) && is_raw_ext("nrw"@),
        is_raw_ext("orf"@) && is_raw_ext("pef"@) && is_raw_ext("raf"@) && is_raw_ext("raw"@) && is_raw_ext("rw2"@),
        is_raw_ext("rwl"@) && is_raw_ext("sr2"@) && is_raw_ext("srf"@) && is_raw_ext("srw"@) && is_raw_ext("x3f"@),
        is_still_ext("jpg"@) && is_still_ext("jpeg"@) && is_still_ext("png"@) && is_still_ext("tif"@)
            && is_still_ext("tiff"@) && is_still_ext("webp"@),
        is_raw_ext(e) ==> (is_raw_ext(e) || is_still_ext(e)),
{
}

} // verus!
