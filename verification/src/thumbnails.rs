//! Names and places of asset thumbnails and their cache.
use vstd::prelude::*;
use crate::asset::{asset_type_api, asset_type_label, AssetType, RowKey};
use crate::ingest::{extension, file_name, path_join, path_join_str};
use crate::text::{chars_of, contains_char, dec, dec_u64, extend, extend_str, str_eq, string_of};

verus! {

/// The file formats a cached thumbnail may be written in, in order of preference.
#[derive(Debug, Clone, Copy, PartialEq, Eq, Structural)]
pub enum ThumbnailFormat {
    WebP,
    Jpeg,
    Png,
}

pub open spec fn format_ext(f: ThumbnailFormat) -> Seq<char> {
    match f {
        ThumbnailFormat::WebP => "webp"@,
        ThumbnailFormat::Jpeg => "jpg"@,
        ThumbnailFormat::Png => "png"@,
    }
}

impl ThumbnailFormat {
    pub fn extension(self) -> (r: &'static str)
        ensures
            r@ == format_ext(self),
    {
        match self {
            ThumbnailFormat::WebP => "webp",
            ThumbnailFormat::Jpeg => "jpg",
            ThumbnailFormat::Png => "png",
        }
    }
}

/// What a cached thumbnail was made from: the asset and its source file's modification
/// time (Unix seconds) and size.
#[derive(Debug, Clone, PartialEq, Eq)]
pub struct ThumbnailSignature {
    pub asset_type: AssetType,
    pub slug: String,
    pub source_mtime: u64,
    pub source_size: u64,
}

/// `{mtime}-{size}.{ext}`: a new source gives a new name.
pub open spec fn cache_file_name(mtime: nat, size: nat, format: ThumbnailFormat) -> Seq<char> {
    dec(mtime) + "-"@ + dec(size) + "."@ + format_ext(format)
}

pub fn thumbnail_cache_file_name(signature: &ThumbnailSignature, format: ThumbnailFormat) -> (r: String)
    ensures
        r@ == cache_file_name(signature.source_mtime as nat, signature.source_size as nat, format),
{
    let mut v = dec_u64(signature.source_mtime);
    extend_str(&mut v, "-");
    let s = dec_u64(signature.source_size);
    extend(&mut v, &s);
    extend_str(&mut v, ".");
    extend_str(&mut v, format.extension());
    string_of(&v)
}

/// `{cache_root}/{type}/{slug}/{mtime}-{size}.{ext}`: each asset's thumbnails have a
/// directory of their own, under a directory for its type.
pub open spec fn cache_path_spec(cache_root: Seq<char>, signature: ThumbnailSignature, format: ThumbnailFormat) -> Seq<char> {
    path_join(
        path_join(path_join(cache_root, asset_type_api(signature.asset_type)), signature.slug@),
        cache_file_name(signature.source_mtime as nat, signature.source_size as nat, format),
    )
}

pub fn thumbnail_cache_path(cache_root: &str, signature: &ThumbnailSignature, format: ThumbnailFormat) -> (r: String)
    ensures
        r@ == cache_path_spec(cache_root@, *signature, format),
{
    let t = path_join_str(cache_root, signature.asset_type.cache_name());
    let d = path_join_str(t.as_str(), signature.slug.as_str());
    let name = thumbnail_cache_file_name(signature, format);
    path_join_str(d.as_str(), name.as_str())
}

/// Where an asset's thumbnail source lies under a root:
/// `{root}/{type folder}/{slug}/staging/renders/primary.png`.
pub open spec fn source_path_spec(root: Seq<char>, asset_folder: Seq<char>, slug: Seq<char>) -> Seq<char> {
    path_join(
        path_join(path_join(path_join(path_join(root, asset_folder), slug), "staging"@), "renders"@),
        "primary.png"@,
    )
}

pub fn source_path(root: &str, asset_folder: &str, slug: &str) -> (r: String)
    ensures
        r@ == source_path_spec(root@, asset_folder@, slug@),
{
    let a = path_join_str(root, asset_folder);
    let b = path_join_str(a.as_str(), slug);
    let c = path_join_str(b.as_str(), "staging");
    let d = path_join_str(c.as_str(), "renders");
    path_join_str(d.as_str(), "primary.png")
}

/// The thumbnail source to use: the local one when it is a file, else prod's when it is.
pub fn thumbnail_source_path_from_roots(
    local_root: &str,
    prod_root: &str,
    key: &RowKey,
    local_is_file: bool,
    prod_is_file: bool,
) -> (r: Option<String>)
    ensures
        local_is_file ==> r is Some && r->0@ == source_path_spec(local_root@, asset_type_label(key.asset_type), key.slug@),
        !local_is_file && prod_is_file ==> r is Some && r->0@ == source_path_spec(prod_root@, asset_type_label(key.asset_type), key.slug@),
        !local_is_file && !prod_is_file ==> r is None,
{
    if local_is_file {
        return Some(source_path(local_root, key.asset_type.folder(), key.slug.as_str()));
    }
    if prod_is_file {
        return Some(source_path(prod_root, key.asset_type.folder(), key.slug.as_str()));
    }
    None
}

/// Whether a file in the cache directory is a cached thumbnail: an image extension and a
/// `-` in its name.
pub open spec fn is_cache_file_spec(path: Seq<char>) -> bool {
    let ext = extension(file_name(path));
    (ext == "webp"@ || ext == "jpg"@ || ext == "jpeg"@ || ext == "png"@) && file_name(path).contains('-')
}

pub fn is_thumbnail_cache_file(path: &str) -> (r: bool)
    ensures
        r == is_cache_file_spec(path@),
{
    let p = chars_of(path);
    let name = crate::ingest::file_name_vec(&p);
    let ext = crate::ingest::extension_vec(&name);
    let e = string_of(&ext);
    let es = e.as_str();
    let image = str_eq(es, "webp") || str_eq(es, "jpg") || str_eq(es, "jpeg") || str_eq(es, "png");
    image && contains_char(&name, '-')
}

/// Two cached thumbnails of one format share a name only when their sources share their
/// modification time and size: a name records both in full.
pub proof fn law_cache_name_tells_signatures_apart(m1: nat, s1: nat, m2: nat, s2: nat, f: ThumbnailFormat)
    requires
        cache_file_name(m1, s1, f) == cache_file_name(m2, s2, f),
    ensures
        m1 == m2 && s1 == s2,
{
    reveal_strlit("-");
    reveal_strlit(".");
    crate::text::lemma_dec_no_dash(m1);
    crate::text::lemma_dec_no_dash(m2);
    crate::text::lemma_dec_no_dash(s1);
    crate::text::lemma_dec_no_dash(s2);
    crate::text::lemma_dec_nonempty(m1);
    crate::text::lemma_dec_nonempty(m2);
    let a = cache_file_name(m1, s1, f);
    let b = cache_file_name(m2, s2, f);
    let d1 = dec(m1);
    let d2 = dec(m2);
    if d1.len() != d2.len() {
        if d1.len() < d2.len() {
            assert(a[d1.len() as int] == '-');
            assert(b[d1.len() as int] == d2[d1.len() as int]);
        } else {
            assert(b[d2.len() as int] == '-');
            assert(a[d2.len() as int] == d1[d2.len() as int]);
        }
    }
    assert(d1 =~= a.subrange(0, d1.len() as int));
    assert(d2 =~= b.subrange(0, d2.len() as int));
    crate::text::lemma_dec_injective(m1, m2);
    let e1 = dec(s1);
    let e2 = dec(s2);
    let o = 1 + d1.len() as int;
    if e1.len() != e2.len() {
        if e1.len() < e2.len() {
            assert(a[o + e1.len() as int] == '.');
            assert(b[o + e1.len() as int] == e2[e1.len() as int]);
            crate::text::lemma_dec_digits(s2);
        } else {
            assert(b[o + e2.len() as int] == '.');
            assert(a[o + e2.len() as int] == e1[e2.len() as int]);
            crate::text::lemma_dec_digits(s1);
        }
    }
    assert(e1 =~= a.subrange(o, o + e1.len()));
    assert(e2 =~= b.subrange(o, o + e2.len()));
    crate::text::lemma_dec_injective(s1, s2);
}

// ---------------------------------------------------------------------------------------
// Pruning the cache
// ---------------------------------------------------------------------------------------

/// Cached thumbnails untouched for longer than this, in seconds (60 days), are removed.
pub const THUMBNAIL_CACHE_MAX_AGE_SECS: u64 = 5_184_000;

/// The oldest modification time, in Unix seconds, a cached thumbnail may have at `now`
/// and stay; the epoch when `now` is earlier than the maximum age.
pub open spec fn prune_cutoff(now: u64) -> u64 {
    if now >= THUMBNAIL_CACHE_MAX_AGE_SECS {
        (now - THUMBNAIL_CACHE_MAX_AGE_SECS) as u64
    } else {
        0
    }
}

/// Positions, in order, of the files to prune: thumbnail cache files modified before the
/// cutoff.
pub open spec fn prune_spec(files: Seq<(String, u64)>, now: u64, n: int) -> Seq<usize>
    decreases n,
{
    if n <= 0 {
        Seq::empty()
    } else if is_cache_file_spec(files[n - 1].0@) && files[n - 1].1 < prune_cutoff(now) {
        prune_spec(files, now, n - 1).push((n - 1) as usize)
    } else {
        prune_spec(files, now, n - 1)
    }
}

/// Which of the files found under the cache (each with its modification time in Unix
/// seconds) a prune at `now` removes: the thumbnail cache files older than 60 days. The
/// caller walks the cache, removes them and counts them.
pub fn prune_positions(files: &Vec<(String, u64)>, now: u64) -> (r: Vec<usize>)
    ensures
        r@ == prune_spec(files@, now, files@.len() as int),
{
    let cutoff = if now >= THUMBNAIL_CACHE_MAX_AGE_SECS {
        now - THUMBNAIL_CACHE_MAX_AGE_SECS
    } else {
        0
    };
    let mut out: Vec<usize> = Vec::new();
    let mut i: usize = 0;
    while i < files.len()
        invariant
            i <= files.len(),
            cutoff == prune_cutoff(now),
            out@ == prune_spec(files@, now, i as int),
        decreases files.len() - i,
    {
        if files[i].1 < cutoff && is_thumbnail_cache_file(files[i].0.as_str()) {
            out.push(i);
        }
        i += 1;
    }
    out
}

} // verus!
