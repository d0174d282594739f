//! Thumbnail rendering for ingested files: which decoder a file goes to, the size it is
//! scaled to, and how the camera is named.
use vstd::prelude::*;
use crate::ingest::{extension_of_spec, is_raw_ext};
use crate::text::{string_of, trim, trim_str};

verus! {

/// A rendered thumbnail: its JPEG bytes and the camera that took the photo, if known.
#[derive(Debug, Clone)]
pub struct Rendered {
    pub jpeg: Vec<u8>,
    pub camera: Option<String>,
}

/// Fitting `(w, h)` inside a `max_edge` box: the longer side becomes `max_edge` and the
/// other is scaled down with it (rounding down, at least one pixel); an image already
/// inside the box is left as it is, and a degenerate one becomes one pixel.
pub open spec fn fit_spec(w: nat, h: nat, max_edge: nat) -> (nat, nat) {
    if w == 0 || h == 0 || max_edge == 0 {
        (1, 1)
    } else if w <= max_edge && h <= max_edge {
        (w, h)
    } else if w >= h {
        (max_edge, if h * max_edge / w >= 1 { h * max_edge / w } else { 1 })
    } else {
        (if w * max_edge / h >= 1 { w * max_edge / h } else { 1 }, max_edge)
    }
}

fn scale(value: u32, max_edge: u32, from: u32) -> (r: u32)
    requires
        from > 0,
        value <= from,
    ensures
        r == (if value as nat * max_edge as nat / from as nat >= 1 {
            value as nat * max_edge as nat / from as nat
        } else {
            1
        }),
{
    assert(value as u64 * max_edge as u64 <= 0xffff_ffffu64 * 0xffff_ffffu64) by (nonlinear_arith)
        requires
            value <= 0xffff_ffffu32,
            max_edge <= 0xffff_ffffu32,
    ;
    let p = value as u64 * max_edge as u64;
    let q = p / from as u64;
    proof {
        assert(value as nat * max_edge as nat <= from as nat * max_edge as nat) by (nonlinear_arith)
            requires
                value <= from,
        ;
        assert(p as nat / from as nat <= max_edge) by (nonlinear_arith)
            requires
                p as nat <= from as nat * max_edge as nat,
                from > 0,
        ;
    }
    if q >= 1 {
        q as u32
    } else {
        1
    }
}

pub fn fit(w: u32, h: u32, max_edge: u32) -> (r: (u32, u32))
    ensures
        (r.0 as nat, r.1 as nat) == fit_spec(w as nat, h as nat, max_edge as nat),
{
    if w == 0 || h == 0 || max_edge == 0 {
        return (1, 1);
    }
    if w <= max_edge && h <= max_edge {
        return (w, h);
    }
    if w >= h {
        (max_edge, scale(h, max_edge, w))
    } else {
        (scale(w, max_edge, h), max_edge)
    }
}

/// A fitted thumbnail never grows past the box, nor past the image it came from, and
/// always has at least one pixel.
pub proof fn law_fit_stays_in_the_box(w: nat, h: nat, max_edge: nat)
    requires
        w > 0,
        h > 0,
        max_edge > 0,
    ensures
        fit_spec(w, h, max_edge).0 <= max_edge || fit_spec(w, h, max_edge).0 <= w,
        1 <= fit_spec(w, h, max_edge).0 <= w,
        1 <= fit_spec(w, h, max_edge).1 <= h,
        fit_spec(w, h, max_edge).0 <= max_edge && fit_spec(w, h, max_edge).1 <= max_edge,
{
    if !(w <= max_edge && h <= max_edge) {
        if w >= h {
            assert(h * max_edge / w <= h) by (nonlinear_arith)
                requires
                    w > max_edge,
                    max_edge > 0,
                    h <= w,
            {
                assert(h * max_edge <= h * w);
            }
            assert(h * max_edge / w <= max_edge) by (nonlinear_arith)
                requires
                    h <= w,
                    w > 0,
            {
                assert(h * max_edge <= w * max_edge);
            }
        } else {
            assert(w * max_edge / h <= w) by (nonlinear_arith)
                requires
                    h > max_edge,
                    max_edge > 0,
            {
                assert(w * max_edge <= w * h);
            }
            assert(w * max_edge / h <= max_edge) by (nonlinear_arith)
                requires
                    w < h,
                    h > 0,
            {
                assert(w * max_edge <= h * max_edge);
            }
        }
    }
}

/// The first of two camera fields that is not blank, trimmed.
pub open spec fn first_filled(preferred: Seq<char>, fallback: Seq<char>) -> Option<Seq<char>> {
    if trim(preferred).len() > 0 {
        Some(trim(preferred))
    } else if trim(fallback).len() > 0 {
        Some(trim(fallback))
    } else {
        None
    }
}

pub fn first_non_empty(preferred: &str, fallback: &str) -> (r: Option<String>)
    ensures
        match first_filled(preferred@, fallback@) {
            Some(t) => r is Some && r->0@ == t,
            None => r is None,
        },
{
    let p = trim_str(preferred);
    if p.len() > 0 {
        return Some(string_of(&p));
    }
    let f = trim_str(fallback);
    if f.len() > 0 {
        return Some(string_of(&f));
    }
    None
}

/// The camera a RAW decoder reports, from its cleaned and raw model and make: nothing
/// without a model; the make may be missing.
pub fn describe_camera(clean_make: &str, make: &str, clean_model: &str, model: &str) -> (r: Option<String>)
    ensures
        match first_filled(clean_model@, model@) {
            Some(m) => r is Some && r->0@ == crate::ingest::camera_text(
                match first_filled(clean_make@, make@) {
                    Some(k) => k,
                    None => Seq::<char>::empty(),
                },
                m,
            ),
            None => r is None,
        },
{
    let m = match first_non_empty(clean_model, model) {
        Some(m) => m,
        None => {
            return None;
        },
    };
    let k = match first_non_empty(clean_make, make) {
        Some(k) => k,
        None => String::new(),
    };
    Some(crate::ingest::format_camera(k.as_str(), m.as_str()))
}

/// How a photo is turned before it is shown.
#[derive(Debug, Clone, Copy, PartialEq, Eq, Structural)]
pub enum Orientation {
    Normal,
    HorizontalFlip,
    Rotate180,
    VerticalFlip,
    Transpose,
    Rotate90,
    Transverse,
    Rotate270,
    Unknown,
}

/// The orientation an EXIF orientation value asks for; anything out of range is normal.
pub fn exif_orientation(value: Option<u16>) -> (r: Orientation)
    ensures
        r == match value {
            Some(2) => Orientation::HorizontalFlip,
            Some(3) => Orientation::Rotate180,
            Some(4) => Orientation::VerticalFlip,
            Some(5) => Orientation::Transpose,
            Some(6) => Orientation::Rotate90,
            Some(7) => Orientation::Transverse,
            Some(8) => Orientation::Rotate270,
            _ => Orientation::Normal,
        },
{
    match value {
        Some(2) => Orientation::HorizontalFlip,
        Some(3) => Orientation::Rotate180,
        Some(4) => Orientation::VerticalFlip,
        Some(5) => Orientation::Transpose,
        Some(6) => Orientation::Rotate90,
        Some(7) => Orientation::Transverse,
        Some(8) => Orientation::Rotate270,
        _ => Orientation::Normal,
    }
}

/// Which decoder renders a file.
#[derive(Debug, Clone, Copy, PartialEq, Eq, Structural)]
pub enum Decoder {
    Raw,
    Standard,
}

pub open spec fn not_raw_text() -> Seq<char> {
    "not a recognisable RAW file"@
}

/// The decoder for a file: its name picks it, and a RAW name whose bytes do not look like
/// a RAW container is refused before any decoder sees them.
pub fn decoder_for(file_name: &str, bytes: &[u8]) -> (r: Result<Decoder, String>)
    ensures
        !is_raw_ext(extension_of_spec(file_name@)) ==> r == Ok::<Decoder, String>(Decoder::Standard),
        is_raw_ext(extension_of_spec(file_name@)) && (bytes@.len() >= crate::exif::MIN_RAW_BYTES
            && crate::exif::raw_signature(bytes@)) ==> r == Ok::<Decoder, String>(Decoder::Raw),
        is_raw_ext(extension_of_spec(file_name@)) && !(bytes@.len() >= crate::exif::MIN_RAW_BYTES
            && crate::exif::raw_signature(bytes@)) ==> (r is Err && r->Err_0@ == not_raw_text()),
{
    let ext = crate::ingest::extension_of(file_name);
    if !crate::ingest::is_raw_extension(ext.as_str()) {
        return Ok(Decoder::Standard);
    }
    if !crate::exif::looks_like_raw(bytes) {
        return Err(crate::text::owned("not a recognisable RAW file"));
    }
    Ok(Decoder::Raw)
}

} // verus!
