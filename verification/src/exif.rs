//! A deliberately small TIFF/EXIF reader: camera make, model, and the orientation hint.
//!
//! Every offset comes out of a file that may be corrupt or hostile, so every read is
//! bounds-checked, string lengths are clamped, and visited IFD offsets are tracked so that a
//! self-referential chain terminates. The functions below never index out of bounds and
//! never loop forever; their results are stated exactly by the spec functions beside them.
use vstd::prelude::*;
use crate::text::{trim, trim_vec, string_of};
use crate::ingest;

verus! {

/// How much of a file's head is worth reading to find IFD0 and its string values.
pub const HEADER_BYTES: usize = 65536;

pub const TAG_MAKE: u16 = 0x010F;
pub const TAG_MODEL: u16 = 0x0110;
pub const TAG_ORIENTATION: u16 = 0x0112;

/// A model string longer than this is not a model string.
pub const MAX_STRING_BYTES: u64 = 256;

/// Guards against a corrupt entry count claiming more entries than any real file has.
pub const MAX_ENTRIES: u16 = 512;

/// How many IFDs are walked before deciding the file is playing games.
pub const MAX_IFDS: usize = 16;

/// Smallest plausible camera RAW.
pub const MIN_RAW_BYTES: usize = 65536;

/// What the header of an image file says about the camera.
#[derive(Debug, Clone, PartialEq, Eq)]
pub struct Header {
    pub make: Option<String>,
    pub model: Option<String>,
    /// EXIF orientation (1-8) as stored; `None` when absent or out of range.
    pub orientation: Option<u16>,
}

/// The mathematical content of a [`Header`].
pub struct HeaderView {
    pub make: Option<Seq<char>>,
    pub model: Option<Seq<char>>,
    pub orientation: Option<u16>,
}

pub open spec fn opt_view(o: Option<String>) -> Option<Seq<char>> {
    match o {
        Some(s) => Some(s@),
        None => None,
    }
}

impl View for Header {
    type V = HeaderView;

    open spec fn view(&self) -> HeaderView {
        HeaderView {
            make: opt_view(self.make),
            model: opt_view(self.model),
            orientation: self.orientation,
        }
    }
}

/// The camera a header names, as a person would write it; nothing when it names neither
/// make nor model.
pub open spec fn camera_of(h: HeaderView) -> Option<Seq<char>> {
    let make = match h.make {
        Some(s) => s,
        None => Seq::<char>::empty(),
    };
    let model = match h.model {
        Some(s) => s,
        None => Seq::<char>::empty(),
    };
    if make.len() == 0 && model.len() == 0 {
        None
    } else {
        Some(ingest::camera_text(make, model))
    }
}

pub open spec fn empty_header() -> HeaderView {
    HeaderView { make: None, model: None, orientation: None }
}

impl Header {
    pub fn empty() -> (r: Header)
        ensures
            r@ == empty_header(),
    {
        Header { make: None, model: None, orientation: None }
    }

    pub fn is_empty(&self) -> (r: bool)
        ensures
            r == (self.make is None && self.model is None && self.orientation is None),
    {
        self.make.is_none() && self.model.is_none() && self.orientation.is_none()
    }

    /// The camera as a person would write it, if the file says at all.
    pub fn camera(&self) -> (r: Option<String>)
        ensures
            ({
                let make = match self.make {
                    Some(s) => s@,
                    None => Seq::<char>::empty(),
                };
                let model = match self.model {
                    Some(s) => s@,
                    None => Seq::<char>::empty(),
                };
                &&& (make.len() == 0 && model.len() == 0) ==> r is None
                &&& !(make.len() == 0 && model.len() == 0) ==> (r matches Some(c) && c@
                    == ingest::camera_text(make, model))
            }),
    {
        let make = match &self.make {
            Some(s) => s.as_str(),
            None => "",
        };
        let model = match &self.model {
            Some(s) => s.as_str(),
            None => "",
        };
        proof {
            reveal_strlit("");
        }
        let mk = crate::text::chars_of(make);
        let md = crate::text::chars_of(model);
        if mk.len() == 0 && md.len() == 0 {
            return None;
        }
        Some(ingest::format_camera(make, model))
    }
}

// ---------------------------------------------------------------------------------------
// Byte patterns
// ---------------------------------------------------------------------------------------

/// `bytes[offset..offset + magic.len()] == magic`, with the range inside `bytes`.
pub open spec fn bytes_at(b: Seq<u8>, offset: int, magic: Seq<u8>) -> bool {
    0 <= offset && offset + magic.len() <= b.len() && b.subrange(offset, offset + magic.len())
        == magic
}

fn bytes_at_exec(b: &[u8], offset: usize, magic: &[u8]) -> (r: bool)
    ensures
        r == bytes_at(b@, offset as int, magic@),
{
    if offset > b.len() || magic.len() > b.len() - offset {
        return false;
    }
    let mut k: usize = 0;
    while k < magic.len()
        invariant
            offset + magic.len() <= b.len(),
            k <= magic.len(),
            forall|j: int| 0 <= j < k ==> b@[offset + j] == magic@[j],
        decreases magic.len() - k,
    {
        if b[offset + k] != magic[k] {
            assert(b@.subrange(offset as int, offset + magic.len())[k as int] != magic@[k as int]);
            return false;
        }
        k += 1;
    }
    assert(b@.subrange(offset as int, offset + magic.len()) =~= magic@);
    true
}

/// The container signatures of every RAW format that is ingested.
pub open spec fn raw_signature(b: Seq<u8>) -> bool {
    ||| bytes_at(b, 0, seq![0x49u8, 0x49u8, 0x2au8, 0x00u8])
    ||| bytes_at(b, 0, seq![0x4du8, 0x4du8, 0x00u8, 0x2au8])
    ||| bytes_at(b, 0, seq![0x49u8, 0x49u8, 0x55u8, 0x00u8])
    ||| bytes_at(b, 0, seq![0x49u8, 0x49u8, 0x52u8, 0x00u8])
    ||| bytes_at(b, 0, seq![0x4du8, 0x4du8, 0x4fu8, 0x52u8])
    ||| bytes_at(b, 0, seq![0x46u8, 0x55u8, 0x4au8, 0x49u8, 0x46u8, 0x49u8, 0x4cu8, 0x4du8])
    ||| bytes_at(b, 0, seq![0x46u8, 0x4fu8, 0x56u8, 0x62u8])
    ||| bytes_at(b, 0, seq![0x00u8, 0x4du8, 0x52u8, 0x4du8])
    ||| bytes_at(b, 4, seq![0x66u8, 0x74u8, 0x79u8, 0x70u8])
    ||| bytes_at(b, 6, seq![0x48u8, 0x45u8, 0x41u8, 0x50u8, 0x43u8, 0x43u8, 0x44u8, 0x52u8])
}

/// Whether these bytes open with a container a RAW decoder should be allowed to touch:
/// large enough to be a photograph, and starting with a known RAW signature.
pub fn looks_like_raw(bytes: &[u8]) -> (r: bool)
    ensures
        r == (bytes@.len() >= MIN_RAW_BYTES && raw_signature(bytes@)),
{
    if bytes.len() < MIN_RAW_BYTES {
        return false;
    }
    let tiff_le: [u8; 4] = [0x49, 0x49, 0x2a, 0x00];
    let tiff_be: [u8; 4] = [0x4d, 0x4d, 0x00, 0x2a];
    let rw2: [u8; 4] = [0x49, 0x49, 0x55, 0x00];
    let orf_le: [u8; 4] = [0x49, 0x49, 0x52, 0x00];
    let orf_be: [u8; 4] = [0x4d, 0x4d, 0x4f, 0x52];
    let raf: [u8; 8] = [0x46, 0x55, 0x4a, 0x49, 0x46, 0x49, 0x4c, 0x4d];
    let x3f: [u8; 4] = [0x46, 0x4f, 0x56, 0x62];
    let mrw: [u8; 4] = [0x00, 0x4d, 0x52, 0x4d];
    let ftyp: [u8; 4] = [0x66, 0x74, 0x79, 0x70];
    let crw: [u8; 8] = [0x48, 0x45, 0x41, 0x50, 0x43, 0x43, 0x44, 0x52];
    assert(tiff_le@ =~= seq![0x49u8, 0x49u8, 0x2au8, 0x00u8]);
    assert(tiff_be@ =~= seq![0x4du8, 0x4du8, 0x00u8, 0x2au8]);
    assert(rw2@ =~= seq![0x49u8, 0x49u8, 0x55u8, 0x00u8]);
    assert(orf_le@ =~= seq![0x49u8, 0x49u8, 0x52u8, 0x00u8]);
    assert(orf_be@ =~= seq![0x4du8, 0x4du8, 0x4fu8, 0x52u8]);
    assert(raf@ =~= seq![0x46u8, 0x55u8, 0x4au8, 0x49u8, 0x46u8, 0x49u8, 0x4cu8, 0x4du8]);
    assert(x3f@ =~= seq![0x46u8, 0x4fu8, 0x56u8, 0x62u8]);
    assert(mrw@ =~= seq![0x00u8, 0x4du8, 0x52u8, 0x4du8]);
    assert(ftyp@ =~= seq![0x66u8, 0x74u8, 0x79u8, 0x70u8]);
    assert(crw@ =~= seq![0x48u8, 0x45u8, 0x41u8, 0x50u8, 0x43u8, 0x43u8, 0x44u8, 0x52u8]);
    bytes_at_exec(bytes, 0, &tiff_le) || bytes_at_exec(bytes, 0, &tiff_be) || bytes_at_exec(
        bytes,
        0,
        &rw2,
    ) || bytes_at_exec(bytes, 0, &orf_le) || bytes_at_exec(bytes, 0, &orf_be) || bytes_at_exec(
        bytes,
        0,
        &raf,
    ) || bytes_at_exec(bytes, 0, &x3f) || bytes_at_exec(bytes, 0, &mrw) || bytes_at_exec(
        bytes,
        4,
        &ftyp,
    ) || bytes_at_exec(bytes, 6, &crw)
}

// ---------------------------------------------------------------------------------------
// Byte order
// ---------------------------------------------------------------------------------------

/// Byte order of a TIFF block.
#[derive(Clone, Copy, PartialEq, Eq, Debug, Structural)]
pub enum Endian {
    Little,
    Big,
}

pub open spec fn u16_spec(e: Endian, b0: u8, b1: u8) -> u16 {
    match e {
        Endian::Little => (b0 + 256 * b1) as u16,
        Endian::Big => (256 * b0 + b1) as u16,
    }
}

pub open spec fn u32_spec(e: Endian, b0: u8, b1: u8, b2: u8, b3: u8) -> u32 {
    match e {
        Endian::Little => (b0 + 256 * b1 + 65536 * b2 + 16777216 * b3) as u32,
        Endian::Big => (16777216 * b0 + 65536 * b1 + 256 * b2 + b3) as u32,
    }
}

impl Endian {
    pub fn u16(self, bytes: [u8; 2]) -> (r: u16)
        ensures
            r == u16_spec(self, bytes@[0], bytes@[1]),
            r == u16_spec(self, bytes[0], bytes[1]),
    {
        match self {
            Endian::Little => bytes[0] as u16 + 256 * (bytes[1] as u16),
            Endian::Big => 256 * (bytes[0] as u16) + bytes[1] as u16,
        }
    }

    pub fn u32(self, bytes: [u8; 4]) -> (r: u32)
        ensures
            r == u32_spec(self, bytes@[0], bytes@[1], bytes@[2], bytes@[3]),
            r == u32_spec(self, bytes[0], bytes[1], bytes[2], bytes[3]),
    {
        match self {
            Endian::Little => bytes[0] as u32 + 256 * (bytes[1] as u32) + 65536 * (bytes[2] as u32)
                + 16777216 * (bytes[3] as u32),
            Endian::Big => 16777216 * (bytes[0] as u32) + 65536 * (bytes[1] as u32) + 256 * (
            bytes[2] as u32) + bytes[3] as u32,
        }
    }
}

pub open spec fn rd16(b: Seq<u8>, e: Endian, at: int) -> u16 {
    u16_spec(e, b[at], b[at + 1])
}

pub open spec fn rd32(b: Seq<u8>, e: Endian, at: int) -> u32 {
    u32_spec(e, b[at], b[at + 1], b[at + 2], b[at + 3])
}

fn read16(b: &[u8], e: Endian, at: usize) -> (r: u16)
    requires
        at + 2 <= b.len(),
    ensures
        r == rd16(b@, e, at as int),
{
    e.u16([b[at], b[at + 1]])
}

fn read32(b: &[u8], e: Endian, at: usize) -> (r: u32)
    requires
        at + 4 <= b.len(),
    ensures
        r == rd32(b@, e, at as int),
{
    e.u32([b[at], b[at + 1], b[at + 2], b[at + 3]])
}

// ---------------------------------------------------------------------------------------
// JPEG: where the Exif TIFF block starts
// ---------------------------------------------------------------------------------------

/// Past any `0xFF` fill bytes that precede a segment marker.
pub open spec fn skip_fill(b: Seq<u8>, c: int) -> int
    decreases b.len() - c,
{
    if 0 <= c && c + 1 < b.len() && b[c] == 0xFF && b[c + 1] == 0xFF {
        skip_fill(b, c + 1)
    } else {
        c
    }
}

pub open spec fn exif_magic() -> Seq<u8> {
    seq![0x45u8, 0x78u8, 0x69u8, 0x66u8, 0u8, 0u8]
}

/// Walk the JPEG segments from `cursor`: the offset just past `APP1`'s `Exif\0\0`, or `None`
/// when the scan ends, the data runs out, or a segment is malformed.
pub open spec fn jpeg_scan(b: Seq<u8>, cursor: int) -> Option<int>
    decreases usize::MAX - cursor,
{
    let c = skip_fill(b, cursor);
    if cursor < 0 || c + 3 >= b.len() || b[c] != 0xFF {
        None
    } else {
        let marker = b[c + 1];
        let length = 256 * b[c + 2] + b[c + 3];
        if marker == 0xDA || marker == 0xD9 || length < 2 {
            None
        } else if marker == 0xE1 && c + 4 + 6 > b.len() {
            None
        } else if marker == 0xE1 && bytes_at(b, c + 4, exif_magic()) {
            Some(c + 10)
        } else if c + 2 + length > usize::MAX {
            None
        } else {
            proof {
                lemma_skip_fill_bounds(b, cursor);
            }
            jpeg_scan(b, c + 2 + length)
        }
    }
}

/// The value `jpeg_exif_offset` returns.
pub open spec fn jpeg_offset_spec(b: Seq<u8>) -> Option<int> {
    if b.len() >= 2 && b[0] == 0xFF && b[1] == 0xD8 {
        jpeg_scan(b, 2)
    } else {
        None
    }
}

pub proof fn lemma_skip_fill_bounds(b: Seq<u8>, c: int)
    requires
        0 <= c,
    ensures
        c <= skip_fill(b, c),
        c < b.len() ==> skip_fill(b, c) < b.len(),
        skip_fill(b, c) > c ==> skip_fill(b, c) < b.len(),
    decreases b.len() - c,
{
    if 0 <= c && c + 1 < b.len() && b[c] == 0xFF && b[c + 1] == 0xFF {
        lemma_skip_fill_bounds(b, c + 1);
    }
}

fn jpeg_exif_offset(bytes: &[u8]) -> (r: Option<usize>)
    ensures
        match r {
            Some(o) => jpeg_offset_spec(bytes@) == Some(o as int),
            None => jpeg_offset_spec(bytes@) is None,
        },
{
    if bytes.len() < 2 || bytes[0] != 0xFF || bytes[1] != 0xD8 {
        return None;
    }
    let mut cursor: usize = 2;
    loop
        invariant
            2 <= cursor,
            jpeg_offset_spec(bytes@) == jpeg_scan(bytes@, cursor as int),
        decreases usize::MAX - cursor,
    {
        let ghost start = cursor as int;
        while bytes.len() > 0 && cursor < bytes.len() - 1 && bytes[cursor] == 0xFF && bytes[cursor
            + 1] == 0xFF
            invariant
                start <= cursor,
                skip_fill(bytes@, start) == skip_fill(bytes@, cursor as int),
            decreases bytes.len() - cursor,
        {
            cursor += 1;
        }
        assert(skip_fill(bytes@, cursor as int) == cursor);
        let c = cursor;
        if c >= bytes.len() || bytes.len() - c <= 3 || bytes[c] != 0xFF {
            return None;
        }
        let marker = bytes[c + 1];
        if marker == 0xDA || marker == 0xD9 {
            return None;
        }
        let length: usize = 256 * (bytes[c + 2] as usize) + bytes[c + 3] as usize;
        if length < 2 {
            return None;
        }
        let payload = c + 4;
        if marker == 0xE1 {
            if bytes.len() - payload < 6 {
                return None;
            }
            let magic: [u8; 6] = [0x45, 0x78, 0x69, 0x66, 0, 0];
            assert(magic@ =~= exif_magic());
            if bytes_at_exec(bytes, payload, &magic) {
                return Some(payload + 6);
            }
        }
        if c > usize::MAX - 2 || length > usize::MAX - 2 - c {
            return None;
        }
        proof {
            lemma_skip_fill_bounds(bytes@, start);
        }
        cursor = c + 2 + length;
    }
}

// ---------------------------------------------------------------------------------------
// TIFF: IFD entries and strings
// ---------------------------------------------------------------------------------------

/// Bytes up to, not including, the first NUL.
pub open spec fn until_nul(s: Seq<u8>) -> Seq<u8>
    decreases s.len(),
{
    if s.len() == 0 || s[0] == 0 {
        Seq::empty()
    } else {
        seq![s[0]] + until_nul(s.drop_first())
    }
}

/// Each byte read as the character with the same code (`char::from(u8)`).
pub open spec fn latin1(s: Seq<u8>) -> Seq<char> {
    s.map_values(|x: u8| (x as u32) as char)
}

/// Where an ASCII value of `count` bytes lives: inline in the entry's value field when it
/// fits, at `base + offset` otherwise. `None` when that range is not inside the bytes.
pub open spec fn string_range(
    b: Seq<u8>,
    base: int,
    e: Endian,
    count: int,
    entry_at: int,
) -> Option<int> {
    if count <= 4 {
        if entry_at + 8 + count <= b.len() {
            Some(entry_at + 8)
        } else {
            None
        }
    } else {
        let start = base + rd32(b, e, entry_at + 8);
        if start + count <= b.len() && start <= usize::MAX {
            Some(start)
        } else {
            None
        }
    }
}

/// The trimmed text of an ASCII tag, or `None` when absent, too long, out of bounds or blank.
pub open spec fn string_spec(b: Seq<u8>, base: int, e: Endian, count: int, entry_at: int) -> Option<
    Seq<char>,
> {
    if count == 0 || count > 256 {
        None
    } else {
        match string_range(b, base, e, count, entry_at) {
            None => None,
            Some(start) => {
                let t = trim(latin1(until_nul(b.subrange(start, start + count))));
                if t.len() == 0 {
                    None
                } else {
                    Some(t)
                }
            },
        }
    }
}

proof fn lemma_until_nul_prefix(s: Seq<u8>, i: int)
    requires
        0 <= i <= s.len(),
        forall|k: int| 0 <= k < i ==> s[k] != 0,
        i == s.len() || s[i] == 0,
    ensures
        until_nul(s) == s.take(i),
    decreases i,
{
    if i == 0 {
        assert(s.take(0) =~= Seq::<u8>::empty());
    } else {
        lemma_until_nul_prefix(s.drop_first(), i - 1);
        assert(s.take(i) =~= seq![s[0]] + s.drop_first().take(i - 1));
    }
}

fn read_string(bytes: &[u8], base: usize, endian: Endian, count: u64, entry_at: usize) -> (r: Option<
    String,
>)
    requires
        entry_at + 12 <= bytes.len(),
    ensures
        opt_view(r) == string_spec(bytes@, base as int, endian, count as int, entry_at as int),
{
    if count == 0 || count > MAX_STRING_BYTES {
        return None;
    }
    let len = count as usize;
    let start: usize;
    if count <= 4 {
        if bytes.len() - (entry_at + 8) < len {
            return None;
        }
        start = entry_at + 8;
    } else {
        let offset = read32(bytes, endian, entry_at + 8) as usize;
        if base > usize::MAX - offset {
            return None;
        }
        let s = base + offset;
        if s > bytes.len() || bytes.len() - s < len {
            return None;
        }
        start = s;
    }
    assert(string_range(bytes@, base as int, endian, count as int, entry_at as int) == Some(
        start as int,
    ));
    let ghost slice = bytes@.subrange(start as int, start + len);
    let mut text: Vec<char> = Vec::new();
    let mut i: usize = 0;
    while i < len && bytes[start + i] != 0
        invariant
            start + len <= bytes.len(),
            slice == bytes@.subrange(start as int, start + len),
            i <= len,
            forall|k: int| 0 <= k < i ==> slice[k] != 0,
            text@ == latin1(slice.take(i as int)),
        decreases len - i,
    {
        let c = bytes[start + i] as char;
        text.push(c);
        i += 1;
        assert(text@ =~= latin1(slice.take(i as int)));
    }
    proof {
        lemma_until_nul_prefix(slice, i as int);
    }
    let trimmed = trim_vec(&text);
    if trimmed.len() == 0 {
        return None;
    }
    Some(string_of(&trimmed))
}

/// Whether every field the reader looks for has been found.
pub open spec fn complete(h: HeaderView) -> bool {
    h.make is Some && h.model is Some && h.orientation is Some
}

/// The effect of IFD entry `index` of the table at `start` on what has been read so far.
pub open spec fn entry_spec(b: Seq<u8>, base: int, e: Endian, start: int, index: int, h: HeaderView) -> HeaderView {
    let at = start + 2 + 12 * index;
    let tag = rd16(b, e, at);
    let kind = rd16(b, e, at + 2);
    let count = rd32(b, e, at + 4);
    if tag == TAG_ORIENTATION {
        let value = rd16(b, e, at + 8);
        if kind == 3 && count == 1 && 1 <= value <= 8 && h.orientation is None {
            HeaderView { orientation: Some(value), ..h }
        } else {
            h
        }
    } else if tag == TAG_MAKE || tag == TAG_MODEL {
        if kind != 2 {
            h
        } else {
            match string_spec(b, base, e, count as int, at) {
                None => h,
                Some(t) => if tag == TAG_MAKE {
                    if h.make is None {
                        HeaderView { make: Some(t), ..h }
                    } else {
                        h
                    }
                } else {
                    if h.model is None {
                        HeaderView { model: Some(t), ..h }
                    } else {
                        h
                    }
                },
            }
        }
    } else {
        h
    }
}

/// The first `n` entries of a table applied in order.
pub open spec fn entries_spec(b: Seq<u8>, base: int, e: Endian, start: int, n: int, h: HeaderView) -> HeaderView
    decreases n,
{
    if n <= 0 {
        h
    } else {
        entry_spec(b, base, e, start, n - 1, entries_spec(b, base, e, start, n - 1, h))
    }
}

/// One IFD at `base + offset`: what it adds to `h` and where the next IFD is, read from
/// the 4-byte pointer just after the entry table; `None` when its header, entry table or
/// that pointer is missing, or its entry count is implausible.
pub open spec fn ifd_spec(b: Seq<u8>, base: int, offset: int, e: Endian, h: HeaderView) -> Option<
    (HeaderView, int),
> {
    let start = base + offset;
    if start + 2 > b.len() {
        None
    } else {
        let entries = rd16(b, e, start);
        let table_end = start + 2 + 12 * entries;
        if entries == 0 || entries > MAX_ENTRIES || table_end + 4 > b.len() {
            None
        } else {
            Some((entries_spec(b, base, e, start, entries as int, h), rd32(b, e, table_end) as int))
        }
    }
}

/// Follow the IFD chain from `next`, at most `fuel` IFDs, never revisiting an offset.
pub open spec fn walk_spec(
    b: Seq<u8>,
    base: int,
    e: Endian,
    next: int,
    visited: Seq<int>,
    fuel: nat,
    h: HeaderView,
) -> HeaderView
    decreases fuel,
{
    if fuel == 0 || next == 0 || visited.contains(next) {
        h
    } else {
        match ifd_spec(b, base, next, e, h) {
            None => h,
            Some((h2, following)) => if complete(h2) {
                h2
            } else {
                walk_spec(b, base, e, following, visited.push(next), (fuel - 1) as nat, h2)
            },
        }
    }
}

/// A TIFF block at `base`: its byte order mark, the magic 42, and the IFD chain.
pub open spec fn tiff_spec(b: Seq<u8>, base: int) -> Option<HeaderView> {
    if base + 8 > b.len() {
        None
    } else {
        let e = if b[base] == 0x49 && b[base + 1] == 0x49 {
            Some(Endian::Little)
        } else if b[base] == 0x4d && b[base + 1] == 0x4d {
            Some(Endian::Big)
        } else {
            None
        };
        match e {
            None => None,
            Some(e) => if rd16(b, e, base + 2) != 42 {
                None
            } else {
                Some(
                    walk_spec(
                        b,
                        base,
                        e,
                        rd32(b, e, base + 4) as int,
                        Seq::empty(),
                        MAX_IFDS as nat,
                        empty_header(),
                    ),
                )
            },
        }
    }
}

/// What `parse` reads from a file's first bytes.
pub open spec fn parse_spec(b: Seq<u8>) -> HeaderView {
    match tiff_spec(b, 0) {
        Some(h) => h,
        None => match jpeg_offset_spec(b) {
            Some(o) => match tiff_spec(b, o) {
                Some(h) => h,
                None => empty_header(),
            },
            None => empty_header(),
        },
    }
}

fn apply_entry(
    bytes: &[u8],
    base: usize,
    endian: Endian,
    start: usize,
    index: usize,
    out: &mut Header,
)
    requires
        start + 2 + 12 * index + 12 <= bytes.len(),
    ensures
        final(out)@ == entry_spec(bytes@, base as int, endian, start as int, index as int, old(out)@),
{
    let at = start + 2 + 12 * index;
    let tag = read16(bytes, endian, at);
    if tag != TAG_MAKE && tag != TAG_MODEL && tag != TAG_ORIENTATION {
        return ;
    }
    let kind = read16(bytes, endian, at + 2);
    let count = read32(bytes, endian, at + 4) as u64;
    if tag == TAG_ORIENTATION {
        if kind == 3 && count == 1 {
            let value = read16(bytes, endian, at + 8);
            if 1 <= value && value <= 8 && out.orientation.is_none() {
                out.orientation = Some(value);
            }
        }
        return ;
    }
    if kind != 2 {
        return ;
    }
    let text = match read_string(bytes, base, endian, count, at) {
        Some(t) => t,
        None => return ,
    };
    if tag == TAG_MAKE {
        if out.make.is_none() {
            out.make = Some(text);
        }
    } else {
        if out.model.is_none() {
            out.model = Some(text);
        }
    }
}

fn read_ifd(bytes: &[u8], base: usize, offset: usize, endian: Endian, out: &mut Header) -> (r: Option<usize>)
    ensures
        match ifd_spec(bytes@, base as int, offset as int, endian, old(out)@) {
            None => r is None && final(out)@ == old(out)@,
            Some((h, next)) => r == Some(next as usize) && final(out)@ == h && next <= u32::MAX,
        },
{
    if base > usize::MAX - offset {
        let n = bytes.len();
        assert(n == bytes@.len());
        return None;
    }
    let start = base + offset;
    if start > bytes.len() || bytes.len() - start < 2 {
        return None;
    }
    let entries = read16(bytes, endian, start);
    if entries == 0 || entries > MAX_ENTRIES {
        return None;
    }
    let table_len: usize = 2 + 12 * (entries as usize);
    // The whole entry table plus the next-IFD pointer after it must be present.
    if bytes.len() - start < table_len + 4 {
        return None;
    }
    let table_end = start + table_len;
    let ghost h0 = out@;
    let mut index: usize = 0;
    while index < entries as usize
        invariant
            start + 2 + 12 * entries <= bytes.len(),
            index <= entries,
            out@ == entries_spec(bytes@, base as int, endian, start as int, index as int, h0),
        decreases entries - index,
    {
        apply_entry(bytes, base, endian, start, index, out);
        index += 1;
    }
    let next = read32(bytes, endian, table_end) as usize;
    Some(next)
}

fn tiff_at(bytes: &[u8], base: usize) -> (r: Option<Header>)
    ensures
        match tiff_spec(bytes@, base as int) {
            None => r is None,
            Some(h) => r matches Some(x) && x@ == h,
        },
{
    if base > bytes.len() || bytes.len() - base < 8 {
        return None;
    }
    let endian = if bytes[base] == 0x49 && bytes[base + 1] == 0x49 {
        Endian::Little
    } else if bytes[base] == 0x4d && bytes[base + 1] == 0x4d {
        Endian::Big
    } else {
        return None;
    };
    if read16(bytes, endian, base + 2) != 42 {
        return None;
    }
    let first_ifd = read32(bytes, endian, base + 4) as usize;
    let mut result = Header::empty();
    let mut visited: Vec<usize> = Vec::new();
    let mut next = first_ifd;
    let mut rounds: usize = 0;
    let ghost target = walk_spec(
        bytes@,
        base as int,
        endian,
        first_ifd as int,
        Seq::empty(),
        MAX_IFDS as nat,
        empty_header(),
    );
    assert(visited@.map_values(|x: usize| x as int) =~= Seq::<int>::empty());
    while rounds < MAX_IFDS
        invariant_except_break
            rounds <= MAX_IFDS,
            target == walk_spec(
                bytes@,
                base as int,
                endian,
                next as int,
                visited@.map_values(|x: usize| x as int),
                (MAX_IFDS - rounds) as nat,
                result@,
            ),
        ensures
            result@ == target,
        decreases MAX_IFDS - rounds,
    {
        let ghost vis = visited@.map_values(|x: usize| x as int);
        let mut seen = false;
        let mut k: usize = 0;
        while k < visited.len()
            invariant
                k <= visited.len(),
                vis == visited@.map_values(|x: usize| x as int),
                seen == exists|j: int| 0 <= j < k && visited@[j] == next,
            decreases visited.len() - k,
        {
            if visited[k] == next {
                seen = true;
            }
            k += 1;
        }
        proof {
            if seen {
                let j = choose|j: int| 0 <= j < visited.len() && visited@[j] == next;
                assert(vis[j] == next as int);
            } else {
                assert forall|j: int| 0 <= j < vis.len() implies vis[j] != next as int by {
                    assert(vis[j] == visited@[j] as int);
                }
            }
        }
        if next == 0 || seen {
            proof {
                if seen {
                    assert(vis.contains(next as int));
                }
            }
            break;
        }
        let ghost h_before = result@;
        let current = next;
        match read_ifd(bytes, base, next, endian, &mut result) {
            Some(following) => {
                next = following;
            },
            None => {
                break;
            },
        }
        visited.push(current);
        assert(visited@.map_values(|x: usize| x as int) =~= vis.push(current as int));
        rounds += 1;
        if result.make.is_some() && result.model.is_some() && result.orientation.is_some() {
            break;
        }
    }
    proof {
        if rounds == MAX_IFDS {
        }
    }
    Some(result)
}

/// Read the header tags from the first bytes of a file. Anything unparseable gives an
/// empty [`Header`] rather than an error.
pub fn parse(bytes: &[u8]) -> (r: Header)
    ensures
        r@ == parse_spec(bytes@),
{
    match tiff_at(bytes, 0) {
        Some(h) => return h,
        None => {},
    }
    match jpeg_exif_offset(bytes) {
        Some(offset) => match tiff_at(bytes, offset) {
            Some(h) => h,
            None => Header::empty(),
        },
        None => Header::empty(),
    }
}

} // verus!
