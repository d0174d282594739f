use phase::exif::{looks_like_raw, parse, TAG_MAKE, TAG_MODEL, TAG_ORIENTATION};

/// Build a minimal little-endian TIFF with the given IFD0 entries.
fn tiff(entries: &[(u16, u16, u32, [u8; 4])], trailing: &[u8]) -> Vec<u8> {
    let mut out = Vec::new();
    out.extend_from_slice(b"II");
    out.extend_from_slice(&42u16.to_le_bytes());
    out.extend_from_slice(&8u32.to_le_bytes());
    out.extend_from_slice(&(entries.len() as u16).to_le_bytes());
    for (tag, kind, count, value) in entries {
        out.extend_from_slice(&tag.to_le_bytes());
        out.extend_from_slice(&kind.to_le_bytes());
        out.extend_from_slice(&count.to_le_bytes());
        out.extend_from_slice(value);
    }
    out.extend_from_slice(&0u32.to_le_bytes()); // next IFD
    out.extend_from_slice(trailing);
    out
}

#[test]
fn reads_make_model_and_orientation() {
    // "NIKON Z 7" is 10 bytes with its NUL, so it lives at an offset; orientation is
    // inline.
    let value_offset = (8 + 2 + 3 * 12 + 4) as u32;
    let bytes = tiff(
        &[
            (TAG_MAKE, 2, 6, value_offset.to_le_bytes()),
            (TAG_MODEL, 2, 10, (value_offset + 6).to_le_bytes()),
            (TAG_ORIENTATION, 3, 1, [6, 0, 0, 0]),
        ],
        b"NIKON\0NIKON Z 7\0",
    );
    let header = parse(&bytes);
    assert_eq!(header.make.as_deref(), Some("NIKON"));
    assert_eq!(header.model.as_deref(), Some("NIKON Z 7"));
    assert_eq!(header.orientation, Some(6));
    assert_eq!(header.camera().as_deref(), Some("Nikon Z 7"));
}

#[test]
fn reads_short_strings_stored_inline() {
    // "ILC" + NUL is 4 bytes, so it sits in the value field rather than at an offset.
    let bytes = tiff(&[(TAG_MODEL, 2, 4, *b"ILC\0")], b"");
    assert_eq!(parse(&bytes).model.as_deref(), Some("ILC"));
}

#[test]
fn big_endian_files_parse_too() {
    let mut out = Vec::new();
    out.extend_from_slice(b"MM");
    out.extend_from_slice(&42u16.to_be_bytes());
    out.extend_from_slice(&8u32.to_be_bytes());
    out.extend_from_slice(&1u16.to_be_bytes());
    out.extend_from_slice(&TAG_ORIENTATION.to_be_bytes());
    out.extend_from_slice(&3u16.to_be_bytes());
    out.extend_from_slice(&1u32.to_be_bytes());
    out.extend_from_slice(&[0, 8, 0, 0]);
    out.extend_from_slice(&0u32.to_be_bytes());
    assert_eq!(parse(&out).orientation, Some(8));
}

#[test]
fn malformed_input_yields_nothing_rather_than_panicking() {
    // Truncated at every length, including mid-header and mid-entry.
    let full = tiff(&[(TAG_MODEL, 2, 10, 46u32.to_le_bytes())], b"NIKON Z 7\0");
    for len in 0..full.len() {
        let _ = parse(&full[..len]);
    }

    // Absurd counts must not allocate or index out of bounds.
    assert!(parse(&tiff(&[(TAG_MODEL, 2, u32::MAX, [0; 4])], b"")).is_empty());
    assert!(parse(&tiff(&[(TAG_MAKE, 2, 999_999, [8, 0, 0, 0])], b"")).is_empty());

    // An offset pointing past the end of what we read is normal, not fatal.
    assert!(parse(&tiff(&[(TAG_MODEL, 2, 10, u32::MAX.to_le_bytes())], b"")).is_empty());

    // Entry count larger than the file can hold.
    let mut bogus = Vec::new();
    bogus.extend_from_slice(b"II");
    bogus.extend_from_slice(&42u16.to_le_bytes());
    bogus.extend_from_slice(&8u32.to_le_bytes());
    bogus.extend_from_slice(&u16::MAX.to_le_bytes());
    assert!(parse(&bogus).is_empty());

    // Not a TIFF or a JPEG at all.
    assert!(parse(&[0u8; 1024]).is_empty());
    assert!(parse(&[0xFFu8; 1024]).is_empty());
    assert!(parse(b"").is_empty());
}

#[test]
fn a_self_referential_ifd_chain_terminates() {
    // next-IFD points back at IFD0; the visited set must stop the walk.
    let mut bytes = tiff(&[(TAG_ORIENTATION, 3, 1, [1, 0, 0, 0])], b"");
    let next_at = bytes.len() - 4;
    bytes[next_at..next_at + 4].copy_from_slice(&8u32.to_le_bytes());
    assert_eq!(parse(&bytes).orientation, Some(1));
}

#[test]
fn out_of_range_orientation_is_ignored() {
    assert_eq!(parse(&tiff(&[(TAG_ORIENTATION, 3, 1, [0, 0, 0, 0])], b"")).orientation, None);
    assert_eq!(parse(&tiff(&[(TAG_ORIENTATION, 3, 1, [9, 0, 0, 0])], b"")).orientation, None);
}

#[test]
fn finds_exif_inside_a_jpeg_app1_segment() {
    let inner = tiff(&[(TAG_MODEL, 2, 4, *b"X-T\0")], b"");
    let mut jpeg = vec![0xFF, 0xD8];
    jpeg.extend_from_slice(&[0xFF, 0xE1]);
    jpeg.extend_from_slice(&((inner.len() + 8) as u16).to_be_bytes());
    jpeg.extend_from_slice(b"Exif\0\0");
    jpeg.extend_from_slice(&inner);
    jpeg.extend_from_slice(&[0xFF, 0xDA]);
    assert_eq!(parse(&jpeg).model.as_deref(), Some("X-T"));
}

#[test]
fn a_jpeg_without_exif_is_simply_empty() {
    let jpeg = vec![0xFF, 0xD8, 0xFF, 0xDA, 0x00, 0x02];
    assert!(parse(&jpeg).is_empty());
    // A JPEG whose segment length runs off the end must not loop forever.
    let truncated = vec![0xFF, 0xD8, 0xFF, 0xE0, 0xFF, 0xFF];
    assert!(parse(&truncated).is_empty());
}

#[test]
fn a_make_and_model_that_both_name_the_brand_say_it_once() {
    let value_offset = (8 + 2 + 2 * 12 + 4) as u32;
    let bytes = tiff(
        &[
            (TAG_MAKE, 2, 6, value_offset.to_le_bytes()),
            (TAG_MODEL, 2, 10, (value_offset + 6).to_le_bytes()),
        ],
        b"Canon\0Canon R5 \0",
    );
    let header = parse(&bytes);
    assert_eq!(header.model.as_deref(), Some("Canon R5"));
    assert_eq!(header.camera().as_deref(), Some("Canon R5"));
}

#[test]
fn a_small_tiff_is_not_taken_for_a_raw() {
    let small = tiff(&[(TAG_ORIENTATION, 3, 1, [1, 0, 0, 0])], b"");
    assert!(!looks_like_raw(&small));
    let mut large = small.clone();
    large.resize(70_000, 0);
    assert!(looks_like_raw(&large));
    assert!(!looks_like_raw(&vec![0u8; 70_000]));
}

#[test]
fn the_next_directory_pointer_follows_the_entry_table() {
    // One orientation entry whose value field (6) must not be taken for the next IFD.
    let bytes = b"II\x2a\x00\x08\x00\x00\x00\x01\x00\x12\x01\x03\x00\x01\x00\x00\x00\x06\x00\x00\x00\x00\x00\x00\x00";
    let header = parse(bytes);
    assert_eq!(header.orientation, Some(6));
    assert!(header.make.is_none() && header.model.is_none());

    // A pointer after IFD0's table leads to IFD1, where the make is found.
    let mut chained = b"II\x2a\x00\x08\x00\x00\x00\x01\x00\x12\x01\x03\x00\x01\x00\x00\x00\x06\x00\x00\x00".to_vec();
    chained.extend_from_slice(&26u32.to_le_bytes());
    chained.extend_from_slice(&1u16.to_le_bytes());
    chained.extend_from_slice(&TAG_MAKE.to_le_bytes());
    chained.extend_from_slice(&2u16.to_le_bytes());
    chained.extend_from_slice(&4u32.to_le_bytes());
    chained.extend_from_slice(b"Sony");
    chained.extend_from_slice(&0u32.to_le_bytes());
    let header = parse(&chained);
    assert_eq!(header.orientation, Some(6));
    assert_eq!(header.make.as_deref(), Some("Sony"));

    // A table with no room for the pointer after it is not read.
    let truncated = &bytes[..22];
    assert!(parse(truncated).orientation.is_none());
}
