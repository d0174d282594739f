use phase::exif::looks_like_raw;
use phase::thumb::{decoder_for, describe_camera, exif_orientation, first_non_empty, fit, Decoder, Orientation};

#[test]
fn fit_preserves_aspect_and_never_upscales() {
    assert_eq!(fit(8256, 5504, 64), (64, 42));
    assert_eq!(fit(5504, 8256, 64), (42, 64));
    assert_eq!(fit(64, 64, 64), (64, 64));
    // Already inside the box: left alone rather than blown up.
    assert_eq!(fit(40, 30, 64), (40, 30));
    // Degenerate inputs must not divide by zero.
    assert_eq!(fit(0, 10, 64), (1, 1));
    assert_eq!(fit(10, 0, 64), (1, 1));
    // Extreme aspect ratios still produce at least one pixel.
    assert_eq!(fit(10_000, 1, 64), (64, 1));
}

#[test]
fn only_real_raw_containers_pass_the_gate() {
    let pad = |magic: &[u8]| {
        let mut bytes = magic.to_vec();
        bytes.resize(128 * 1024, 0);
        bytes
    };
    for magic in [
        &b"II\x2a\x00"[..],
        b"MM\x00\x2a",
        b"FUJIFILM",
        b"FOVb",
        b"\x00MRM",
    ] {
        assert!(looks_like_raw(&pad(magic)));
    }
    for magic in [&b"\x00\x00\x00\x00"[..], b"\xff\xff\xff\xff", b"RIFF", b"\x89PNG"] {
        assert!(!looks_like_raw(&pad(magic)));
    }
    // A real container that is too small to be a real photo is still rejected.
    assert!(!looks_like_raw(b"II\x2a\x00some short file"));
}

#[test]
fn garbage_raw_bytes_never_reach_the_raw_decoder() {
    for (name, bytes) in [
        ("junk.nef", vec![0u8; 4096]),
        ("junk.nef", Vec::new()),
        ("junk.arw", vec![0xFFu8; 256 * 1024]),
        ("junk.cr2", vec![0x49u8; 256 * 1024]),
        ("junk.nef", vec![0u8; 256 * 1024]),
    ] {
        assert_eq!(
            decoder_for(name, &bytes),
            Err("not a recognisable RAW file".to_string()),
            "{name} should not decode"
        );
    }
    // Anything else goes to the standard decoder, which reports its own errors.
    assert_eq!(decoder_for("junk.jpg", &vec![0u8; 4096]), Ok(Decoder::Standard));
    let mut nef = b"II\x2a\x00".to_vec();
    nef.resize(128 * 1024, 0);
    assert_eq!(decoder_for("DSC_0001.NEF", &nef), Ok(Decoder::Raw));
}

#[test]
fn exif_orientation_values_map_onto_turns() {
    assert_eq!(exif_orientation(Some(6)), Orientation::Rotate90);
    assert_eq!(exif_orientation(Some(8)), Orientation::Rotate270);
    assert_eq!(exif_orientation(Some(3)), Orientation::Rotate180);
    assert_eq!(exif_orientation(Some(1)), Orientation::Normal);
    assert_eq!(exif_orientation(Some(9)), Orientation::Normal);
    assert_eq!(exif_orientation(None), Orientation::Normal);
}

#[test]
fn a_raw_camera_name_prefers_the_cleaned_fields() {
    assert_eq!(first_non_empty("  ", " Z 7 "), Some("Z 7".to_string()));
    assert_eq!(first_non_empty("", ""), None);
    assert_eq!(
        describe_camera("Nikon", "NIKON CORPORATION", "Z 7", "NIKON Z 7"),
        Some("Nikon Z 7".to_string())
    );
    assert_eq!(describe_camera("", "", "", "ILCE-7R"), Some("ILCE-7R".to_string()));
    assert_eq!(describe_camera("Sony", "SONY", " ", ""), None);
}
