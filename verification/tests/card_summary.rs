use phase::card_summary::{count_formats, detect_cameras};
use phase::exif::Header;
use phase::scan::{CardScan, IngestFile, Skipped};

fn file(rel: &str) -> IngestFile {
    IngestFile {
        rel_path: rel.to_string(),
        src_abs: format!("I:/{rel}"),
        size: 1,
        mtime: 0,
    }
}

fn header(make: Option<&str>, model: Option<&str>) -> Header {
    Header {
        make: make.map(str::to_string),
        model: model.map(str::to_string),
        orientation: None,
    }
}

#[test]
fn formats_are_counted_commonest_first_then_alphabetically() {
    let files = vec![
        file("DCIM/A.nef"),
        file("DCIM/B.NEF"),
        file("DCIM/C.CR2"),
        file("DCIM/D.ARW"),
        file("DCIM/E.NEF"),
    ];
    assert_eq!(
        count_formats(&files),
        vec![("NEF".to_string(), 3), ("ARW".to_string(), 1), ("CR2".to_string(), 1)]
    );
    assert!(count_formats(&[]).is_empty());
}

#[test]
fn a_card_describes_its_contents() {
    let files = vec![file("A.NEF"), file("B.NEF"), file("C.CR2")];
    let scan = CardScan {
        ext_counts: count_formats(&files),
        files,
        cameras: Vec::new(),
        skipped: Skipped::default(),
    };
    assert_eq!(scan.describe_contents(), "2 NEF, 1 CR2");
}

#[test]
fn each_camera_is_named_once_in_the_order_first_seen() {
    let headers = vec![
        header(Some("NIKON CORPORATION"), Some("NIKON Z 7")),
        header(None, None),
        header(Some("SONY"), Some("ILCE-7R")),
        header(Some("NIKON CORPORATION"), Some("NIKON Z 7")),
    ];
    assert_eq!(detect_cameras(&headers), vec!["Nikon Z 7".to_string(), "Sony ILCE-7R".to_string()]);
}
