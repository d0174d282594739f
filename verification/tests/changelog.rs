use phase::changelog::{parse, Block, Changelog, ReleaseNotes, Span};

fn plain(text: &str) -> Span {
    Span {
        text: text.into(),
        strong: false,
        code: false,
    }
}

#[test]
fn headings_bullets_and_paragraphs_are_told_apart() {
    let blocks = parse("### Fixes\n- Thumbnails refresh again\nPlain line");

    assert_eq!(
        blocks,
        vec![
            Block::Heading {
                level: 3,
                spans: vec![plain("Fixes")],
            },
            Block::Bullet(vec![plain("Thumbnails refresh again")]),
            Block::Paragraph(vec![plain("Plain line")]),
        ]
    );
}

#[test]
fn star_bullets_are_bullets_too() {
    assert_eq!(parse("* Starred"), vec![Block::Bullet(vec![plain("Starred")])]);
}

#[test]
fn a_hash_without_a_space_stays_plain_text() {
    assert_eq!(
        parse("#1234 is not a heading"),
        vec![Block::Paragraph(vec![plain("#1234 is not a heading")])]
    );
}

#[test]
fn runs_of_blank_lines_collapse_and_the_edges_are_trimmed() {
    let blocks = parse("\n\nOne\n\n\nTwo\n\n");

    assert_eq!(
        blocks,
        vec![
            Block::Paragraph(vec![plain("One")]),
            Block::Blank,
            Block::Paragraph(vec![plain("Two")]),
        ]
    );
}

#[test]
fn bold_and_code_runs_become_their_own_spans() {
    let blocks = parse("- **Fast** pulls from `staging`.");

    assert_eq!(
        blocks,
        vec![Block::Bullet(vec![
            Span {
                text: "Fast".into(),
                strong: true,
                code: false,
            },
            plain(" pulls from "),
            Span {
                text: "staging".into(),
                strong: false,
                code: true,
            },
            plain("."),
        ])]
    );
}

#[test]
fn an_unclosed_marker_is_left_alone() {
    assert_eq!(
        parse("2 ** 8 = 256"),
        vec![Block::Paragraph(vec![plain("2 ** 8 = 256")])]
    );
}

#[test]
fn notes_that_are_only_whitespace_produce_nothing() {
    assert!(parse("   \n\n  ").is_empty());
}

#[test]
fn heading_levels_and_windows_line_endings() {
    assert_eq!(
        parse("# One\r\n## Two"),
        vec![
            Block::Heading { level: 1, spans: vec![plain("One")] },
            Block::Heading { level: 2, spans: vec![plain("Two")] },
        ]
    );
}

#[test]
fn every_release_keeps_its_version_and_order() {
    let log = Changelog::from_releases(vec![
        ReleaseNotes { version: "1.9.0".into(), notes: "- New".into() },
        ReleaseNotes { version: "1.8.1".into(), notes: String::new() },
    ]);
    assert_eq!(log.entries.len(), 2);
    assert_eq!(log.entries[0].version, "1.9.0");
    assert_eq!(log.entries[0].blocks, vec![Block::Bullet(vec![plain("New")])]);
    assert!(log.entries[1].blocks.is_empty());
}
