use phase::slug::{is_valid, message, validate, SlugProblem};

#[test]
fn slug_validation_reports_specific_invalid_characters() {
    assert!(is_valid("valid_slug_123"));
    assert_eq!(message("Bad-Slug").unwrap(), "Invalid slug: B - S");
}

#[test]
fn a_valid_slug_has_nothing_to_report() {
    assert_eq!(message("valid_slug_123"), None);
    assert!(validate("ok").is_empty());
    assert!(!is_valid("a b"));
    assert_eq!(validate("a b").len(), 1);
    let _: Vec<SlugProblem> = validate("X");
}
