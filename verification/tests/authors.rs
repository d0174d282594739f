use phase::authors::{
    author_filters_for_type, author_filters_for_types, initial_author_filters,
    abbreviate_names, author_filter_display, author_filter_display_abbrev, author_filter_options,
    author_filter_options_with_current, contains_any, first_name, names, normalize_author_filters,
    select_author_filters,
};
use phase::asset::AssetType;
use phase::notion::{Asset, AssetList, StatusGroup};

fn short(map: &[(String, String)], full: &str) -> String {
    map.iter().find(|(name, _)| name == full).map(|(_, s)| s.clone()).unwrap()
}

#[test]
fn contains_any_selected_author() {
    assert!(contains_any("Alice, Bob", &["Carol".into(), "Bob".into()]));
    assert!(!contains_any("Alice, Bob", &["Carol".into()]));
    assert!(contains_any("Alice, Bob", &[]));
}

#[test]
fn normal_click_selects_only_clicked_author() {
    let authors = vec!["Alice".into(), "Bob".into(), "Carol".into(), "Didier".into()];
    let selection = select_author_filters(vec!["Alice".into(), "Carol".into()], &authors, 1, false);

    assert_eq!(selection, vec!["Bob".to_string()]);
}

#[test]
fn shift_click_adds_only_clicked_author() {
    let authors = vec!["Alice".into(), "Bob".into(), "Carol".into(), "Didier".into()];
    let selection = select_author_filters(vec!["Bob".into()], &authors, 3, true);

    assert_eq!(selection, vec!["Bob".to_string(), "Didier".to_string()]);
}

#[test]
fn abbreviate_uses_first_name_when_unique() {
    let authors = vec!["Alice Smith".into(), "Bob Jones".into()];
    let map = abbreviate_names(&authors);
    assert_eq!(short(&map, "Alice Smith"), "Alice");
    assert_eq!(short(&map, "Bob Jones"), "Bob");
}

#[test]
fn abbreviate_uses_full_name_when_first_names_collide() {
    let authors = vec!["Alice Smith".into(), "Alice Brown".into(), "Bob Jones".into()];
    let map = abbreviate_names(&authors);
    assert_eq!(short(&map, "Alice Smith"), "Alice Smith");
    assert_eq!(short(&map, "Alice Brown"), "Alice Brown");
    assert_eq!(short(&map, "Bob Jones"), "Bob");
}

#[test]
fn author_filter_options_split_multi_author_combinations_into_people() {
    let options = author_filter_options(&[
        "Alice, Bob".to_string(),
        "Bob, Carol".to_string(),
        "Alice".to_string(),
        String::new(),
    ]);
    assert_eq!(options, vec!["Alice", "Bob", "Carol"]);
}

#[test]
fn author_filter_options_include_current_selection_even_without_matching_assets() {
    let options = author_filter_options_with_current(&["Alice, Bob".to_string()], &["Carol".into()]);
    assert_eq!(options, vec!["Alice", "Bob", "Carol"]);
}

#[test]
fn author_filter_combo_width_test_is_context_dependent() {
    // The combo width depends on font metrics from the interface, so nothing about it is
    // checked here; what the combo lists is checked above.
}

#[test]
fn author_list_excludes_authors_whose_assets_dont_match_status_filter() {
    let assets = [("Greg", StatusGroup::Complete), ("Didier", StatusGroup::InProgress)];
    let status_filter = &[StatusGroup::InProgress];

    let authors: Vec<String> = assets
        .iter()
        .filter(|(_, group)| status_filter.contains(group))
        .map(|(author, _)| author.to_string())
        .collect();

    let options = author_filter_options(&authors);
    assert_eq!(options, vec!["Didier"]);
    assert!(!options.iter().any(|o| o == "Greg"));
}

#[test]
fn names_are_split_on_commas_and_trimmed() {
    assert_eq!(names(" Alice ,Bob,, "), vec!["Alice".to_string(), "Bob".to_string()]);
    assert!(names("").is_empty());
    assert_eq!(first_name("  Alice   Smith "), "Alice");
}

#[test]
fn a_selection_is_kept_sorted_and_without_repeats() {
    let mut filters = vec!["Carol".to_string(), String::new(), "Alice".to_string(), "Carol".to_string()];
    normalize_author_filters(&mut filters);
    assert_eq!(filters, vec!["Alice".to_string(), "Carol".to_string()]);
}

#[test]
fn the_filter_button_names_who_is_selected() {
    assert_eq!(author_filter_display(&[]), "All authors");
    assert_eq!(author_filter_display(&["Alice".into(), "Bob".into()]), "Alice, Bob");
    let abbrev = abbreviate_names(&["Alice Smith".into(), "Bob Jones".into()]);
    assert_eq!(
        author_filter_display_abbrev(&["Alice Smith".into(), "Bob Jones".into()], &abbrev),
        "Alice, Bob"
    );
}

fn listed(slug: &str, author: &str) -> Asset {
    Asset {
        page_id: slug.into(),
        slug: slug.into(),
        author: author.into(),
        authors: Vec::new(),
        author_profiles: Vec::new(),
        url: String::new(),
        status: None,
    }
}

#[test]
fn all_authors_persistence_does_not_fall_back_to_legacy_per_type_filter() {
    // Only the legacy per-type single filter ("Stale Author" for HDRIs) was ever saved;
    // it is not read back.
    let filters = initial_author_filters(&[], &[], "", &[AssetType::Hdris]);
    assert!(filters.is_empty());
    assert!(filters.first().cloned().unwrap_or_default().is_empty());
}

#[test]
fn selected_asset_types_combine_saved_author_filters_per_type() {
    let saved = vec![
        ("HDRIs".to_string(), vec!["Dario".to_string()]),
        ("Textures".to_string(), vec!["Charlotte".to_string()]),
    ];
    let filters = initial_author_filters(&saved, &[], "", &[AssetType::Hdris, AssetType::Textures]);

    assert_eq!(filters, vec!["Charlotte".to_string(), "Dario".to_string()]);
    assert_eq!(filters.first().cloned().unwrap_or_default(), "Charlotte");
}

#[test]
fn persisting_author_filters_partitions_selection_by_asset_type() {
    let filters = vec!["Charlotte".to_string(), "Dario".to_string()];
    let hdris = AssetList { assets: vec![listed("hdri", "Dario")], statuses: Vec::new() };
    let textures = AssetList { assets: vec![listed("texture", "Charlotte")], statuses: Vec::new() };

    assert_eq!(author_filters_for_type(&filters, Some(&hdris)), vec!["Dario".to_string()]);
    assert_eq!(author_filters_for_type(&filters, Some(&textures)), vec!["Charlotte".to_string()]);
    // A type whose list has not loaded keeps the whole selection; nothing selected saves nothing.
    assert_eq!(author_filters_for_type(&filters, None), filters);
    assert!(author_filters_for_type(&[], Some(&hdris)).is_empty());
}

#[test]
fn older_saved_filters_are_still_read() {
    assert_eq!(
        initial_author_filters(&[], &["Zoe".into(), "Ada".into()], "Ignored", &[AssetType::Hdris]),
        vec!["Ada".to_string(), "Zoe".to_string()]
    );
    assert_eq!(
        initial_author_filters(&[], &[], "Ada", &[AssetType::Hdris]),
        vec!["Ada".to_string()]
    );
}

#[test]
fn what_is_saved_for_a_type_comes_back() {
    let filters = vec!["Charlotte".to_string(), "Dario".to_string()];
    let hdris = AssetList { assets: vec![listed("hdri", "Dario, Eve")], statuses: Vec::new() };
    let kept = author_filters_for_type(&filters, Some(&hdris));
    let saved = vec![("HDRIs".to_string(), kept.clone())];
    assert_eq!(author_filters_for_types(&saved, &[AssetType::Hdris]), kept);
    assert!(author_filters_for_types(&saved, &[AssetType::Textures]).is_empty());
}
