use phase::asset::AssetType;
use phase::auth::Credentials;
use phase::notion::StatusGroup;
use phase::startup::startup_selection;

fn no_login() -> Credentials {
    Credentials { auth_access_token: String::new(), auth_refresh_token: "  ".into(), auth_expires_at: None }
}

#[test]
fn a_fresh_configuration_opens_on_the_last_tab_and_asks_for_a_login() {
    let s = startup_selection("Textures", &Vec::new(), &Vec::new(), &[], &[], "", &no_login());
    assert_eq!(s.selected_types, vec![AssetType::Textures]);
    assert_eq!(s.current_type, AssetType::Textures);
    assert_eq!(s.selected_status_groups, vec![StatusGroup::InProgress]);
    assert!(s.author_filters.is_empty());
    assert_eq!(s.author_filter, "");
    assert!(s.token_prompt_open);
}

#[test]
fn saved_selections_are_restored() {
    let types = vec!["Textures".to_string(), "HDRIs".to_string()];
    let groups = vec![StatusGroup::ToDo, StatusGroup::Complete];
    let filters = vec!["Rob".to_string(), "".to_string(), "Greg".to_string()];
    let creds = Credentials { auth_access_token: String::new(), auth_refresh_token: "r".into(), auth_expires_at: None };
    let s = startup_selection("HDRIs", &types, &groups, &[], &filters, "", &creds);
    assert_eq!(s.selected_types, vec![AssetType::Textures, AssetType::Hdris]);
    assert_eq!(s.current_type, AssetType::Textures);
    assert_eq!(s.selected_status_groups, groups);
    assert_eq!(s.author_filters, vec!["Greg".to_string(), "Rob".to_string()]);
    assert_eq!(s.author_filter, "Greg");
    assert!(!s.token_prompt_open);
}

#[test]
fn an_unknown_tab_falls_back_to_hdris() {
    let s = startup_selection("Models", &Vec::new(), &Vec::new(), &[], &[], "Rob", &no_login());
    assert_eq!(s.selected_types, vec![AssetType::Hdris]);
    assert_eq!(s.author_filters, vec!["Rob".to_string()]);
}
