use phase::asset::AssetType;
use phase::asset_types::{self, from_labels, labels};
use phase::notion::StatusGroup;
use phase::status_groups;

#[test]
fn normal_click_selects_only_clicked_type() {
    let selected = asset_types::select(vec![AssetType::Hdris, AssetType::Textures], AssetType::Textures, false);

    assert_eq!(selected, vec![AssetType::Textures]);
}

#[test]
fn asset_types_shift_click_adds_or_removes_without_emptying_selection() {
    let selected = asset_types::select(vec![AssetType::Hdris], AssetType::Textures, true);
    assert_eq!(selected, vec![AssetType::Hdris, AssetType::Textures]);

    let selected = asset_types::select(selected, AssetType::Textures, true);
    assert_eq!(selected, vec![AssetType::Hdris]);

    let selected = asset_types::select(vec![AssetType::Hdris], AssetType::Hdris, true);
    assert_eq!(selected, vec![AssetType::Hdris]);
}

#[test]
fn defaults_to_in_progress_without_persistence() {
    assert_eq!(StatusGroup::default_filter(), vec![StatusGroup::InProgress]);
}

#[test]
fn status_groups_shift_click_adds_or_removes_without_emptying_selection() {
    let selected = status_groups::select(vec![StatusGroup::InProgress], StatusGroup::Complete, true);
    assert_eq!(selected, vec![StatusGroup::InProgress, StatusGroup::Complete]);

    let selected = status_groups::select(selected, StatusGroup::Complete, true);
    assert_eq!(selected, vec![StatusGroup::InProgress]);

    let selected = status_groups::select(vec![StatusGroup::InProgress], StatusGroup::InProgress, true);
    assert_eq!(selected, vec![StatusGroup::InProgress]);
}

#[test]
fn two_shift_clicks_on_the_same_type_restore_the_selection() {
    let start = vec![AssetType::Hdris];
    let once = asset_types::select(start.clone(), AssetType::Textures, true);
    let twice = asset_types::select(once, AssetType::Textures, true);
    assert_eq!(twice, start);
}

#[test]
fn saved_selections_round_trip_through_their_labels() {
    let types = vec![AssetType::Textures, AssetType::Hdris];
    assert_eq!(from_labels(&labels(&types)), types);
    assert_eq!(from_labels(&["Nonsense".to_string()]), vec![AssetType::Hdris]);
}
