use phase::asset::{transfer_plan_roots, AssetType, RowKey, TransferAction, TransferKind};
use phase::copy_plan::{Direction, PullFilterMode};

#[test]
fn asset_types_have_their_names() {
    assert_eq!(AssetType::all(), vec![AssetType::Hdris, AssetType::Textures]);
    assert_eq!(AssetType::Hdris.label(), "HDRIs");
    assert_eq!(AssetType::Textures.folder(), "Textures");
    assert_eq!(AssetType::Hdris.api_type(), "hdris");
    assert_eq!(AssetType::from_label("Textures"), Some(AssetType::Textures));
    assert_eq!(AssetType::from_label("textures"), None);
    for t in AssetType::all() {
        assert_eq!(AssetType::from_label(t.label()), Some(t));
    }
}

#[test]
fn transfer_menus_offer_every_action_once() {
    let all = TransferAction::all();
    assert_eq!(all.len(), 5);
    assert_eq!(TransferAction::default_push().direction(), Direction::Push);
    assert_eq!(TransferAction::default_pull().direction(), Direction::Pull);
    assert_eq!(TransferAction::default_pull().menu_label(), "Pull without raws/tiffs");
    assert_eq!(TransferAction::default_pull().default_suffix(), " (default)");
    assert_eq!(TransferAction::PullAll.default_suffix(), "");
    assert_eq!(TransferAction::PushStagingOnly.kind(), TransferKind::Push);
    assert_eq!(TransferAction::PullAll.nothing_label(), "nothing to pull");
    assert!(TransferKind::Archive.touches_archive());
    assert!(!TransferKind::Pull.touches_archive());
    assert_eq!(TransferKind::Unarchive.progressive(), "Unarchiving");
    assert_eq!(TransferKind::Push.done_label(), "Pushed to prod");
}

#[test]
fn each_transfer_knows_its_folders() {
    let key = RowKey { asset_type: AssetType::Hdris, slug: "sky".into() };
    let (src, dst, filter) = transfer_plan_roots("C:/PHASE", "P:/Assets", &key, TransferAction::PullDefault);
    assert_eq!((src.as_str(), dst.as_str()), ("P:/Assets/HDRIs/sky", "C:/PHASE/HDRIs/sky"));
    assert_eq!(filter, PullFilterMode::AlwaysSkipRawAndTif);
    let (src, dst, filter) = transfer_plan_roots("C:/PHASE", "P:/Assets", &key, TransferAction::PushStagingOnly);
    assert_eq!((src.as_str(), dst.as_str()), ("C:/PHASE/HDRIs/sky/staging", "P:/Assets/HDRIs/sky/staging"));
    assert_eq!(filter, PullFilterMode::NoFilter);
}
