use phase::asset::{AssetType, RowKey};
use phase::thumbnails::{
    is_thumbnail_cache_file, prune_positions, source_path, thumbnail_cache_file_name, thumbnail_cache_path,
    thumbnail_source_path_from_roots, ThumbnailFormat, ThumbnailSignature,
};

#[test]
fn thumbnail_cache_key_includes_asset_type_namespace() {
    let cache_root = "C:/cache/thumbnails";
    let signature = ThumbnailSignature {
        asset_type: AssetType::Hdris,
        slug: "asset".into(),
        source_mtime: 1_700_000_000,
        source_size: 12_345,
    };
    let other_signature = ThumbnailSignature {
        asset_type: AssetType::Textures,
        slug: "asset".into(),
        source_mtime: 1_700_000_000,
        source_size: 12_345,
    };

    let cache_path = thumbnail_cache_path(cache_root, &signature, ThumbnailFormat::WebP);
    let other_cache_path = thumbnail_cache_path(cache_root, &other_signature, ThumbnailFormat::WebP);
    let filename = thumbnail_cache_file_name(&signature, ThumbnailFormat::WebP);

    assert!(cache_path.starts_with("C:/cache/thumbnails/hdris"));
    assert!(cache_path.starts_with("C:/cache/thumbnails/hdris/asset"));
    assert!(other_cache_path.starts_with("C:/cache/thumbnails/textures/asset"));
    assert_ne!(cache_path, other_cache_path);
    assert_eq!(filename, "1700000000-12345.webp");
    assert!(filename.ends_with(".webp"));
    assert_eq!(cache_path, "C:/cache/thumbnails/hdris/asset/1700000000-12345.webp");
}

#[test]
fn thumbnail_source_prefers_local_source_then_prod() {
    let key = RowKey {
        asset_type: AssetType::Hdris,
        slug: "asset".into(),
    };
    let local_source = "T:/local/HDRIs/asset/staging/renders/primary.png".to_string();
    let prod_source = "T:/prod/HDRIs/asset/staging/renders/primary.png".to_string();

    // Only prod has the file.
    assert_eq!(
        thumbnail_source_path_from_roots("T:/local", "T:/prod", &key, false, true),
        Some(prod_source.clone())
    );
    // Once the local file exists it wins.
    assert_eq!(
        thumbnail_source_path_from_roots("T:/local", "T:/prod", &key, true, true),
        Some(local_source)
    );
    assert_eq!(thumbnail_source_path_from_roots("T:/local", "T:/prod", &key, false, false), None);
    assert_eq!(source_path("T:/prod", "HDRIs", "asset"), prod_source);
}

#[test]
fn only_named_images_count_as_cached_thumbnails() {
    assert!(is_thumbnail_cache_file("C:/c/hdris/a/1700000000-12345.webp"));
    assert!(is_thumbnail_cache_file("C:/c/hdris/a/1-2.png"));
    assert!(!is_thumbnail_cache_file("C:/c/hdris/a/notes.webp"));
    assert!(!is_thumbnail_cache_file("C:/c/hdris/a/1-2.txt"));
    assert_eq!(ThumbnailFormat::Jpeg.extension(), "jpg");
}

#[test]
fn thumbnail_pruning_removes_entries_older_than_60_days() {
    let signature = ThumbnailSignature {
        asset_type: AssetType::Hdris,
        slug: "asset".into(),
        source_mtime: 1_700_000_000,
        source_size: 12_345,
    };
    let fresh = thumbnail_cache_path("cache", &signature, ThumbnailFormat::WebP);
    let stale = thumbnail_cache_path(
        "cache",
        &ThumbnailSignature {
            asset_type: AssetType::Textures,
            slug: "old".into(),
            source_mtime: 1_700_000_001,
            source_size: 9_999,
        },
        ThumbnailFormat::Png,
    );
    let now = 1_800_000_000;
    let files = vec![(fresh, now), (stale, 1_500_000_000), ("cache/notes.txt".to_string(), 1)];
    assert_eq!(prune_positions(&files, now), vec![1]);

    // Just inside the 60 days a thumbnail stays; just outside it goes.
    let files = vec![("c/a/1-2.png".to_string(), now - 5_184_000), ("c/a/1-3.png".to_string(), now - 5_184_001)];
    assert_eq!(prune_positions(&files, now), vec![1]);
    assert!(prune_positions(&files, 100).is_empty());
}
