use phase::notion::{
    author_avatar_cache_key, author_avatar_cache_path, sort_for_display, Asset, AssetList,
    AssetStatus, AuthorProfile, StatusGroup, StatusOption,
};
use phase::polyhaven::{self, PublishedAssets};

fn asset(slug: &str) -> Asset {
    Asset {
        page_id: format!("page-{slug}"),
        slug: slug.into(),
        author: String::new(),
        authors: Vec::new(),
        author_profiles: Vec::new(),
        url: String::new(),
        status: None,
    }
}

fn option(id: &str, sort_order: usize) -> StatusOption {
    StatusOption {
        id: id.into(),
        name: id.into(),
        color: "default".into(),
        group: StatusGroup::InProgress,
        sort_order,
    }
}

#[test]
fn a_fetched_list_is_shown_by_slug_and_by_status_order() {
    let mut list = AssetList {
        assets: vec![asset("zebra"), asset("Beta"), asset("alpha"), asset("beta")],
        statuses: vec![option("review", 20), option("todo", 10), option("paid", 20)],
    };
    sort_for_display(&mut list);
    assert_eq!(
        list.assets.iter().map(|a| a.slug.as_str()).collect::<Vec<_>>(),
        vec!["alpha", "Beta", "beta", "zebra"]
    );
    assert_eq!(
        list.statuses.iter().map(|s| s.id.as_str()).collect::<Vec<_>>(),
        vec!["todo", "review", "paid"]
    );
}

#[test]
fn notion_group_names_are_read_loosely() {
    assert_eq!(StatusGroup::from_notion_group(" To-do "), Some(StatusGroup::ToDo));
    assert_eq!(StatusGroup::from_notion_group("In progress"), Some(StatusGroup::InProgress));
    assert_eq!(StatusGroup::from_notion_group("COMPLETE"), Some(StatusGroup::Complete));
    assert_eq!(StatusGroup::from_notion_group("Ä"), None);
    assert_eq!(StatusGroup::from_notion_group("Someday"), None);
}

#[test]
fn the_status_groups_are_listed_in_their_order() {
    let all = StatusGroup::all();
    assert_eq!(all, vec![StatusGroup::ToDo, StatusGroup::InProgress, StatusGroup::Complete]);
    for (i, g) in all.iter().enumerate() {
        assert_eq!(g.order(), i);
    }
    assert_eq!(StatusGroup::InProgress.label(), "In progress");
}

#[test]
fn an_avatar_is_cached_under_the_hash_of_its_id_and_url() {
    let author = AuthorProfile {
        id: "user-1".into(),
        name: "Ada".into(),
        avatar_url: Some("https://example.com/a.png".into()),
    };
    let key = author_avatar_cache_key(&author);
    assert_eq!(key, blake3::hash(b"user-1|https://example.com/a.png").to_hex().to_string());
    assert_eq!(
        author_avatar_cache_path(&author, "C:/cache"),
        Some(format!("C:/cache/avatars/{key}.webp"))
    );
    let moved = AuthorProfile {
        avatar_url: Some("https://example.com/b.png".into()),
        ..author.clone()
    };
    assert_ne!(author_avatar_cache_key(&moved), key);
    let without = AuthorProfile { avatar_url: None, ..author };
    assert_eq!(author_avatar_cache_path(&without, "C:/cache"), None);
}

#[test]
fn published_slugs_are_looked_up_exactly() {
    let published = PublishedAssets { slugs: vec!["a_slug".into(), "another_slug".into()] };
    assert!(published.contains("a_slug"));
    assert!(published.contains("another_slug"));
    assert!(!published.contains("A_SLUG"));
    assert!(!PublishedAssets::new().contains("a_slug"));
    assert_eq!(polyhaven::cache_name(), "polyhaven_published");
}

#[test]
fn a_status_keeps_what_the_api_sent() {
    let status = AssetStatus {
        id: "review".into(),
        name: "Creative review".into(),
        color: "blue".into(),
        group: StatusGroup::InProgress,
        sort_order: 20,
    };
    assert_eq!(status.sort_order, 20);
    assert_eq!(status.color, "blue");
}
