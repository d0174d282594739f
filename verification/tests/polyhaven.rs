use phase::polyhaven::published_slugs;

#[test]
fn parses_published_asset_slugs_from_api_object_keys() {
    let body = br#"{ "a_slug": { "type": "hdri" }, "another_slug": { "type": "texture" } }"#;
    let published = published_slugs(body).unwrap();
    assert!(published.contains("a_slug"));
    assert!(published.contains("another_slug"));
}

#[test]
fn an_array_answer_gives_the_slug_of_each_item_that_has_one() {
    let body = br#"[ { "slug": "rock_01" }, { "name": "no slug" }, { "slug": 7 }, { "slug": "sand_02" } ]"#;
    let published = published_slugs(body).unwrap();
    assert_eq!(published.slugs, vec!["rock_01".to_string(), "sand_02".to_string()]);
}

#[test]
fn other_answers_name_nothing_and_non_json_is_refused() {
    assert!(published_slugs(b"42").unwrap().slugs.is_empty());
    assert!(published_slugs(b"not json").is_none());
}
