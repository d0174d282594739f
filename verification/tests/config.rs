use phase::config::{
    cache_dir_in, choose_loaded, config_path, default_local_root, default_open_notion_links_in_desktop_app,
    default_prod_root, default_skip_pull_raw_tif_if_many_work_tifs, log_path, LoadChoice,
};

/// A configuration file's text with the four fields the recovery test follows.
fn config_text(access: &str, refresh: &str, expires_at: i64, local_root: &str) -> String {
    let mut t = toml::Table::new();
    t.insert("auth_access_token".into(), toml::Value::String(access.into()));
    t.insert("auth_refresh_token".into(), toml::Value::String(refresh.into()));
    t.insert("auth_expires_at".into(), toml::Value::Integer(expires_at));
    t.insert("local_root".into(), toml::Value::String(local_root.into()));
    toml::to_string(&toml::Value::Table(t)).unwrap()
}

fn parsed(text: &str) -> Result<toml::Value, String> {
    toml::from_str::<toml::Value>(text).map_err(|e| e.to_string())
}

#[test]
fn load_recovers_from_a_corrupted_primary_config_using_the_backup() {
    // The first save; the second, with a changed root, keeps the first as its backup;
    // then the primary file is corrupted.
    let first = config_text("access", "refresh", 12345, r"C:\PHASE");
    let second = config_text("access", "refresh", 12345, r"C:\PHASE\changed");
    assert!(parsed(&second).is_ok());
    let backup_file = first;
    let primary_file = "this is not valid toml".to_string();
    assert_eq!(phase::manifest::backup_path("config.toml"), "config.toml.bak");

    let chosen = choose_loaded(parsed(&primary_file), Some(parsed(&backup_file)), true);
    match chosen {
        LoadChoice::Loaded(cfg) => {
            assert_eq!(cfg["auth_access_token"].as_str(), Some("access"));
            assert_eq!(cfg["auth_refresh_token"].as_str(), Some("refresh"));
            assert_eq!(cfg["auth_expires_at"].as_integer(), Some(12345));
            assert_eq!(cfg["local_root"].as_str(), Some(r"C:\PHASE"));
        }
        other => panic!("unexpected {other:?}"),
    }
}

#[test]
fn a_first_start_uses_the_defaults_and_a_broken_file_is_reported() {
    assert!(matches!(choose_loaded::<u8>(Err("missing".into()), None, false), LoadChoice::Defaults));
    match choose_loaded::<u8>(Err("bad".into()), None, true) {
        LoadChoice::Failed(e) => assert_eq!(e, "bad"),
        other => panic!("unexpected {other:?}"),
    }
    match choose_loaded::<u8>(Err("bad".into()), Some(Err("worse".into())), true) {
        LoadChoice::Failed(e) => assert_eq!(e, "bad"),
        other => panic!("unexpected {other:?}"),
    }
    assert!(matches!(choose_loaded::<u8>(Ok(7), Some(Ok(8)), true), LoadChoice::Loaded(7)));
}

#[test]
fn the_application_files_live_in_its_directory() {
    assert_eq!(config_path(r"C:\Users\a\AppData\Roaming\phase"), r"C:\Users\a\AppData\Roaming\phase/config.toml");
    assert_eq!(log_path("D:/phase"), "D:/phase/phase.log");
    assert_eq!(cache_dir_in("D:/phase/"), "D:/phase/cache");
}

#[test]
fn skip_pull_raw_tif_if_many_work_tifs_defaults_to_enabled() {
    assert!(default_skip_pull_raw_tif_if_many_work_tifs());
}

#[test]
fn a_fresh_configuration_points_at_the_studio_drives() {
    assert_eq!(default_prod_root(), r"P:\Assets");
    assert_eq!(default_local_root(), r"C:\PHASE");
    assert!(!default_open_notion_links_in_desktop_app());
}
