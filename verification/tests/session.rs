use phase::asset::AssetType;
use phase::auth::{AuthTokens, BrowserLogin, Credentials};
use phase::notion::{AssetList, AssetListState};
use phase::session::{
    flush_pending, on_list_result, pump_auth, thumbnail_follow_up, AuthMsg, AuthOutcome, ListResult,
    ThumbnailFollowUp,
};

fn login(url: &str) -> BrowserLogin {
    BrowserLogin { auth_url: url.into(), redirect_uri: "http://127.0.0.1:45873/callback".into() }
}

fn tokens() -> AuthTokens {
    AuthTokens { access_token: "at".into(), refresh_token: "rt".into(), expires_at: Some(99) }
}

fn creds() -> Credentials {
    Credentials { auth_access_token: String::new(), auth_refresh_token: String::new(), auth_expires_at: None }
}

fn empty_list() -> AssetList {
    AssetList { assets: Vec::new(), statuses: Vec::new() }
}

#[test]
fn a_login_success_stores_tokens_and_ends_the_flow() {
    let mut current = None;
    let mut waiting = true;
    let mut prompt = true;
    let mut c = creds();
    let r = pump_auth(
        vec![AuthMsg::Started(login("a")), AuthMsg::Success(tokens()), AuthMsg::Error("late".into())],
        &mut current,
        &mut waiting,
        &mut prompt,
        &mut c,
    );
    assert!(matches!(r, AuthOutcome::LoggedIn));
    assert!(current.is_none());
    assert!(!waiting && !prompt);
    assert_eq!(c.auth_access_token, "at");
    assert_eq!(c.auth_refresh_token, "rt");
    assert_eq!(c.auth_expires_at, Some(99));
}

#[test]
fn a_login_error_keeps_the_prompt_and_a_start_shows_its_login() {
    let mut current = None;
    let mut waiting = true;
    let mut prompt = true;
    let mut c = creds();
    let r = pump_auth(vec![AuthMsg::Started(login("b"))], &mut current, &mut waiting, &mut prompt, &mut c);
    assert!(matches!(r, AuthOutcome::Waiting));
    assert_eq!(current.as_ref().map(|l| l.auth_url.as_str()), Some("b"));
    assert!(waiting);
    let r = pump_auth(vec![AuthMsg::Error("denied".into())], &mut current, &mut waiting, &mut prompt, &mut c);
    assert!(matches!(r, AuthOutcome::Failed(m) if m == "denied"));
    assert!(!waiting && prompt);
    assert_eq!(c.auth_access_token, "");
}

#[test]
fn lists_are_held_while_the_cursor_moves_and_shown_once_it_rests() {
    let mut lists: Vec<(AssetType, AssetListState)> = Vec::new();
    let mut pending: Vec<(AssetType, AssetList)> = Vec::new();
    let step = on_list_result(&mut lists, &mut pending, AssetType::Hdris, ListResult::Fetched(empty_list(), None), true);
    assert!(!step.shown && step.tokens.is_none());
    assert!(lists.is_empty());
    assert_eq!(pending.len(), 1);
    let step = on_list_result(&mut lists, &mut pending, AssetType::Hdris, ListResult::Fetched(empty_list(), Some(tokens())), true);
    assert_eq!(step.tokens, Some(tokens()));
    assert_eq!(pending.len(), 1);

    assert!(flush_pending(&mut lists, &mut pending, true).is_empty());
    assert_eq!(pending.len(), 1);
    assert_eq!(flush_pending(&mut lists, &mut pending, false), vec![AssetType::Hdris]);
    assert!(pending.is_empty());
    assert!(matches!(lists[0], (AssetType::Hdris, AssetListState::Loaded(_))));

    let step = on_list_result(&mut lists, &mut pending, AssetType::Textures, ListResult::Fetched(empty_list(), None), false);
    assert!(step.shown);
    assert_eq!(lists.len(), 2);
}

#[test]
fn a_failed_refresh_is_shown_and_asks_for_a_login_when_it_must() {
    let mut lists: Vec<(AssetType, AssetListState)> = Vec::new();
    let mut pending: Vec<(AssetType, AssetList)> = Vec::new();
    let step = on_list_result(
        &mut lists,
        &mut pending,
        AssetType::Hdris,
        ListResult::Failed("Authentication required: please log in".into()),
        false,
    );
    assert!(step.open_token_prompt && !step.shown);
    assert!(matches!(&lists[0].1, AssetListState::Error(m) if m.starts_with("Authentication")));
    let step = on_list_result(&mut lists, &mut pending, AssetType::Hdris, ListResult::Failed("timeout".into()), false);
    assert!(!step.open_token_prompt);
    assert_eq!(lists.len(), 1);
}

#[test]
fn a_thumbnail_made_from_a_stale_revision_is_made_again() {
    assert_eq!(thumbnail_follow_up(&Ok(3), 3, Some(3)), ThumbnailFollowUp::Show);
    assert_eq!(thumbnail_follow_up(&Ok(3), 3, Some(4)), ThumbnailFollowUp::Respawn);
    assert_eq!(thumbnail_follow_up(&Ok(3), 3, None), ThumbnailFollowUp::Show);
    assert_eq!(
        thumbnail_follow_up(&Err("Missing thumbnail source for rock".into()), 3, Some(4)),
        ThumbnailFollowUp::Forget
    );
    assert_eq!(thumbnail_follow_up(&Err("decode failed".into()), 3, Some(4)), ThumbnailFollowUp::Respawn);
    assert_eq!(thumbnail_follow_up(&Err("decode failed".into()), 3, Some(3)), ThumbnailFollowUp::Warn);
}
