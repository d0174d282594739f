use base64::engine::general_purpose::URL_SAFE_NO_PAD;
use base64::Engine as _;
use phase::auth::{
    access_token_step, apply_tokens, ensure_access_token, auth0_audience, authorization_url, build_authorization_url,
    callback_url, claim_string, decode_jwt_claims, error_http_response, first_non_empty_text,
    html_escape, is_admin_role, is_auth_required_error, keep_refresh_token, logged_in_identity,
    logged_in_status_text, now_unix_seconds, parse_callback_request, parse_query, phase_api_base_url, pkce_challenge,
    start_pkce_authorization, token_url, tokens_from_response, userinfo_url, AuthTokens, Credentials,
    LoggedInIdentity, TokenResponse, TokenStep, AUTH0_CLIENT_ID, AUTH0_DOMAIN, AUTH0_SCOPE,
};

#[test]
fn auth0_pkce_flow_uses_public_phase_client_audience_and_localhost_callback() {
    assert_eq!(AUTH0_CLIENT_ID, "26DJQIiBvq9Y4Ac3VZ0qeAbjdvYa9LEo");
    assert_eq!(AUTH0_DOMAIN, "polyhavenadmin.eu.auth0.com");
    assert_eq!(auth0_audience(), "https://admin.polyhaven.com/api/phase");
    assert_eq!(AUTH0_SCOPE, "openid profile email offline_access");
    assert_eq!(
        authorization_url(),
        "https://polyhavenadmin.eu.auth0.com/authorize"
    );
    assert_eq!(
        token_url(),
        "https://polyhavenadmin.eu.auth0.com/oauth/token"
    );
    assert_eq!(callback_url(), "http://127.0.0.1:45873/callback");
}

#[test]
fn pkce_challenge_matches_rfc7636_example() {
    assert_eq!(
        pkce_challenge("dBjftJeZ4CVP-mB92K27uhbUJU1p1r_wW1gFWFOEjXk"),
        "E9Melhoa2OwvFrEMTJguCHaoeK1t8URWbuGJSstw-cM"
    );
}

#[test]
fn authorization_url_contains_pkce_and_phase_api_audience() {
    let url = build_authorization_url("verifier", "state value", callback_url());

    assert!(url.starts_with("https://polyhavenadmin.eu.auth0.com/authorize?"));
    assert!(url.contains("response_type=code"));
    assert!(url.contains("client_id=26DJQIiBvq9Y4Ac3VZ0qeAbjdvYa9LEo"));
    assert!(url.contains("redirect_uri=http%3A%2F%2F127.0.0.1%3A45873%2Fcallback"));
    assert!(url.contains("scope=openid%20profile%20email%20offline_access"));
    assert!(url.contains("audience=https%3A%2F%2Fadmin.polyhaven.com%2Fapi%2Fphase"));
    assert!(url.contains("code_challenge_method=S256"));
    assert!(url.contains("state=state%20value"));
}

#[test]
fn parses_authorization_code_from_callback_request() {
    let request =
        "GET /callback?code=auth-code&state=expected HTTP/1.1\r\nHost: 127.0.0.1\r\n\r\n";

    assert_eq!(
        parse_callback_request(request, "expected").unwrap(),
        "auth-code"
    );
}

#[test]
fn rejects_callback_with_wrong_state() {
    let request =
        "GET /callback?code=auth-code&state=wrong HTTP/1.1\r\nHost: 127.0.0.1\r\n\r\n";

    assert!(parse_callback_request(request, "expected")
        .unwrap_err()
        .to_string()
        .contains("state mismatch"));
}

#[test]
fn debug_build_uses_local_phase_backend() {
    assert_eq!(phase_api_base_url(true), "http://localhost:3001/");
}

#[test]
fn token_expiry_from_expires_in_is_recorded_as_unix_seconds() {
    let tokens = tokens_from_response(
        TokenResponse {
            access_token: "access".into(),
            refresh_token: Some("refresh".into()),
            expires_in: Some(3600),
            token_type: "Bearer".into(),
            error: None,
            error_description: None,
        },
        10,
    )
    .unwrap();

    assert_eq!(tokens.access_token, "access");
    assert_eq!(tokens.refresh_token, "refresh");
    assert_eq!(tokens.expires_at, Some(3610));
}

fn token_with(payload_json: &str) -> String {
    let payload = URL_SAFE_NO_PAD.encode(payload_json.as_bytes());
    format!("header.{payload}.signature")
}

#[test]
fn logged_in_identity_prefers_standard_claims_and_role_arrays() {
    let token = token_with(
        r#"{"name":"Ada Lovelace","email":"ada@example.com","https://admin.polyhaven.com/roles":["admin","editor"]}"#,
    );

    let identity = logged_in_identity(&token).unwrap();
    assert_eq!(identity.name, "Ada Lovelace");
    assert_eq!(identity.role, "admin, editor");
}

#[test]
fn logged_in_identity_falls_back_to_email_prefix_and_unknown_role() {
    let token = token_with(r#"{"email":"ada@example.com"}"#);

    let identity = logged_in_identity(&token).unwrap();
    assert_eq!(identity.name, "ada");
    assert_eq!(identity.user_id, "Unknown");
    assert_eq!(identity.role, "Unknown");
}

#[test]
fn logged_in_identity_uses_user_id_when_no_name_claim_is_present() {
    let token = token_with(r#"{"sub":"auth0|abc123","role":"editor"}"#);

    let identity = logged_in_identity(&token).unwrap();
    assert_eq!(identity.name, "auth0|abc123");
    assert_eq!(identity.user_id, "auth0|abc123");
    assert_eq!(identity.role, "editor");
}

#[test]
fn fetch_logged_in_identity_uses_userinfo_name_when_available() {
    let token = token_with(r#"{"sub":"auth0|abc123","role":"editor"}"#);

    let claims = decode_jwt_claims(&token).unwrap();
    let name = first_non_empty_text(&[
        Some("Ada Lovelace"),
        None,
        None,
        Some("ada@example.com"),
    ])
    .unwrap();
    assert_eq!(name, "Ada Lovelace");
    assert_eq!(
        claim_string(
            &claims,
            &[
                "role",
                "roles",
                "https://admin.polyhaven.com/role",
                "https://admin.polyhaven.com/roles",
                "https://polyhaven.com/role",
                "https://polyhaven.com/roles",
            ],
        ),
        Some("editor".into())
    );
}

#[test]
fn a_token_that_is_not_a_jwt_names_nobody() {
    assert!(logged_in_identity("not-a-token").is_none());
    assert!(logged_in_identity("a.!!!.c").is_none());
    // Valid JSON that is not an object carries no claims: everything is unknown.
    assert_eq!(decode_jwt_claims(&token_with("[1,2]")).map(|c| c.len()), Some(0));
    let nobody = logged_in_identity(&token_with("[1,2]")).unwrap();
    assert_eq!((nobody.name.as_str(), nobody.role.as_str()), ("Unknown", "Unknown"));
}

#[test]
fn a_release_build_talks_to_the_public_backend() {
    assert_eq!(phase_api_base_url(false), "https://admin.polyhaven.com/");
    assert_eq!(userinfo_url(), "https://polyhavenadmin.eu.auth0.com/userinfo");
}

#[test]
fn expired_access_token_requires_refresh_before_api_calls() {
    let cfg = Credentials {
        auth_access_token: "access".into(),
        auth_refresh_token: "refresh".into(),
        auth_expires_at: Some(1_000),
    };

    assert!(cfg.access_token_expired_at(940));
    assert!(cfg.access_token_expired_at(1_000));
    assert!(!cfg.access_token_expired_at(939));
    assert!(cfg.can_refresh_access_token());
}

#[test]
fn a_fresh_token_is_used_and_a_stale_one_is_refreshed() {
    let mut cfg = Credentials {
        auth_access_token: String::new(),
        auth_refresh_token: String::new(),
        auth_expires_at: None,
    };
    assert_eq!(access_token_step(&cfg, 0), TokenStep::LoginRequired);
    apply_tokens(
        &mut cfg,
        &AuthTokens {
            access_token: "a1".into(),
            refresh_token: "r1".into(),
            expires_at: Some(5_000),
        },
    );
    assert_eq!(access_token_step(&cfg, 100), TokenStep::UseCurrent("a1".into()));
    assert_eq!(access_token_step(&cfg, 4_950), TokenStep::Refresh("r1".into()));
    let refreshed = keep_refresh_token(
        AuthTokens {
            access_token: "a2".into(),
            refresh_token: String::new(),
            expires_at: Some(9_000),
        },
        "r1",
    );
    assert_eq!(refreshed.refresh_token, "r1");
    assert_eq!(refreshed.access_token, "a2");
}

#[test]
fn token_errors_are_reported_rather_than_stored() {
    let err = tokens_from_response(
        TokenResponse {
            access_token: String::new(),
            refresh_token: None,
            expires_in: None,
            token_type: "Bearer".into(),
            error: Some("invalid_grant".into()),
            error_description: Some("Unknown or invalid refresh token.".into()),
        },
        10,
    )
    .unwrap_err();
    assert_eq!(err, "Unknown or invalid refresh token.");
    assert!(is_auth_required_error("Authentication required: please log in"));
    assert!(!is_auth_required_error("disk full"));
}

#[test]
fn callback_errors_and_missing_codes_are_refused() {
    assert!(parse_callback_request("POST /callback HTTP/1.1\r\n\r\n", "s").is_err());
    assert!(parse_callback_request("GET /elsewhere?code=x&state=s HTTP/1.1\r\n\r\n", "s").is_err());
    let denied = parse_callback_request(
        "GET /callback?error=access_denied&error_description=No%20thanks&state=s HTTP/1.1\r\n\r\n",
        "s",
    )
    .unwrap_err();
    assert_eq!(denied, "Authentication required: Auth0 login failed: No thanks");
    assert!(parse_callback_request("GET /callback?state=s HTTP/1.1\r\n\r\n", "s").is_err());
}

#[test]
fn query_strings_are_percent_decoded() {
    let pairs = parse_query("a=b%20c&flag&d=%2F").unwrap();
    assert_eq!(
        pairs,
        vec![
            ("a".to_string(), "b c".to_string()),
            ("flag".to_string(), String::new()),
            ("d".to_string(), "/".to_string()),
        ]
    );
}

#[test]
fn error_pages_escape_what_they_show() {
    assert_eq!(html_escape("<a & \"b\">'"), "&lt;a &amp; \"b\"&gt;'");
    let page = error_http_response("bad <state>");
    assert!(page.starts_with("HTTP/1.1 400 Bad Request"));
    assert!(page.contains("bad &lt;state&gt;"));
}

#[test]
fn each_login_gets_its_own_secrets() {
    let a = start_pkce_authorization();
    let b = start_pkce_authorization();
    assert_eq!(a.code_verifier().len(), 64);
    assert_ne!(a.code_verifier(), b.code_verifier());
    assert_ne!(a.state(), b.state());
    assert!(a.login.auth_url.contains(&pkce_challenge(a.code_verifier())));
    assert_eq!(a.login.redirect_uri, callback_url());
}

#[test]
fn idle_status_bar_shows_logged_in_identity() {
    let identity = LoggedInIdentity {
        name: "Ada".into(),
        user_id: "auth0|abc123".into(),
        role: "admin".into(),
    };
    assert_eq!(
        logged_in_status_text(Some(&identity), true).as_deref(),
        Some("Logged in as Ada [admin]")
    );
    assert_eq!(
        logged_in_status_text(None, true).as_deref(),
        Some("Logged in as Unknown [Unknown]")
    );
    assert_eq!(logged_in_status_text(None, false), None);
}

#[test]
fn admin_role_detection_accepts_comma_separated_roles() {
    assert!(is_admin_role("Admin, Editor"));
    assert!(is_admin_role("admin"));
    assert!(!is_admin_role("editor, administrator"));
}

#[test]
fn the_clock_reads_unix_seconds() {
    assert!(now_unix_seconds() > 1_600_000_000);
}

#[test]
fn the_token_step_now_follows_what_is_stored() {
    let none = Credentials { auth_access_token: " ".into(), auth_refresh_token: String::new(), auth_expires_at: None };
    let step = ensure_access_token(&none);
    assert_eq!(step, TokenStep::LoginRequired);
    let message = step.login_error().unwrap();
    assert_eq!(message, "Authentication required: please log in");
    assert!(is_auth_required_error(&message));

    let refresh_only = Credentials { auth_access_token: String::new(), auth_refresh_token: "rt".into(), auth_expires_at: None };
    let step = ensure_access_token(&refresh_only);
    assert_eq!(step, TokenStep::Refresh("rt".into()));
    assert!(step.login_error().is_none());

    let good = Credentials {
        auth_access_token: "at".into(),
        auth_refresh_token: "rt".into(),
        auth_expires_at: Some(now_unix_seconds() + 3600),
    };
    assert_eq!(ensure_access_token(&good), TokenStep::UseCurrent("at".into()));
}
