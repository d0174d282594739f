//! Logging in to the PHASE backend: Auth0's authorization-code flow with PKCE, the
//! tokens it hands out, and who they say is logged in.
use vstd::prelude::*;
use base64::Engine as _;
use crate::text::{chars_of, extend, extend_str, find_from, has_prefix, owned, split_on, starts_with, string_of, trim, trim_str, views};

verus! {

pub const AUTH0_CLIENT_ID: &'static str = "26DJQIiBvq9Y4Ac3VZ0qeAbjdvYa9LEo";
pub const AUTH0_DOMAIN: &'static str = "polyhavenadmin.eu.auth0.com";
pub const AUTH0_SCOPE: &'static str = "openid profile email offline_access";
/// Where the login callback listens.
pub const AUTH_CALLBACK_BIND_ADDR: &'static str = "127.0.0.1:45873";
pub const AUTH_CALLBACK_URL: &'static str = "http://127.0.0.1:45873/callback";
/// How long the login callback waits for the browser.
pub const AUTH_CALLBACK_TIMEOUT_SECS: u64 = 600;

/// What a login or a refresh hands out.
#[derive(Debug, Clone, PartialEq, Eq)]
pub struct AuthTokens {
    pub access_token: String,
    pub refresh_token: String,
    /// Unix seconds at which the access token expires.
    pub expires_at: Option<u64>,
}

/// Who the access token says is logged in.
#[derive(Debug, Clone, PartialEq, Eq)]
pub struct LoggedInIdentity {
    pub name: String,
    pub user_id: String,
    pub role: String,
}

/// What the browser is sent to, and where it comes back.
#[derive(Debug, Clone, PartialEq, Eq)]
pub struct BrowserLogin {
    pub auth_url: String,
    pub redirect_uri: String,
}

/// A login in progress: the browser's part, and the secrets only this process knows.
#[derive(Debug, Clone, PartialEq, Eq)]
pub struct AuthorizationRequest {
    pub login: BrowserLogin,
    code_verifier: String,
    state: String,
}

/// What the login thread tells the interface.
#[derive(Debug)]
pub enum AuthMsg {
    Started(BrowserLogin),
    Success(AuthTokens),
    Error(String),
}

/// Auth0's answer to a token request.
#[derive(Debug, Clone)]
pub struct TokenResponse {
    pub access_token: String,
    pub refresh_token: Option<String>,
    pub expires_in: Option<u64>,
    pub token_type: String,
    pub error: Option<String>,
    pub error_description: Option<String>,
}

pub open spec fn authorize_text() -> Seq<char> {
    "https://"@ + AUTH0_DOMAIN@ + "/authorize"@
}

pub fn authorization_url() -> (r: String)
    ensures
        r@ == authorize_text(),
{
    let mut v = chars_of("https://");
    extend_str(&mut v, AUTH0_DOMAIN);
    extend_str(&mut v, "/authorize");
    string_of(&v)
}

pub fn token_url() -> (r: String)
    ensures
        r@ == "https://"@ + AUTH0_DOMAIN@ + "/oauth/token"@,
{
    let mut v = chars_of("https://");
    extend_str(&mut v, AUTH0_DOMAIN);
    extend_str(&mut v, "/oauth/token");
    string_of(&v)
}

pub fn userinfo_url() -> (r: String)
    ensures
        r@ == "https://"@ + AUTH0_DOMAIN@ + "/userinfo"@,
{
    let mut v = chars_of("https://");
    extend_str(&mut v, AUTH0_DOMAIN);
    extend_str(&mut v, "/userinfo");
    string_of(&v)
}

pub fn callback_url() -> (r: &'static str)
    ensures
        r@ == AUTH_CALLBACK_URL@,
{
    AUTH_CALLBACK_URL
}

/// The API the access token is for.
pub fn auth0_audience() -> (r: &'static str)
    ensures
        r@ == "https://admin.polyhaven.com/api/phase"@,
{
    "https://admin.polyhaven.com/api/phase"
}

/// The PHASE backend: a local one for debug builds, the live one otherwise.
pub fn phase_api_base_url(debug_build: bool) -> (r: &'static str)
    ensures
        r@ == (if debug_build {
            "http://localhost:3001/"@
        } else {
            "https://admin.polyhaven.com/"@
        }),
{
    if debug_build {
        "http://localhost:3001/"
    } else {
        "https://admin.polyhaven.com/"
    }
}

/// Seconds since the Unix epoch by the system clock; zero for a clock set before it.
#[verifier::external_body]
pub fn now_unix_seconds() -> (r: u64) {
    std::time::SystemTime::now().duration_since(std::time::UNIX_EPOCH).map(|d| d.as_secs()).unwrap_or(0)
}

pub open spec fn auth_required_prefix() -> Seq<char> {
    "Authentication required"@
}

/// Whether an error message asks the user to log in again.
pub fn is_auth_required_error(message: &str) -> (r: bool)
    ensures
        r == starts_with(message@, auth_required_prefix()),
{
    let m = chars_of(message);
    let p = chars_of("Authentication required");
    has_prefix(&m, &p)
}

// ---------------------------------------------------------------------------------------
// Tokens
// ---------------------------------------------------------------------------------------

pub open spec fn missing_token_text() -> Seq<char> {
    "Auth0 response did not include an access token"@
}

/// The tokens of a token response received at `now`: its error (described, if it has a
/// description) when it reports one, an error when it holds no access token, and
/// otherwise the tokens with the expiry turned into a time.
pub fn tokens_from_response(token: TokenResponse, now: u64) -> (r: Result<AuthTokens, String>)
    requires
        token.expires_in matches Some(e) ==> now + e <= u64::MAX,
    ensures
        token.error is Some ==> r is Err && r->Err_0@ == match token.error_description {
            Some(d) => d@,
            None => token.error->0@,
        },
        token.error is None && trim(token.access_token@).len() == 0 ==> r is Err && r->Err_0@
            == missing_token_text(),
        token.error is None && trim(token.access_token@).len() > 0 ==> r is Ok && r->Ok_0.access_token@
            == token.access_token@ && r->Ok_0.refresh_token@ == match token.refresh_token {
            Some(t) => t@,
            None => Seq::<char>::empty(),
        } && r->Ok_0.expires_at == match token.expires_in {
            Some(e) => Some((now + e) as u64),
            None => None,
        },
{
    match token.error {
        Some(error) => {
            return Err(
                match token.error_description {
                    Some(d) => d,
                    None => error,
                },
            );
        },
        None => {},
    }
    let t = trim_str(token.access_token.as_str());
    if t.len() == 0 {
        return Err(owned("Auth0 response did not include an access token"));
    }
    let refresh = match token.refresh_token {
        Some(r) => r,
        None => String::new(),
    };
    let expires_at = match token.expires_in {
        Some(e) => Some(now + e),
        None => None,
    };
    Ok(AuthTokens { access_token: token.access_token, refresh_token: refresh, expires_at })
}

/// The credentials the configuration keeps between runs.
#[derive(Debug, Clone, PartialEq, Eq)]
pub struct Credentials {
    pub auth_access_token: String,
    pub auth_refresh_token: String,
    pub auth_expires_at: Option<u64>,
}

/// How long before its expiry an access token is treated as expired.
pub const EXPIRY_MARGIN_SECS: u64 = 60;

impl Credentials {
    /// Whether the access token should be refreshed before a call at `now`: it expires
    /// within a minute, or its expiry is unknown.
    pub fn access_token_expired_at(&self, now_unix_seconds: u64) -> (r: bool)
        ensures
            r == match self.auth_expires_at {
                Some(e) => e <= now_unix_seconds + EXPIRY_MARGIN_SECS,
                None => true,
            },
    {
        match self.auth_expires_at {
            Some(expires_at) => expires_at as u128 <= now_unix_seconds as u128 + 60,
            None => true,
        }
    }

    pub fn can_refresh_access_token(&self) -> (r: bool)
        ensures
            r == (trim(self.auth_refresh_token@).len() > 0),
    {
        trim_str(self.auth_refresh_token.as_str()).len() > 0
    }

    pub fn has_access_token(&self) -> (r: bool)
        ensures
            r == (trim(self.auth_access_token@).len() > 0),
    {
        trim_str(self.auth_access_token.as_str()).len() > 0
    }
}

/// Stores freshly issued tokens.
pub fn apply_tokens(credentials: &mut Credentials, tokens: &AuthTokens)
    ensures
        final(credentials).auth_access_token@ == tokens.access_token@,
        final(credentials).auth_refresh_token@ == tokens.refresh_token@,
        final(credentials).auth_expires_at == tokens.expires_at,
{
    credentials.auth_access_token = owned(tokens.access_token.as_str());
    credentials.auth_refresh_token = owned(tokens.refresh_token.as_str());
    credentials.auth_expires_at = tokens.expires_at;
}

/// What getting an access token for an API call takes.
#[derive(Debug, Clone, PartialEq, Eq)]
pub enum TokenStep {
    /// The stored access token is good: use it.
    UseCurrent(String),
    /// Refresh with this refresh token, store the result, then use its access token.
    Refresh(String),
    /// Nothing to refresh with: the user must log in.
    LoginRequired,
}

pub open spec fn login_required_text() -> Seq<char> {
    "Authentication required: please log in"@
}

/// The first step towards an access token at `now`.
pub fn access_token_step(credentials: &Credentials, now_unix_seconds: u64) -> (r: TokenStep)
    ensures
        credentials.has_access_token_spec() && !credentials.expired_spec(now_unix_seconds) ==> (r matches TokenStep::UseCurrent(t) && t@ == credentials.auth_access_token@),
        !(credentials.has_access_token_spec() && !credentials.expired_spec(now_unix_seconds))
            && credentials.can_refresh_spec() ==> (r matches TokenStep::Refresh(t) && t@ == credentials.auth_refresh_token@),
        !(credentials.has_access_token_spec() && !credentials.expired_spec(now_unix_seconds))
            && !credentials.can_refresh_spec() ==> r is LoginRequired,
{
    if credentials.has_access_token() && !credentials.access_token_expired_at(now_unix_seconds) {
        return TokenStep::UseCurrent(owned(credentials.auth_access_token.as_str()));
    }
    if !credentials.can_refresh_access_token() {
        return TokenStep::LoginRequired;
    }
    TokenStep::Refresh(owned(credentials.auth_refresh_token.as_str()))
}

impl TokenStep {
    /// The error a call reports when the user must log in: one `is_auth_required_error`
    /// recognises.
    pub fn login_error(&self) -> (r: Option<String>)
        ensures
            r is Some <==> *self is LoginRequired,
            r is Some ==> r->0@ == login_required_text(),
    {
        match self {
            TokenStep::LoginRequired => Some(owned("Authentication required: please log in")),
            _ => None,
        }
    }
}

/// The first step towards an access token for a call made now, by the system clock: use
/// the stored token while it is good, else refresh when there is a refresh token, else
/// ask for a login. Whether the stored token has expired depends on the clock, so for a
/// stored token only the choice between using it and what the refresh token allows is
/// stated.
pub fn ensure_access_token(credentials: &Credentials) -> (r: TokenStep)
    ensures
        !credentials.has_access_token_spec() && credentials.can_refresh_spec()
            ==> (r matches TokenStep::Refresh(t) && t@ == credentials.auth_refresh_token@),
        !credentials.has_access_token_spec() && !credentials.can_refresh_spec() ==> r is LoginRequired,
        credentials.has_access_token_spec() ==> {
            ||| (r matches TokenStep::UseCurrent(t) && t@ == credentials.auth_access_token@)
            ||| (credentials.can_refresh_spec() && (r matches TokenStep::Refresh(t) && t@ == credentials.auth_refresh_token@))
            ||| (!credentials.can_refresh_spec() && r is LoginRequired)
        },
{
    let now = now_unix_seconds();
    access_token_step(credentials, now)
}

/// A call refused for want of a login reports an error the UI recognises as asking the
/// user to log in again.
pub proof fn law_login_required_is_recognised()
    ensures
        starts_with(login_required_text(), auth_required_prefix()),
{
    reveal_strlit("Authentication required: please log in");
    reveal_strlit("Authentication required");
    assert(login_required_text().take(auth_required_prefix().len() as int) =~= auth_required_prefix());
}

impl Credentials {
    pub open spec fn has_access_token_spec(&self) -> bool {
        trim(self.auth_access_token@).len() > 0
    }

    pub open spec fn can_refresh_spec(&self) -> bool {
        trim(self.auth_refresh_token@).len() > 0
    }

    pub open spec fn expired_spec(&self, now: u64) -> bool {
        match self.auth_expires_at {
            Some(e) => e <= now + EXPIRY_MARGIN_SECS,
            None => true,
        }
    }
}

/// After a refresh, tokens that came without a refresh token keep the one refreshed with.
pub fn keep_refresh_token(tokens: AuthTokens, refresh_token: &str) -> (r: AuthTokens)
    ensures
        r.access_token@ == tokens.access_token@,
        r.expires_at == tokens.expires_at,
        r.refresh_token@ == (if tokens.refresh_token@.len() == 0 {
            refresh_token@
        } else {
            tokens.refresh_token@
        }),
{
    let mut t = tokens;
    if t.refresh_token.unicode_len() == 0 {
        t.refresh_token = owned(refresh_token);
    }
    t
}

/// A stored token that is still good is used without asking anyone: the step after
/// storing fresh tokens that expire later than a minute from now is to use them.
pub proof fn law_fresh_tokens_are_used(c: Credentials, tokens: AuthTokens, now: u64)
    requires
        trim(tokens.access_token@).len() > 0,
        tokens.expires_at matches Some(e) && e > now + EXPIRY_MARGIN_SECS,
    ensures
        ({
            let after = Credentials {
                auth_access_token: tokens.access_token,
                auth_refresh_token: tokens.refresh_token,
                auth_expires_at: tokens.expires_at,
            };
            after.has_access_token_spec() && !after.expired_spec(now)
        }),
{
}

// ---------------------------------------------------------------------------------------
// The login callback
// ---------------------------------------------------------------------------------------

/// The page the browser shows once the login is complete.
pub const SUCCESS_HTTP_RESPONSE: &'static str = "HTTP/1.1 200 OK\r\nContent-Type: text/html; charset=utf-8\r\nConnection: close\r\n\r\n<!doctype html><html><head><meta charset=\"utf-8\"><meta name=\"viewport\" content=\"width=device-width, initial-scale=1\"><title>PHASE login complete</title><style>body{margin:0;min-height:100vh;display:grid;place-items:center;background:#1a1a1a;color:#eee;font:16px/1.5 system-ui,-apple-system,Segoe UI,Roboto,sans-serif}main{max-width:30rem;padding:2rem 2.25rem;border:1px solid rgba(238,238,238,.12);border-radius:16px;background:rgba(26,26,26,.96);box-shadow:0 18px 48px rgba(0,0,0,.35)}h1{margin:0 0 .5rem;color:#e14d5b;font-size:1.4rem}p{margin:0;color:#eee}</style></head><body><main><h1>PHASE login complete</h1><p>You can close this tab and return to <strong>PHASE</strong>.</p></main></body></html>";

/// The page the browser shows when the login failed, before and after the reason.
pub const ERROR_RESPONSE_HEAD: &'static str = "HTTP/1.1 400 Bad Request\r\nContent-Type: text/html; charset=utf-8\r\nConnection: close\r\n\r\n<!doctype html><html><head><meta charset=\"utf-8\"><meta name=\"viewport\" content=\"width=device-width, initial-scale=1\"><title>PHASE login failed</title><style>body{margin:0;min-height:100vh;display:grid;place-items:center;background:#1a1a1a;color:#eee;font:16px/1.5 system-ui,-apple-system,Segoe UI,Roboto,sans-serif}main{max-width:30rem;padding:2rem 2.25rem;border:1px solid rgba(238,238,238,.12);border-radius:16px;background:rgba(26,26,26,.96);box-shadow:0 18px 48px rgba(0,0,0,.35)}h1{margin:0 0 .5rem;color:#dc5050;font-size:1.4rem}p{margin:0;color:#eee}code{display:block;margin-top:1rem;padding:.85rem 1rem;border-radius:12px;background:rgba(255,255,255,.04);color:#eee;white-space:pre-wrap;word-break:break-word}</style></head><body><main><h1>PHASE login failed</h1><p>Please try again.</p><code>";
pub const ERROR_RESPONSE_TAIL: &'static str = "</code></main></body></html>";

pub fn success_http_response() -> (r: &'static str)
    ensures
        r@ == SUCCESS_HTTP_RESPONSE@,
{
    SUCCESS_HTTP_RESPONSE
}

/// `&`, `<` and `>` written as HTML entities.
pub open spec fn escaped(s: Seq<char>) -> Seq<char>
    decreases s.len(),
{
    if s.len() == 0 {
        Seq::empty()
    } else {
        let c = s.last();
        escaped(s.drop_last()) + if c == '&' {
            "&amp;"@
        } else if c == '<' {
            "&lt;"@
        } else if c == '>' {
            "&gt;"@
        } else {
            seq![c]
        }
    }
}

pub fn html_escape(value: &str) -> (r: String)
    ensures
        r@ == escaped(value@),
{
    let s = chars_of(value);
    let mut out: Vec<char> = Vec::new();
    let mut i: usize = 0;
    while i < s.len()
        invariant
            i <= s.len(),
            s@ == value@,
            out@ == escaped(s@.take(i as int)),
        decreases s.len() - i,
    {
        let c = s[i];
        assert(s@.take(i + 1).drop_last() =~= s@.take(i as int));
        if c == '&' {
            extend_str(&mut out, "&amp;");
        } else if c == '<' {
            extend_str(&mut out, "&lt;");
        } else if c == '>' {
            extend_str(&mut out, "&gt;");
        } else {
            out.push(c);
        }
        i += 1;
        assert(out@ =~= escaped(s@.take(i as int)));
    }
    assert(s@.take(s.len() as int) =~= s@);
    string_of(&out)
}

/// The page for a failed login, with the reason escaped.
pub fn error_http_response(message: &str) -> (r: String)
    ensures
        r@ == ERROR_RESPONSE_HEAD@ + escaped(message@) + ERROR_RESPONSE_TAIL@,
{
    let mut v = chars_of(ERROR_RESPONSE_HEAD);
    let e = html_escape(message);
    extend_str(&mut v, e.as_str());
    extend_str(&mut v, ERROR_RESPONSE_TAIL);
    string_of(&v)
}

/// The first of `values` that is present and not blank, trimmed.
pub open spec fn first_non_empty(values: Seq<Option<Seq<char>>>) -> Option<Seq<char>>
    decreases values.len(),
{
    if values.len() == 0 {
        None
    } else {
        match values[0] {
            Some(v) => if trim(v).len() > 0 {
                Some(trim(v))
            } else {
                first_non_empty(values.drop_first())
            },
            None => first_non_empty(values.drop_first()),
        }
    }
}

pub open spec fn opt_texts(values: Seq<Option<&str>>) -> Seq<Option<Seq<char>>> {
    values.map_values(|v: Option<&str>| match v {
        Some(s) => Some(s@),
        None => None,
    })
}

pub fn first_non_empty_text(values: &[Option<&str>]) -> (r: Option<String>)
    ensures
        match first_non_empty(opt_texts(values@)) {
            Some(t) => r is Some && r->0@ == t,
            None => r is None,
        },
{
    let mut i: usize = 0;
    assert(opt_texts(values@).skip(0) =~= opt_texts(values@));
    while i < values.len()
        invariant
            i <= values@.len(),
            first_non_empty(opt_texts(values@)) == first_non_empty(opt_texts(values@).skip(i as int)),
        decreases values@.len() - i,
    {
        let ghost rest = opt_texts(values@).skip(i as int);
        assert(rest.drop_first() =~= opt_texts(values@).skip(i + 1));
        match values[i] {
            Some(v) => {
                let t = trim_str(v);
                if t.len() > 0 {
                    return Some(string_of(&t));
                }
            },
            None => {},
        }
        i += 1;
    }
    None
}

/// What `urlencoding::decode` gives for a text: its `%XX` escapes turned into bytes (a `+`
/// stays a `+`) and the bytes read as UTF-8; nothing when they are not UTF-8.
pub uninterp spec fn url_decoded(s: Seq<char>) -> Option<Seq<char>>;

/// `urlencoding::decode`. A text without `%` comes back as it is: the crate returns its
/// input untouched when it holds no escape.
#[verifier::external_body]
fn url_decode(s: &str) -> (r: Option<String>)
    ensures
        match r {
            Some(d) => url_decoded(s@) == Some(d@),
            None => url_decoded(s@) is None,
        },
        !s@.contains('%') ==> r is Some && r->0@ == s@,
{
    match urlencoding::decode(s) {
        Ok(decoded) => Some(decoded.into_owned()),
        Err(_) => None,
    }
}

pub open spec fn key_error_text() -> Seq<char> {
    "decoding login callback query key"@
}

pub open spec fn value_error_text() -> Seq<char> {
    "decoding login callback query value"@
}

/// A `key=value` piece split at its first `=`; a piece without `=` is a key with an empty
/// value.
pub open spec fn split_pair(piece: Seq<char>) -> (Seq<char>, Seq<char>) {
    match crate::changelog::find_spec(piece, seq!['='], 0) {
        Some(e) => (piece.take(e), piece.skip(e + 1)),
        None => (piece, Seq::empty()),
    }
}

/// The decoded `(key, value)` pairs of the query's non-empty `&`-separated pieces, in
/// order; or the error of the first key or value that does not decode.
pub open spec fn query_pairs(pieces: Seq<Seq<char>>) -> Result<Seq<(Seq<char>, Seq<char>)>, Seq<char>>
    decreases pieces.len(),
{
    if pieces.len() == 0 {
        Ok(Seq::empty())
    } else {
        match query_pairs(pieces.drop_last()) {
            Err(e) => Err(e),
            Ok(prev) => {
                let piece = pieces.last();
                if piece.len() == 0 {
                    Ok(prev)
                } else {
                    let (k, v) = split_pair(piece);
                    match url_decoded(k) {
                        None => Err(key_error_text()),
                        Some(dk) => match url_decoded(v) {
                            None => Err(value_error_text()),
                            Some(dv) => Ok(prev.push((dk, dv))),
                        },
                    }
                }
            },
        }
    }
}

/// The value a later pair sets for `key` overrides an earlier one's.
pub open spec fn param(pairs: Seq<(Seq<char>, Seq<char>)>, key: Seq<char>) -> Option<Seq<char>>
    decreases pairs.len(),
{
    if pairs.len() == 0 {
        None
    } else if pairs.last().0 == key {
        Some(pairs.last().1)
    } else {
        param(pairs.drop_last(), key)
    }
}

pub open spec fn pairs_view(v: Seq<(String, String)>) -> Seq<(Seq<char>, Seq<char>)> {
    v.map_values(|p: (String, String)| (p.0@, p.1@))
}

/// The parameters of a query string.
pub fn parse_query(query: &str) -> (r: Result<Vec<(String, String)>, String>)
    ensures
        match query_pairs(split_on(query@, '&')) {
            Ok(pairs) => r is Ok && pairs_view(r->Ok_0@) == pairs,
            Err(e) => r is Err && r->Err_0@ == e,
        },
{
    let q = chars_of(query);
    let pieces = crate::text::split_vec(&q, '&');
    let eq = chars_of("=");
    assert(eq@ =~= seq!['=']) by {
        reveal_strlit("=");
    }
    let mut out: Vec<(String, String)> = Vec::new();
    let mut i: usize = 0;
    assert(pairs_view(out@) =~= Seq::<(Seq<char>, Seq<char>)>::empty());
    assert(views(pieces@).take(0) =~= Seq::<Seq<char>>::empty());
    while i < pieces.len()
        invariant
            i <= pieces.len(),
            eq@ == seq!['='],
            views(pieces@) == split_on(query@, '&'),
            query_pairs(views(pieces@).take(i as int)) == Ok::<Seq<(Seq<char>, Seq<char>)>, Seq<char>>(pairs_view(out@)),
        decreases pieces.len() - i,
    {
        assert(views(pieces@).take(i + 1).drop_last() =~= views(pieces@).take(i as int));
        assert(views(pieces@).take(i + 1).last() == pieces@[i as int]@);
        let piece = &pieces[i];
        if piece.len() > 0 {
            let (k, v) = match find_from(piece, &eq, 0) {
                Some(e) => {
                    proof {
                        crate::changelog::lemma_find_is(piece@, seq!['='], 0, e as int);
                    }
                    let k = crate::ingest::slice_to(piece, e);
                    let v = crate::ingest::slice_from(piece, e + 1);
                    (k, v)
                },
                None => {
                    proof {
                        crate::changelog::lemma_find_none(piece@, seq!['='], 0);
                    }
                    (crate::ingest::slice_to(piece, piece.len()), Vec::new())
                },
            };
            assert(split_pair(piece@) == (k@, v@));
            let ks = string_of(&k);
            let vs = string_of(&v);
            let dk = match url_decode(ks.as_str()) {
                Some(d) => d,
                None => {
                    proof {
                        lemma_query_error_sticks(views(pieces@), i as int + 1, key_error_text());
                    }
                    return Err(owned("decoding login callback query key"));
                },
            };
            let dv = match url_decode(vs.as_str()) {
                Some(d) => d,
                None => {
                    proof {
                        lemma_query_error_sticks(views(pieces@), i as int + 1, value_error_text());
                    }
                    return Err(owned("decoding login callback query value"));
                },
            };
            let ghost before = pairs_view(out@);
            let ghost pair = (dk@, dv@);
            out.push((dk, dv));
            assert(pairs_view(out@) =~= before.push(pair));
        }
        i += 1;
        assert(query_pairs(views(pieces@).take(i as int)) == Ok::<Seq<(Seq<char>, Seq<char>)>, Seq<char>>(pairs_view(out@)));
    }
    assert(views(pieces@).take(pieces.len() as int) =~= views(pieces@));
    Ok(out)
}

/// Once a prefix of the pieces fails to decode, every longer prefix fails the same way.
proof fn lemma_query_error_sticks(pieces: Seq<Seq<char>>, i: int, e: Seq<char>)
    requires
        0 <= i <= pieces.len(),
        query_pairs(pieces.take(i)) == Err::<Seq<(Seq<char>, Seq<char>)>, Seq<char>>(e),
    ensures
        query_pairs(pieces) == Err::<Seq<(Seq<char>, Seq<char>)>, Seq<char>>(e),
    decreases pieces.len() - i,
{
    if i < pieces.len() {
        assert(pieces.take(i + 1).drop_last() =~= pieces.take(i));
        lemma_query_error_sticks(pieces, i + 1, e);
    } else {
        assert(pieces.take(i) =~= pieces);
    }
}

pub open spec fn callback_error(reason: Seq<char>) -> Seq<char> {
    auth_required_prefix() + ": "@ + reason
}

/// What the login callback request says: the authorization code when it is a
/// `GET /callback?...` whose `state` is the expected one and which carries a `code`, and
/// otherwise why not. Its first line, up to the first `\n`, is split into words (a `\r`
/// ending it is whitespace); the first is the method and the second the target.
pub open spec fn callback_result(request: Seq<char>, expected_state: Seq<char>) -> Result<Seq<char>, Seq<char>> {
    if request.len() == 0 {
        Err(callback_error("empty login callback"@))
    } else {
        let ws = crate::text::words(split_on(request, '\n')[0]);
        let method = if ws.len() > 0 { ws[0] } else { Seq::<char>::empty() };
        let target = if ws.len() > 1 { ws[1] } else { Seq::<char>::empty() };
        if method != "GET"@ {
            Err(callback_error("invalid login callback method"@))
        } else {
            match crate::changelog::find_spec(target, seq!['?'], 0) {
                None => Err(callback_error("login callback missing query"@)),
                Some(q) => if target.take(q) != "/callback"@ {
                    Err(callback_error("invalid login callback path"@))
                } else {
                    match query_pairs(split_on(target.skip(q + 1), '&')) {
                        Err(e) => Err(e),
                        Ok(params) => match param(params, "error"@) {
                            Some(error) => Err(callback_error(
                                "Auth0 login failed: "@ + match param(params, "error_description"@) {
                                    Some(d) => d,
                                    None => error,
                                },
                            )),
                            None => match param(params, "state"@) {
                                None => Err(callback_error("login callback missing state"@)),
                                Some(state) => if state != expected_state {
                                    Err(callback_error("login state mismatch"@))
                                } else {
                                    match param(params, "code"@) {
                                        None => Err(callback_error("login callback missing code"@)),
                                        Some(code) => Ok(code),
                                    }
                                },
                            },
                        },
                    }
                },
            }
        }
    }
}

fn get_param(pairs: &Vec<(String, String)>, key: &str) -> (r: Option<String>)
    ensures
        match param(pairs_view(pairs@), key@) {
            Some(v) => r is Some && r->0@ == v,
            None => r is None,
        },
{
    let k = chars_of(key);
    let mut i: usize = pairs.len();
    assert(pairs_view(pairs@).take(i as int) =~= pairs_view(pairs@));
    while i > 0
        invariant
            i <= pairs@.len(),
            k@ == key@,
            param(pairs_view(pairs@), key@) == param(pairs_view(pairs@).take(i as int), key@),
        decreases i,
    {
        let ghost pre = pairs_view(pairs@).take(i as int);
        assert(pre.drop_last() =~= pairs_view(pairs@).take(i - 1));
        assert(pre.last() == (pairs@[i - 1].0@, pairs@[i - 1].1@));
        let pk = chars_of(pairs[i - 1].0.as_str());
        if crate::text::seq_eq(&pk, &k) {
            return Some(owned(pairs[i - 1].1.as_str()));
        }
        i -= 1;
    }
    None
}

fn callback_err(reason: &str) -> (r: String)
    ensures
        r@ == callback_error(reason@),
{
    let mut v = chars_of("Authentication required: ");
    extend_str(&mut v, reason);
    proof {
        reveal_strlit("Authentication required: ");
        reveal_strlit("Authentication required");
        reveal_strlit(": ");
        assert(v@ =~= callback_error(reason@));
    }
    string_of(&v)
}

/// The authorization code from the browser's request to the login callback.
pub fn parse_callback_request(request: &str, expected_state: &str) -> (r: Result<String, String>)
    ensures
        match callback_result(request@, expected_state@) {
            Ok(code) => r is Ok && r->Ok_0@ == code,
            Err(e) => r is Err && r->Err_0@ == e,
        },
{
    let q = chars_of(request);
    if q.len() == 0 {
        return Err(callback_err("empty login callback"));
    }
    let lines = crate::text::split_vec(&q, '\n');
    proof {
        crate::text::lemma_split_on_nonempty(request@, '\n');
        assert(views(lines@)[0] == lines@[0]@);
    }
    let ws = crate::text::words_vec(&lines[0]);
    let empty: Vec<char> = Vec::new();
    let ghost wsv = crate::text::words(split_on(request@, '\n')[0]);
    let method = if ws.len() > 0 {
        assert(views(ws@)[0] == ws@[0]@);
        let m = crate::ingest::slice_to(&ws[0], ws[0].len());
        assert(m@ =~= wsv[0]);
        m
    } else {
        let m = crate::ingest::slice_to(&empty, 0);
        assert(m@ =~= Seq::<char>::empty());
        m
    };
    let target = if ws.len() > 1 {
        assert(views(ws@)[1] == ws@[1]@);
        let t = crate::ingest::slice_to(&ws[1], ws[1].len());
        assert(t@ =~= wsv[1]);
        t
    } else {
        let t = crate::ingest::slice_to(&empty, 0);
        assert(t@ =~= Seq::<char>::empty());
        t
    };
    assert(method@ == (if wsv.len() > 0 { wsv[0] } else { Seq::<char>::empty() }));
    assert(target@ == (if wsv.len() > 1 { wsv[1] } else { Seq::<char>::empty() }));
    let get = chars_of("GET");
    if !crate::text::seq_eq(&method, &get) {
        return Err(callback_err("invalid login callback method"));
    }
    let qm = chars_of("?");
    assert(qm@ =~= seq!['?']) by {
        reveal_strlit("?");
    }
    let qpos = match find_from(&target, &qm, 0) {
        Some(e) => {
            proof {
                crate::changelog::lemma_find_is(target@, seq!['?'], 0, e as int);
            }
            e
        },
        None => {
            proof {
                crate::changelog::lemma_find_none(target@, seq!['?'], 0);
            }
            return Err(callback_err("login callback missing query"));
        },
    };
    let path = crate::ingest::slice_to(&target, qpos);
    let cb = chars_of("/callback");
    if !crate::text::seq_eq(&path, &cb) {
        return Err(callback_err("invalid login callback path"));
    }
    let query = string_of(&crate::ingest::slice_from(&target, qpos + 1));
    let params = match parse_query(query.as_str()) {
        Ok(p) => p,
        Err(e) => {
            return Err(e);
        },
    };
    match get_param(&params, "error") {
        Some(error) => {
            let description = match get_param(&params, "error_description") {
                Some(d) => d,
                None => error,
            };
            let mut v = chars_of("Auth0 login failed: ");
            extend_str(&mut v, description.as_str());
            let reason = string_of(&v);
            return Err(callback_err(reason.as_str()));
        },
        None => {},
    }
    let state = match get_param(&params, "state") {
        Some(s) => s,
        None => {
            return Err(callback_err("login callback missing state"));
        },
    };
    if !crate::text::str_eq(state.as_str(), expected_state) {
        return Err(callback_err("login state mismatch"));
    }
    match get_param(&params, "code") {
        Some(code) => Ok(code),
        None => Err(callback_err("login callback missing code")),
    }
}

/// Every error the login callback reports, other than a query that does not decode, tells
/// the user to log in again.
pub proof fn law_callback_errors_ask_for_login(request: Seq<char>, expected_state: Seq<char>)
    requires
        callback_result(request, expected_state) is Err,
        callback_result(request, expected_state)->Err_0 != key_error_text(),
        callback_result(request, expected_state)->Err_0 != value_error_text(),
    ensures
        starts_with(callback_result(request, expected_state)->Err_0, auth_required_prefix()),
{
    let e = callback_result(request, expected_state)->Err_0;
    let ws = crate::text::words(split_on(request, '\n')[0]);
    let target = if ws.len() > 1 { ws[1] } else { Seq::<char>::empty() };
    match crate::changelog::find_spec(target, seq!['?'], 0) {
        Some(q) => lemma_query_errors(split_on(target.skip(q + 1), '&')),
        None => {},
    }
    assert(e.take(auth_required_prefix().len() as int) =~= auth_required_prefix());
}

proof fn lemma_query_errors(pieces: Seq<Seq<char>>)
    ensures
        query_pairs(pieces) is Err ==> (query_pairs(pieces)->Err_0 == key_error_text() || query_pairs(
            pieces,
        )->Err_0 == value_error_text()),
    decreases pieces.len(),
{
    if pieces.len() > 0 {
        lemma_query_errors(pieces.drop_last());
    }
}

/// A code is only ever accepted from a callback that carries the expected state.
pub proof fn law_code_needs_matching_state(request: Seq<char>, expected_state: Seq<char>)
    requires
        callback_result(request, expected_state) is Ok,
    ensures
        ({
            let ws = crate::text::words(split_on(request, '\n')[0]);
            let target = ws[1];
            let q = crate::changelog::find_spec(target, seq!['?'], 0)->0;
            let params = query_pairs(split_on(target.skip(q + 1), '&'))->Ok_0;
            param(params, "state"@) == Some(expected_state)
        }),
{
}

// ---------------------------------------------------------------------------------------
// Who the access token names
// ---------------------------------------------------------------------------------------

/// A claim's value, as far as identities read it: a text, a list (whose text entries are
/// kept), or anything else.
#[derive(Debug, Clone)]
pub enum ClaimValue {
    Text(String),
    List(Vec<Option<String>>),
    Other,
}

/// One top-level claim of a token's payload.
#[derive(Debug, Clone)]
pub struct Claim {
    pub key: String,
    pub value: ClaimValue,
}

/// A claim value as plain values.
pub enum ClaimValueView {
    Text(Seq<char>),
    List(Seq<Option<Seq<char>>>),
    Other,
}

pub open spec fn opt_text(o: Option<String>) -> Option<Seq<char>> {
    match o {
        Some(s) => Some(s@),
        None => None,
    }
}

pub open spec fn claim_value_view(v: ClaimValue) -> ClaimValueView {
    match v {
        ClaimValue::Text(s) => ClaimValueView::Text(s@),
        ClaimValue::List(items) => ClaimValueView::List(items@.map_values(|o: Option<String>| opt_text(o))),
        ClaimValue::Other => ClaimValueView::Other,
    }
}

pub open spec fn claims_view(v: Seq<Claim>) -> Seq<(Seq<char>, ClaimValueView)> {
    v.map_values(|c: Claim| (c.key@, claim_value_view(c.value)))
}

/// What `base64`'s `URL_SAFE_NO_PAD.decode` gives for a text: the bytes it encodes, or
/// nothing when it is not unpadded url-safe Base64.
pub uninterp spec fn base64url_decoded(s: Seq<char>) -> Option<Seq<u8>>;

/// `URL_SAFE_NO_PAD.decode` of a text's bytes.
#[verifier::external_body]
fn base64_url_decode(s: &str) -> (r: Option<Vec<u8>>)
    ensures
        match r {
            Some(b) => base64url_decoded(s@) == Some(b@),
            None => base64url_decoded(s@) is None,
        },
{
    base64::engine::general_purpose::URL_SAFE_NO_PAD.decode(s.as_bytes()).ok()
}

/// What `serde_json::from_slice::<Value>` makes of some bytes, read as claims: nothing
/// when they are not JSON; the top-level members of an object, in the map's order; no
/// claims for any other JSON value.
pub uninterp spec fn json_object_claims(bytes: Seq<u8>) -> Option<Seq<(Seq<char>, ClaimValueView)>>;

/// `serde_json::from_slice::<serde_json::Value>`, with the top-level object's members
/// converted to claims.
#[verifier::external_body]
fn json_claims(bytes: &[u8]) -> (r: Option<Vec<Claim>>)
    ensures
        match r {
            Some(v) => json_object_claims(bytes@) == Some(claims_view(v@)),
            None => json_object_claims(bytes@) is None,
        },
{
    let value: serde_json::Value = serde_json::from_slice(bytes).ok()?;
    let serde_json::Value::Object(map) = value else { return Some(Vec::new()) };
    Some(map.into_iter().map(|(key, v)| Claim { key, value: match v {
        serde_json::Value::String(s) => ClaimValue::Text(s),
        serde_json::Value::Array(items) => ClaimValue::List(items.into_iter().map(|i| match i {
            serde_json::Value::String(s) => Some(s),
            _ => None,
        }).collect()),
        _ => ClaimValue::Other,
    } }).collect())
}

/// The claims of a JWT: the payload is its second `.`-separated part, Base64 decoded and
/// read as JSON.
pub open spec fn jwt_claims(token: Seq<char>) -> Option<Seq<(Seq<char>, ClaimValueView)>> {
    let parts = split_on(token, '.');
    if parts.len() < 2 {
        None
    } else {
        match base64url_decoded(parts[1]) {
            None => None,
            Some(bytes) => json_object_claims(bytes),
        }
    }
}

pub fn decode_jwt_claims(access_token: &str) -> (r: Option<Vec<Claim>>)
    ensures
        match jwt_claims(access_token@) {
            Some(c) => r is Some && claims_view(r->0@) == c,
            None => r is None,
        },
{
    let t = chars_of(access_token);
    let parts = crate::text::split_vec(&t, '.');
    if parts.len() < 2 {
        return None;
    }
    assert(views(parts@)[1] == parts@[1]@);
    let payload = string_of(&parts[1]);
    let bytes = match base64_url_decode(payload.as_str()) {
        Some(b) => b,
        None => {
            return None;
        },
    };
    json_claims(&bytes)
}

/// The value of the first claim named `key`.
pub open spec fn claim(claims: Seq<(Seq<char>, ClaimValueView)>, key: Seq<char>) -> Option<ClaimValueView>
    decreases claims.len(),
{
    if claims.len() == 0 {
        None
    } else if claims[0].0 == key {
        Some(claims[0].1)
    } else {
        claim(claims.drop_first(), key)
    }
}

/// The trimmed, non-blank text entries of a list claim.
pub open spec fn list_texts(items: Seq<Option<Seq<char>>>) -> Seq<Seq<char>>
    decreases items.len(),
{
    if items.len() == 0 {
        Seq::empty()
    } else {
        let prev = list_texts(items.drop_last());
        match items.last() {
            Some(t) => if trim(t).len() > 0 {
                prev.push(trim(t))
            } else {
                prev
            },
            None => prev,
        }
    }
}

/// What a claim value says as text: a non-blank text trimmed, or a list's non-blank
/// texts joined with ", ".
pub open spec fn claim_text(v: ClaimValueView) -> Option<Seq<char>> {
    match v {
        ClaimValueView::Text(t) => if trim(t).len() > 0 {
            Some(trim(t))
        } else {
            None
        },
        ClaimValueView::List(items) => if list_texts(items).len() > 0 {
            Some(crate::text::join(list_texts(items), ", "@))
        } else {
            None
        },
        ClaimValueView::Other => None,
    }
}

/// The text of the first of `keys` whose claim says something.
pub open spec fn claim_string_spec(claims: Seq<(Seq<char>, ClaimValueView)>, keys: Seq<Seq<char>>) -> Option<Seq<char>>
    decreases keys.len(),
{
    if keys.len() == 0 {
        None
    } else {
        match claim(claims, keys[0]) {
            Some(v) => match claim_text(v) {
                Some(t) => Some(t),
                None => claim_string_spec(claims, keys.drop_first()),
            },
            None => claim_string_spec(claims, keys.drop_first()),
        }
    }
}

fn find_claim<'a>(claims: &'a Vec<Claim>, key: &str) -> (r: Option<&'a ClaimValue>)
    ensures
        match claim(claims_view(claims@), key@) {
            Some(v) => r is Some && claim_value_view(*r->0) == v,
            None => r is None,
        },
{
    let k = chars_of(key);
    let mut i: usize = 0;
    assert(claims_view(claims@).skip(0) =~= claims_view(claims@));
    while i < claims.len()
        invariant
            i <= claims@.len(),
            k@ == key@,
            claim(claims_view(claims@), key@) == claim(claims_view(claims@).skip(i as int), key@),
        decreases claims@.len() - i,
    {
        let ghost rest = claims_view(claims@).skip(i as int);
        assert(rest[0] == (claims@[i as int].key@, claim_value_view(claims@[i as int].value)));
        assert(rest.drop_first() =~= claims_view(claims@).skip(i + 1));
        let ck = chars_of(claims[i].key.as_str());
        if crate::text::seq_eq(&ck, &k) {
            return Some(&claims[i].value);
        }
        i += 1;
    }
    None
}

fn claim_value_text(v: &ClaimValue) -> (r: Option<String>)
    ensures
        match claim_text(claim_value_view(*v)) {
            Some(t) => r is Some && r->0@ == t,
            None => r is None,
        },
{
    match v {
        ClaimValue::Text(t) => {
            let tr = trim_str(t.as_str());
            if tr.len() > 0 {
                Some(string_of(&tr))
            } else {
                None
            }
        },
        ClaimValue::List(items) => {
            let ghost iv = items@.map_values(|o: Option<String>| opt_text(o));
            let mut parts: Vec<Vec<char>> = Vec::new();
            let mut i: usize = 0;
            while i < items.len()
                invariant
                    i <= items@.len(),
                    iv == items@.map_values(|o: Option<String>| opt_text(o)),
                    views(parts@) == list_texts(iv.take(i as int)),
                decreases items@.len() - i,
            {
                assert(iv.take(i + 1).drop_last() =~= iv.take(i as int));
                assert(iv.take(i + 1).last() == opt_text(items@[i as int]));
                let ghost before = views(parts@);
                match &items[i] {
                    Some(t) => {
                        let tr = trim_str(t.as_str());
                        if tr.len() > 0 {
                            parts.push(tr);
                            assert(views(parts@) =~= before.push(trim(t@)));
                        }
                    },
                    None => {},
                }
                i += 1;
            }
            assert(iv.take(items@.len() as int) =~= iv);
            if parts.len() > 0 {
                let sep = chars_of(", ");
                let j = crate::text::join_vec(&parts, &sep);
                Some(string_of(&j))
            } else {
                None
            }
        },
        ClaimValue::Other => None,
    }
}

pub open spec fn key_texts(keys: Seq<&str>) -> Seq<Seq<char>> {
    keys.map_values(|k: &str| k@)
}

/// The text of the first of `keys` whose claim says something.
pub fn claim_string(claims: &Vec<Claim>, keys: &[&str]) -> (r: Option<String>)
    ensures
        match claim_string_spec(claims_view(claims@), key_texts(keys@)) {
            Some(t) => r is Some && r->0@ == t,
            None => r is None,
        },
{
    let mut i: usize = 0;
    assert(key_texts(keys@).skip(0) =~= key_texts(keys@));
    while i < keys.len()
        invariant
            i <= keys@.len(),
            claim_string_spec(claims_view(claims@), key_texts(keys@)) == claim_string_spec(
                claims_view(claims@),
                key_texts(keys@).skip(i as int),
            ),
        decreases keys@.len() - i,
    {
        let ghost rest = key_texts(keys@).skip(i as int);
        assert(rest[0] == keys@[i as int]@);
        assert(rest.drop_first() =~= key_texts(keys@).skip(i + 1));
        match find_claim(claims, keys[i]) {
            Some(v) => match claim_value_text(v) {
                Some(t) => {
                    return Some(t);
                },
                None => {},
            },
            None => {},
        }
        i += 1;
    }
    None
}

pub open spec fn name_keys() -> Seq<Seq<char>> {
    seq!["name"@, "preferred_username"@, "nickname"@, "email"@, "given_name"@]
}

pub open spec fn role_keys() -> Seq<Seq<char>> {
    seq![
        "role"@,
        "roles"@,
        "https://admin.polyhaven.com/role"@,
        "https://admin.polyhaven.com/roles"@,
        "https://polyhaven.com/role"@,
        "https://polyhaven.com/roles"@,
    ]
}

/// A name that is an e-mail address is shown as the part before the `@`.
pub open spec fn display_user_name(value: Seq<char>) -> Seq<char> {
    if value.contains('@') {
        split_on(value, '@')[0]
    } else {
        value
    }
}

/// The identity a token's claims describe: its subject, the first of the name claims that
/// says something (as `display_user_name` shows it, else the subject), and its role
/// claims; whatever is missing reads `Unknown`.
pub open spec fn identity_of(claims: Seq<(Seq<char>, ClaimValueView)>) -> (Seq<char>, Seq<char>, Seq<char>) {
    let user_id = match claim_string_spec(claims, seq!["sub"@]) {
        Some(s) => s,
        None => "Unknown"@,
    };
    let name = match claim_string_spec(claims, name_keys()) {
        Some(n) => display_user_name(n),
        None => user_id,
    };
    let role = match claim_string_spec(claims, role_keys()) {
        Some(r) => r,
        None => "Unknown"@,
    };
    (name, user_id, role)
}

fn display_name_exec(value: String) -> (r: String)
    ensures
        r@ == display_user_name(value@),
{
    let v = chars_of(value.as_str());
    if crate::text::contains_char(&v, '@') {
        let parts = crate::text::split_vec(&v, '@');
        proof {
            crate::text::lemma_split_on_nonempty(v@, '@');
            assert(views(parts@)[0] == parts@[0]@);
        }
        string_of(&parts[0])
    } else {
        value
    }
}

/// Who the access token says is logged in, or nothing when its claims cannot be read.
pub fn logged_in_identity(access_token: &str) -> (r: Option<LoggedInIdentity>)
    ensures
        match jwt_claims(access_token@) {
            Some(c) => r is Some && (r->0.name@, r->0.user_id@, r->0.role@) == identity_of(c),
            None => r is None,
        },
{
    let claims = match decode_jwt_claims(access_token) {
        Some(c) => c,
        None => {
            return None;
        },
    };
    let sub_keys: [&str; 1] = ["sub"];
    let name_keys_v: [&str; 5] = ["name", "preferred_username", "nickname", "email", "given_name"];
    let role_keys_v: [&str; 6] = [
        "role",
        "roles",
        "https://admin.polyhaven.com/role",
        "https://admin.polyhaven.com/roles",
        "https://polyhaven.com/role",
        "https://polyhaven.com/roles",
    ];
    assert(key_texts(sub_keys@) =~= seq!["sub"@]);
    assert(key_texts(name_keys_v@) =~= name_keys());
    assert(key_texts(role_keys_v@) =~= role_keys());
    let user_id = match claim_string(&claims, &sub_keys) {
        Some(s) => s,
        None => owned("Unknown"),
    };
    let name = match claim_string(&claims, &name_keys_v) {
        Some(n) => display_name_exec(n),
        None => owned(user_id.as_str()),
    };
    let role = match claim_string(&claims, &role_keys_v) {
        Some(r) => r,
        None => owned("Unknown"),
    };
    Some(LoggedInIdentity { name, user_id, role })
}

// ---------------------------------------------------------------------------------------
// Starting a login
// ---------------------------------------------------------------------------------------

/// The UTF-8 encoding of a character.
pub open spec fn utf8_char(c: char) -> Seq<u8> {
    let v = c as nat;
    if v < 0x80 {
        seq![v as u8]
    } else if v < 0x800 {
        seq![(0xC0 + v / 64) as u8, (0x80 + v % 64) as u8]
    } else if v < 0x10000 {
        seq![(0xE0 + v / 4096) as u8, (0x80 + (v / 64) % 64) as u8, (0x80 + v % 64) as u8]
    } else {
        seq![
            (0xF0 + v / 262144) as u8,
            (0x80 + (v / 4096) % 64) as u8,
            (0x80 + (v / 64) % 64) as u8,
            (0x80 + v % 64) as u8,
        ]
    }
}

/// An upper-case hexadecimal digit.
pub open spec fn hex_upper(d: nat) -> char {
    if d < 10 {
        (48 + d) as char
    } else {
        (55 + d) as char
    }
}

/// `%XX` for each byte.
pub open spec fn percent_bytes(bytes: Seq<u8>) -> Seq<char>
    decreases bytes.len(),
{
    if bytes.len() == 0 {
        Seq::empty()
    } else {
        seq!['%', hex_upper(bytes[0] as nat / 16), hex_upper(bytes[0] as nat % 16)] + percent_bytes(
            bytes.drop_first(),
        )
    }
}

/// Characters a URL carries as they are.
pub open spec fn unreserved(c: char) -> bool {
    crate::text::is_alnum(c) || c == '-' || c == '.' || c == '_' || c == '~'
}

/// Percent-encoding as `urlencoding::encode` does it: every byte of the UTF-8 text except
/// those of ASCII letters, digits, `-`, `.`, `_` and `~` becomes `%XX`.
pub open spec fn percent_encoded(s: Seq<char>) -> Seq<char>
    decreases s.len(),
{
    if s.len() == 0 {
        Seq::empty()
    } else {
        let c = s.last();
        percent_encoded(s.drop_last()) + if unreserved(c) {
            seq![c]
        } else {
            percent_bytes(utf8_char(c))
        }
    }
}

/// `urlencoding::encode`.
#[verifier::external_body]
fn url_encode(s: &str) -> (r: String)
    ensures
        r@ == percent_encoded(s@),
{
    urlencoding::encode(s).into_owned()
}

/// A Base64 digit of the url-safe alphabet.
pub open spec fn base64_digit(v: nat) -> char {
    if v < 26 {
        (65 + v) as char
    } else if v < 52 {
        (71 + v) as char
    } else if v < 62 {
        (v - 4) as char
    } else if v == 62 {
        '-'
    } else {
        '_'
    }
}

/// Unpadded url-safe Base64.
pub open spec fn base64url(b: Seq<u8>) -> Seq<char>
    decreases b.len(),
{
    if b.len() == 0 {
        Seq::empty()
    } else if b.len() == 1 {
        seq![base64_digit(b[0] as nat / 4), base64_digit((b[0] as nat % 4) * 16)]
    } else if b.len() == 2 {
        seq![
            base64_digit(b[0] as nat / 4),
            base64_digit((b[0] as nat % 4) * 16 + b[1] as nat / 16),
            base64_digit((b[1] as nat % 16) * 4),
        ]
    } else {
        seq![
            base64_digit(b[0] as nat / 4),
            base64_digit((b[0] as nat % 4) * 16 + b[1] as nat / 16),
            base64_digit((b[1] as nat % 16) * 4 + b[2] as nat / 64),
            base64_digit(b[2] as nat % 64),
        ] + base64url(b.skip(3))
    }
}

/// `URL_SAFE_NO_PAD.encode` of some bytes.
#[verifier::external_body]
fn base64_url_encode(bytes: &[u8]) -> (r: String)
    ensures
        r@ == base64url(bytes@),
{
    base64::engine::general_purpose::URL_SAFE_NO_PAD.encode(bytes)
}

/// The SHA-256 digest of a text's UTF-8 bytes.
pub uninterp spec fn sha256_of_text(text: Seq<char>) -> Seq<u8>;

/// `Sha256::digest` of a text's bytes: 32 bytes.
#[verifier::external_body]
pub(crate) fn sha256_digest(text: &str) -> (r: Vec<u8>)
    ensures
        r@ == sha256_of_text(text@),
        r@.len() == 32,
{
    <sha2::Sha256 as sha2::Digest>::digest(text.as_bytes()).to_vec()
}

/// The PKCE challenge for a verifier: its SHA-256 digest in unpadded url-safe Base64.
pub open spec fn challenge_of(verifier: Seq<char>) -> Seq<char> {
    base64url(sha256_of_text(verifier))
}

pub fn pkce_challenge(code_verifier: &str) -> (r: String)
    ensures
        r@ == challenge_of(code_verifier@),
{
    let digest = sha256_digest(code_verifier);
    base64_url_encode(&digest)
}

/// The Auth0 page the browser is sent to for a login with this verifier and state.
pub open spec fn authorization_request_url(verifier: Seq<char>, state: Seq<char>, redirect_uri: Seq<char>) -> Seq<char> {
    authorize_text() + "?response_type=code&client_id="@ + percent_encoded(AUTH0_CLIENT_ID@)
        + "&redirect_uri="@ + percent_encoded(redirect_uri) + "&scope="@ + percent_encoded(
        AUTH0_SCOPE@,
    ) + "&audience="@ + percent_encoded("https://admin.polyhaven.com/api/phase"@)
        + "&code_challenge="@ + percent_encoded(challenge_of(verifier))
        + "&code_challenge_method=S256&state="@ + percent_encoded(state)
}

pub fn build_authorization_url(code_verifier: &str, state: &str, redirect_uri: &str) -> (r: String)
    ensures
        r@ == authorization_request_url(code_verifier@, state@, redirect_uri@),
{
    let challenge = pkce_challenge(code_verifier);
    let mut v = chars_of(authorization_url().as_str());
    extend_str(&mut v, "?response_type=code&client_id=");
    extend_str(&mut v, url_encode(AUTH0_CLIENT_ID).as_str());
    extend_str(&mut v, "&redirect_uri=");
    extend_str(&mut v, url_encode(redirect_uri).as_str());
    extend_str(&mut v, "&scope=");
    extend_str(&mut v, url_encode(AUTH0_SCOPE).as_str());
    extend_str(&mut v, "&audience=");
    extend_str(&mut v, url_encode(auth0_audience()).as_str());
    extend_str(&mut v, "&code_challenge=");
    extend_str(&mut v, url_encode(challenge.as_str()).as_str());
    extend_str(&mut v, "&code_challenge_method=S256&state=");
    extend_str(&mut v, url_encode(state).as_str());
    string_of(&v)
}

/// `len` characters drawn by `rand`'s thread-local generator from the `Alphanumeric`
/// distribution, that is from `A-Z`, `a-z` and `0-9`.
#[verifier::external_body]
fn random_url_safe_string(len: usize) -> (r: String)
    ensures
        r@.len() == len,
        forall|i: int| 0 <= i < len ==> crate::text::is_alnum(#[trigger] r@[i]),
{
    rand::Rng::sample_iter(rand::thread_rng(), &rand::distributions::Alphanumeric).take(len).map(char::from).collect()
}

impl AuthorizationRequest {
    pub closed spec fn verifier_text(&self) -> Seq<char> {
        self.code_verifier@
    }

    pub closed spec fn state_text(&self) -> Seq<char> {
        self.state@
    }

    pub closed spec fn auth_url_text(&self) -> Seq<char> {
        self.login.auth_url@
    }

    pub closed spec fn redirect_text(&self) -> Seq<char> {
        self.login.redirect_uri@
    }

    /// The secret the token exchange proves the login with.
    pub fn code_verifier(&self) -> (r: &str)
        ensures
            r@ == self.verifier_text(),
    {
        self.code_verifier.as_str()
    }

    /// The value the login callback must carry back.
    pub fn state(&self) -> (r: &str)
        ensures
            r@ == self.state_text(),
    {
        self.state.as_str()
    }
}

/// Starts a login: a fresh 64-character verifier and 32-character state, both
/// alphanumeric, and the Auth0 page that asks for them with the local callback.
pub fn start_pkce_authorization() -> (r: AuthorizationRequest)
    ensures
        r.verifier_text().len() == 64,
        r.state_text().len() == 32,
        forall|i: int| 0 <= i < 64 ==> crate::text::is_alnum(#[trigger] r.verifier_text()[i]),
        forall|i: int| 0 <= i < 32 ==> crate::text::is_alnum(#[trigger] r.state_text()[i]),
        r.auth_url_text() == authorization_request_url(r.verifier_text(), r.state_text(), AUTH_CALLBACK_URL@),
        r.redirect_text() == AUTH_CALLBACK_URL@,
{
    let code_verifier = random_url_safe_string(64);
    let state = random_url_safe_string(32);
    let auth_url = build_authorization_url(code_verifier.as_str(), state.as_str(), callback_url());
    AuthorizationRequest {
        login: BrowserLogin { auth_url, redirect_uri: owned(callback_url()) },
        code_verifier,
        state,
    }
}

// ---------------------------------------------------------------------------------------
// The logged-in user in the status bar
// ---------------------------------------------------------------------------------------

/// The status bar's identity line: who is logged in and their role, or an unknown user
/// when only a token is held.
pub open spec fn identity_text(name: Option<(Seq<char>, Seq<char>)>, has_access_token: bool) -> Option<Seq<char>> {
    match name {
        Some((n, role)) => Some("Logged in as "@ + n + " ["@ + role + "]"@),
        None => if has_access_token {
            Some("Logged in as Unknown [Unknown]"@)
        } else {
            None
        },
    }
}

pub fn logged_in_status_text(identity: Option<&LoggedInIdentity>, has_access_token: bool) -> (r: Option<String>)
    ensures
        match identity {
            Some(i) => r is Some && identity_text(Some((i.name@, i.role@)), has_access_token) == Some(r->0@),
            None => match identity_text(None, has_access_token) {
                Some(t) => r is Some && r->0@ == t,
                None => r is None,
            },
        },
{
    match identity {
        Some(i) => {
            let mut v = chars_of("Logged in as ");
            extend_str(&mut v, i.name.as_str());
            extend_str(&mut v, " [");
            extend_str(&mut v, i.role.as_str());
            extend_str(&mut v, "]");
            Some(string_of(&v))
        },
        None => {
            if has_access_token {
                Some(owned("Logged in as Unknown [Unknown]"))
            } else {
                None
            }
        },
    }
}

/// The pieces of a role claim: split at `,`, `;` and `|`.
pub open spec fn role_pieces(s: Seq<char>) -> Seq<Seq<char>>
    decreases s.len(),
{
    if s.len() == 0 {
        seq![Seq::<char>::empty()]
    } else {
        let prev = role_pieces(s.drop_last());
        let c = s.last();
        if c == ',' || c == ';' || c == '|' {
            prev.push(Seq::<char>::empty())
        } else {
            prev.update(prev.len() - 1, prev.last().push(c))
        }
    }
}

proof fn lemma_role_pieces_nonempty(s: Seq<char>)
    ensures
        role_pieces(s).len() >= 1,
    decreases s.len(),
{
    if s.len() > 0 {
        lemma_role_pieces_nonempty(s.drop_last());
    }
}

/// Whether a role claim names the admin role, ignoring ASCII case and surrounding
/// whitespace, among roles separated by `,`, `;` or `|`.
pub open spec fn names_admin(role: Seq<char>) -> bool {
    exists|i: int|
        0 <= i < role_pieces(role).len() && crate::text::lower_seq(trim(#[trigger] role_pieces(role)[i]))
            == "admin"@
}

pub fn is_admin_role(role: &str) -> (r: bool)
    ensures
        r == names_admin(role@),
{
    let s = chars_of(role);
    let mut pieces: Vec<Vec<char>> = Vec::new();
    pieces.push(Vec::new());
    let mut i: usize = 0;
    assert(views(pieces@) =~= role_pieces(s@.take(0)));
    while i < s.len()
        invariant
            i <= s.len(),
            pieces@.len() >= 1,
            views(pieces@) == role_pieces(s@.take(i as int)),
        decreases s.len() - i,
    {
        let c = s[i];
        assert(s@.take(i + 1).drop_last() =~= s@.take(i as int));
        assert(s@.take(i + 1).last() == c);
        if c == ',' || c == ';' || c == '|' {
            pieces.push(Vec::new());
        } else {
            let mut piece = pieces.pop().unwrap();
            piece.push(c);
            pieces.push(piece);
        }
        i += 1;
        assert(views(pieces@) =~= role_pieces(s@.take(i as int)));
    }
    assert(s@.take(s.len() as int) =~= s@);
    let admin = chars_of("admin");
    let mut k: usize = 0;
    while k < pieces.len()
        invariant
            k <= pieces.len(),
            views(pieces@) == role_pieces(role@),
            admin@ == "admin"@,
            forall|m: int| 0 <= m < k ==> crate::text::lower_seq(trim(#[trigger] role_pieces(role@)[m])) != "admin"@,
        decreases pieces.len() - k,
    {
        assert(views(pieces@)[k as int] == pieces@[k as int]@);
        let t = crate::text::trim_vec(&pieces[k]);
        let l = crate::text::lower_vec(&t);
        if crate::text::seq_eq(&l, &admin) {
            return true;
        }
        k += 1;
    }
    false
}

} // verus!
