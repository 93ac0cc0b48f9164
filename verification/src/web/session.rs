//! Web login: a SameSite=Strict signed session cookie set by `POST /login`
//! after a constant-time token check. The gating decision accepts the cookie
//! OR an `Authorization` Bearer/Basic header, so programmatic MCP clients
//! authenticate without a cookie.
//!
//! This module holds the decisions; the HTTP handlers that read requests and
//! write responses run them.

use base64::Engine;
use subtle::ConstantTimeEq;
use vstd::prelude::*;
use vstd::string::StringSliceAdditionalSpecFns;
use vstd::utf8::*;

use crate::chars::{chars_of, contains_text, has_substring, occurs_at, same_text, string_from_chars};
use crate::config::token::fill_random;

verus! {

broadcast use vstd::utf8::group_utf8_lib;

/// Name of the session cookie that a successful login sets.
pub const COOKIE_NAME: &'static str = "mcp_session";

#[verifier::external_type_specification]
#[verifier::external_body]
pub struct ExKey(axum_extra::extract::cookie::Key);

/// Length in bytes of the master key material a signing key is made from.
pub const KEY_MATERIAL_LEN: usize = 64;

/// `Key::try_from(&[u8])` (cookie crate): a signing key made from the first
/// 64 bytes of `bytes`. Claimed, as the crate's source shows: it succeeds
/// exactly when `bytes` holds at least 64 bytes.
#[verifier::external_body]
fn key_from_bytes(bytes: &[u8]) -> (key: Option<axum_extra::extract::cookie::Key>)
    ensures
        key is Some <==> bytes@.len() >= 64,
{
    axum_extra::extract::cookie::Key::try_from(bytes).ok()
}

/// `<Key as Clone>::clone` (cookie crate): a copy of the signing key.
/// Claimed: the copy is the same key (the crate derives `Clone` on the key's
/// byte array).
#[verifier::external_body]
fn clone_key(key: &axum_extra::extract::cookie::Key) -> (copy: axum_extra::extract::cookie::Key)
    ensures
        copy == *key,
{
    key.clone()
}

/// Shared web-auth state: the optional token plus the per-process cookie
/// signing key.
///
/// `token` `None` leaves the app open (no login required). The signing key is
/// random per process, so a restart invalidates existing sessions.
pub struct WebAuth {
    token: Option<String>,
    key: axum_extra::extract::cookie::Key,
}

/// The view of an optional string: its characters, if any.
pub open spec fn opt_chars(o: Option<String>) -> Option<Seq<char>> {
    match o {
        Some(s) => Some(s@),
        None => None,
    }
}

impl Clone for WebAuth {
    /// A copy sharing the token and the signing key.
    fn clone(&self) -> (copy: Self)
        ensures
            copy.spec_token() == self.spec_token(),
            copy.spec_key() == self.spec_key(),
    {
        let token = match &self.token {
            Some(t) => Some(t.clone()),
            None => None,
        };
        WebAuth { token, key: clone_key(&self.key) }
    }
}

impl WebAuth {
    /// The configured token, if any, as characters.
    pub closed spec fn spec_token(&self) -> Option<Seq<char>> {
        opt_chars(self.token)
    }

    /// The cookie signing key.
    pub closed spec fn spec_key(&self) -> axum_extra::extract::cookie::Key {
        self.key
    }

    /// Build web-auth from the optional configured token, with a signing key
    /// made from fresh random bytes. `None` when the operating system's random
    /// source is unavailable.
    pub fn new(token: Option<&str>) -> (res: Option<Self>)
        ensures
            res matches Some(auth) ==> auth.spec_token() == match token {
                Some(t) => Some(t@),
                None => None::<Seq<char>>,
            },
    {
        let mut material: Vec<u8> = vec![0u8; KEY_MATERIAL_LEN];
        if !fill_random(&mut material) {
            return None;
        }
        let key = match key_from_bytes(material.as_slice()) {
            Some(k) => k,
            None => return None,
        };
        let token = match token {
            Some(t) => Some(t.to_owned()),
            None => None,
        };
        Some(WebAuth { token, key })
    }

    /// Whether a token is configured (i.e. login is required).
    pub fn auth_required(&self) -> (res: bool)
        ensures
            res == self.spec_token() is Some,
    {
        self.token.is_some()
    }

    /// The configured token, if any.
    pub fn token(&self) -> (res: Option<&str>)
        ensures
            match res {
                Some(t) => self.spec_token() == Some(t@),
                None => self.spec_token() is None,
            },
    {
        match &self.token {
            Some(t) => Some(t.as_str()),
            None => None,
        }
    }

    /// A copy of the cookie signing key.
    pub fn key(&self) -> (res: axum_extra::extract::cookie::Key)
        ensures
            res == self.spec_key(),
    {
        clone_key(&self.key)
    }
}

/// `ConstantTimeEq::ct_eq` on byte slices (subtle), turned into a `bool`:
/// true exactly when the slices have the same length and the same bytes. The
/// comparison takes time independent of the contents.
#[verifier::external_body]
fn ct_eq_bytes(a: &[u8], b: &[u8]) -> (res: bool)
    ensures
        res == (a@ == b@),
{
    a.ct_eq(b).into()
}

/// Constant-time token comparison (avoids leaking the token via timing).
pub fn token_eq(presented: &str, token: &str) -> (res: bool)
    ensures
        res == (presented@ == token@),
{
    let res = ct_eq_bytes(presented.as_bytes(), token.as_bytes());
    proof {
        if presented.spec_bytes() == token.spec_bytes() {
            assert(decode_utf8(encode_utf8(presented@)) == presented@);
            assert(decode_utf8(encode_utf8(token@)) == token@);
        }
    }
    res
}

/// What standard Base64 decoding (the `base64` crate's `STANDARD` engine:
/// the RFC 4648 alphabet, canonical `=` padding required) makes of `input`:
/// the decoded bytes, or `None` when `input` is not valid Base64.
pub uninterp spec fn base64_standard_decoding(input: Seq<u8>) -> Option<Seq<u8>>;

/// `STANDARD.decode` (base64 crate): the decoded bytes, or `None` when the
/// input is rejected. Claimed: the result is `base64_standard_decoding` of
/// the input bytes.
#[verifier::external_body]
fn base64_decode(input: &[u8]) -> (res: Option<Vec<u8>>)
    ensures
        match res {
            Some(v) => base64_standard_decoding(input@) == Some(v@),
            None => base64_standard_decoding(input@) is None,
        },
{
    base64::engine::general_purpose::STANDARD.decode(input).ok()
}

/// `String::from_utf8` (std): `Some` exactly when the bytes are valid UTF-8,
/// holding the characters they encode.
#[verifier::external_body]
fn string_from_utf8(bytes: Vec<u8>) -> (res: Option<String>)
    ensures
        match res {
            Some(s) => valid_utf8(bytes@) && s@ == decode_utf8(bytes@),
            None => !valid_utf8(bytes@),
        },
{
    String::from_utf8(bytes).ok()
}

/// `s` without the leading `prefix`, when `s` starts with it.
pub open spec fn without_prefix(s: Seq<char>, prefix: Seq<char>) -> Option<Seq<char>> {
    if prefix.len() <= s.len() && s.take(prefix.len() as int) == prefix {
        Some(s.skip(prefix.len() as int))
    } else {
        None
    }
}

/// The text after the first occurrence of `sep` in `s`, if `sep` occurs.
pub open spec fn after_first(s: Seq<char>, sep: char) -> Option<Seq<char>>
    decreases s.len(),
{
    if s.len() == 0 {
        None
    } else if s[0] == sep {
        Some(s.skip(1))
    } else {
        after_first(s.skip(1), sep)
    }
}

/// The Basic credentials `user:pass` carried Base64-encoded in `encoded`, when
/// they decode to valid UTF-8.
pub open spec fn basic_credentials(encoded: Seq<char>) -> Option<Seq<char>> {
    match base64_standard_decoding(encode_utf8(encoded)) {
        Some(bytes) => if valid_utf8(bytes) {
            Some(decode_utf8(bytes))
        } else {
            None
        },
        None => None,
    }
}

/// Whether an `Authorization` header value grants access for `token`: a
/// `Bearer <token>`, or `Basic <base64(user:token)>` for any user.
pub open spec fn authorization_grants(value: Seq<char>, token: Seq<char>) -> bool {
    match without_prefix(value, "Bearer "@) {
        Some(bearer) => bearer == token,
        None => match without_prefix(value, "Basic "@) {
            Some(encoded) => match basic_credentials(encoded) {
                Some(credentials) => match after_first(credentials, ':') {
                    Some(password) => password == token,
                    None => false,
                },
                None => false,
            },
            None => false,
        },
    }
}

/// `str::strip_prefix`: `s` without the leading `prefix`, when `s` starts
/// with it.
fn strip_prefix(s: &str, prefix: &str) -> (res: Option<String>)
    ensures
        opt_chars(res) == without_prefix(s@, prefix@),
{
    let sv = chars_of(s);
    let pv = chars_of(prefix);
    if pv.len() > sv.len() {
        return None;
    }
    let mut i: usize = 0;
    while i < pv.len()
        invariant
            sv@ == s@,
            pv@ == prefix@,
            pv@.len() <= sv@.len(),
            i <= pv@.len(),
            forall|j: int| 0 <= j < i ==> sv@[j] == pv@[j],
        decreases pv@.len() - i,
    {
        if sv[i] != pv[i] {
            assert(s@.take(prefix@.len() as int)[i as int] != prefix@[i as int]);
            return None;
        }
        i += 1;
    }
    assert(s@.take(prefix@.len() as int) =~= prefix@);
    Some(string_from_chars(&sv, pv.len()))
}

/// `str::split_once(sep)`, keeping the part after the separator.
fn text_after_first(s: &str, sep: char) -> (res: Option<String>)
    ensures
        opt_chars(res) == after_first(s@, sep),
{
    let v = chars_of(s);
    let mut i: usize = 0;
    assert(s@.skip(0) =~= s@);
    while i < v.len()
        invariant
            v@ == s@,
            i <= v@.len(),
            after_first(s@, sep) == after_first(s@.skip(i as int), sep),
        decreases v@.len() - i,
    {
        if v[i] == sep {
            assert(s@.skip(i as int).skip(1) =~= s@.skip(i + 1));
            return Some(string_from_chars(&v, i + 1));
        }
        assert(s@.skip(i as int).skip(1) =~= s@.skip(i + 1));
        i += 1;
    }
    None
}

/// Decode the Base64 part of a Basic `Authorization` header into text.
fn decode_basic(input: &str) -> (res: Option<String>)
    ensures
        opt_chars(res) == basic_credentials(input@),
{
    match base64_decode(input.as_bytes()) {
        Some(bytes) => string_from_utf8(bytes),
        None => None,
    }
}

/// Whether the `Authorization` header value (if the request has one that is
/// visible ASCII) is a valid `Bearer <token>` or Basic `<user:token>`.
pub fn header_authorized(authorization: Option<&str>, token: &str) -> (res: bool)
    ensures
        res == match authorization {
            Some(value) => authorization_grants(value@, token@),
            None => false,
        },
{
    let value = match authorization {
        Some(v) => v,
        None => return false,
    };
    if let Some(bearer) = strip_prefix(value, "Bearer ") {
        return token_eq(bearer.as_str(), token);
    }
    if let Some(basic) = strip_prefix(value, "Basic ") {
        if let Some(decoded) = decode_basic(basic.as_str()) {
            if let Some(pass) = text_after_first(decoded.as_str(), ':') {
                return token_eq(pass.as_str(), token);
            }
        }
    }
    false
}

/// Whether a request is a top-level browser navigation: by its
/// `Sec-Fetch-Mode` when present, else by an `Accept` that asks for HTML.
pub open spec fn navigation(sec_fetch_mode: Option<Seq<char>>, accept: Option<Seq<char>>) -> bool {
    match sec_fetch_mode {
        Some(mode) => mode == "navigate"@,
        None => match accept {
            Some(a) => has_substring(a, "text/html"@),
            None => false,
        },
    }
}

/// The characters of an optional `&str`.
pub open spec fn opt_str_chars(o: Option<&str>) -> Option<Seq<char>> {
    match o {
        Some(s) => Some(s@),
        None => None,
    }
}

/// A top-level browser navigation (gets a redirect to the login page on
/// failure) vs an API/XHR call (gets a 401). Takes the request's
/// `Sec-Fetch-Mode` and `Accept` header values, where present as text.
pub fn is_navigation(sec_fetch_mode: Option<&str>, accept: Option<&str>) -> (res: bool)
    ensures
        res == navigation(opt_str_chars(sec_fetch_mode), opt_str_chars(accept)),
{
    if let Some(mode) = sec_fetch_mode {
        return same_text(mode, "navigate");
    }
    match accept {
        Some(a) => contains_text(a, "text/html"),
        None => false,
    }
}

/// `POST /login` body: the token the user typed.
pub struct LoginForm {
    token: String,
}

impl LoginForm {
    /// The submitted token, as characters.
    pub closed spec fn spec_token(&self) -> Seq<char> {
        self.token@
    }

    /// A login form carrying `token`.
    pub fn new(token: String) -> (form: Self)
        ensures
            form.spec_token() == token@,
    {
        LoginForm { token }
    }

    /// The submitted token.
    pub fn token(&self) -> (res: &str)
        ensures
            res@ == self.spec_token(),
    {
        self.token.as_str()
    }
}

/// Where a login that needs no further step sends the browser.
pub const AFTER_LOGIN_PATH: &'static str = "/ui/";

/// The login page, where refused browser navigations and logouts are sent.
pub const LOGIN_PAGE_PATH: &'static str = "/";

/// The body of the `401` answer to a wrong login token.
pub const INVALID_TOKEN_BODY: &'static str = "invalid token";

/// The session cookie that a granted login sets: its name and value and its
/// attributes.
#[derive(Debug, Clone, Copy, PartialEq, Eq)]
pub struct SessionCookie {
    /// Cookie name.
    pub name: &'static str,
    /// Cookie value.
    pub value: &'static str,
    /// `HttpOnly`: not readable from scripts.
    pub http_only: bool,
    /// `Secure`: sent over HTTPS only.
    pub secure: bool,
    /// `SameSite=Strict`: never sent on cross-site requests.
    pub same_site_strict: bool,
    /// `Path`.
    pub path: &'static str,
}

/// The session cookie a granted login sets.
pub open spec fn session_cookie_value() -> SessionCookie {
    SessionCookie {
        name: COOKIE_NAME,
        value: "ok",
        http_only: true,
        secure: true,
        same_site_strict: true,
        path: LOGIN_PAGE_PATH,
    }
}

/// The session cookie a granted login sets: `mcp_session=ok`, HttpOnly,
/// Secure, SameSite=Strict, Path=/.
pub fn session_cookie() -> (c: SessionCookie)
    ensures
        c == session_cookie_value(),
        c.name == COOKIE_NAME,
        c.value@ == "ok"@,
        c.http_only,
        c.secure,
        c.same_site_strict,
        c.path == LOGIN_PAGE_PATH,
{
    SessionCookie {
        name: COOKIE_NAME,
        value: "ok",
        http_only: true,
        secure: true,
        same_site_strict: true,
        path: LOGIN_PAGE_PATH,
    }
}

/// What `POST /login` answers.
#[derive(Debug, Clone, Copy, PartialEq, Eq, Structural)]
pub enum LoginOutcome {
    /// No token is configured: nothing to log into; redirect to the UI.
    NoLoginRequired,
    /// The token matches: set the session cookie and redirect to the UI.
    SessionGranted,
    /// The token does not match: `401 invalid token`.
    InvalidToken,
}

impl LoginOutcome {
    /// Where the answer redirects: the UI, unless the token was wrong.
    pub fn redirect_target(&self) -> (res: Option<&'static str>)
        ensures
            res == match *self {
                LoginOutcome::InvalidToken => None,
                _ => Some(AFTER_LOGIN_PATH),
            },
    {
        match self {
            LoginOutcome::InvalidToken => None,
            _ => Some(AFTER_LOGIN_PATH),
        }
    }

    /// The session cookie the answer sets: only a granted login sets one.
    pub fn session_cookie(&self) -> (res: Option<SessionCookie>)
        ensures
            match *self {
                LoginOutcome::SessionGranted => res == Some(session_cookie_value()),
                _ => res is None,
            },
    {
        match self {
            LoginOutcome::SessionGranted => Some(session_cookie()),
            _ => None,
        }
    }

    /// The body of a `401` answer: only a wrong token gets one.
    pub fn rejection_body(&self) -> (res: Option<&'static str>)
        ensures
            res == match *self {
                LoginOutcome::InvalidToken => Some(INVALID_TOKEN_BODY),
                _ => None,
            },
    {
        match self {
            LoginOutcome::InvalidToken => Some(INVALID_TOKEN_BODY),
            _ => None,
        }
    }
}

/// `POST /login`: grant a session when the submitted token matches the
/// configured one (compared in constant time).
pub fn login(auth: &WebAuth, form: &LoginForm) -> (res: LoginOutcome)
    ensures
        res == match auth.spec_token() {
            None => LoginOutcome::NoLoginRequired,
            Some(t) => if form.spec_token() == t {
                LoginOutcome::SessionGranted
            } else {
                LoginOutcome::InvalidToken
            },
        },
{
    let token = match auth.token() {
        Some(t) => t,
        None => return LoginOutcome::NoLoginRequired,
    };
    if token_eq(form.token(), token) {
        LoginOutcome::SessionGranted
    } else {
        LoginOutcome::InvalidToken
    }
}

/// What the gating middleware does with a request.
#[derive(Debug, Clone, Copy, PartialEq, Eq, Structural)]
pub enum AccessDecision {
    /// Pass the request on to the protected route.
    Allow,
    /// A browser navigation without credentials: redirect to the login page.
    RedirectToLogin,
    /// An API/MCP call without credentials: `401`.
    Unauthorized,
}

impl AccessDecision {
    /// Where a refused request is redirected: only browser navigations are,
    /// to the login page.
    pub fn redirect_target(&self) -> (res: Option<&'static str>)
        ensures
            res == match *self {
                AccessDecision::RedirectToLogin => Some(LOGIN_PAGE_PATH),
                _ => None,
            },
    {
        match self {
            AccessDecision::RedirectToLogin => Some(LOGIN_PAGE_PATH),
            _ => None,
        }
    }
}

/// The decision of the gating middleware, as a function of what it reads
/// from the request.
pub open spec fn access_decision(
    token: Option<Seq<char>>,
    has_session_cookie: bool,
    authorization: Option<Seq<char>>,
    sec_fetch_mode: Option<Seq<char>>,
    accept: Option<Seq<char>>,
) -> AccessDecision {
    match token {
        None => AccessDecision::Allow,
        Some(t) => if has_session_cookie || match authorization {
            Some(value) => authorization_grants(value, t),
            None => false,
        } {
            AccessDecision::Allow
        } else if navigation(sec_fetch_mode, accept) {
            AccessDecision::RedirectToLogin
        } else {
            AccessDecision::Unauthorized
        },
    }
}

/// Gating decision: allow when no token is configured, when a valid session
/// cookie is present, or when a valid `Authorization` header is present. On
/// failure, redirect browser navigations to the login page and answer `401`
/// to API/MCP callers.
///
/// `has_session_cookie` is whether the request carries a correctly signed
/// session cookie; the header arguments are the request's `Authorization`,
/// `Sec-Fetch-Mode` and `Accept` values, where present as text.
pub fn require_auth(
    auth: &WebAuth,
    has_session_cookie: bool,
    authorization: Option<&str>,
    sec_fetch_mode: Option<&str>,
    accept: Option<&str>,
) -> (res: AccessDecision)
    ensures
        res == access_decision(
            auth.spec_token(),
            has_session_cookie,
            opt_str_chars(authorization),
            opt_str_chars(sec_fetch_mode),
            opt_str_chars(accept),
        ),
{
    let token = match auth.token() {
        Some(t) => t,
        None => return AccessDecision::Allow,
    };
    if has_session_cookie || header_authorized(authorization, token) {
        return AccessDecision::Allow;
    }
    if is_navigation(sec_fetch_mode, accept) {
        AccessDecision::RedirectToLogin
    } else {
        AccessDecision::Unauthorized
    }
}

/// With `Sec-Fetch-Mode`, a request counts as a browser navigation exactly
/// when the mode is `navigate`, whatever it accepts. Without it, exactly when
/// its `Accept` asks for `text/html`; a request with neither header never
/// does.
pub proof fn law_navigation_needs_html(accept: Seq<char>)
    ensures
        forall|mode: Seq<char>, a: Option<Seq<char>>|
            #[trigger] navigation(Some(mode), a) <==> mode == "navigate"@,
        navigation(None, Some(accept)) <==> exists|at: int|
            0 <= at && at + 9 <= accept.len() && #[trigger] accept.subrange(at, at + 9)
                == "text/html"@,
        !navigation(None, None),
{
    reveal_strlit("text/html");
    let html = "text/html"@;
    assert(html.len() == 9);
    if navigation(None, Some(accept)) {
        let at = choose|at: int| occurs_at(accept, html, at);
        assert(accept.subrange(at, at + 9) == html);
    }
    if exists|at: int|
        0 <= at && at + 9 <= accept.len() && #[trigger] accept.subrange(at, at + 9) == html {
        let at = choose|at: int|
            0 <= at && at + 9 <= accept.len() && #[trigger] accept.subrange(at, at + 9) == html;
        assert(occurs_at(accept, html, at));
    }
}

/// A refused request that is no browser navigation (an API or MCP client
/// without credentials) gets `401`, never the login redirect; one that is
/// gets the redirect.
pub proof fn law_refused_api_calls_get_unauthorized(
    token: Seq<char>,
    authorization: Option<Seq<char>>,
    sec_fetch_mode: Option<Seq<char>>,
    accept: Option<Seq<char>>,
)
    requires
        match authorization {
            Some(value) => !authorization_grants(value, token),
            None => true,
        },
    ensures
        access_decision(Some(token), false, authorization, sec_fetch_mode, accept) == if navigation(
            sec_fetch_mode,
            accept,
        ) {
            AccessDecision::RedirectToLogin
        } else {
            AccessDecision::Unauthorized
        },
{
}

/// A `Bearer` header carrying exactly the configured token grants access.
pub proof fn law_bearer_with_token_grants(token: Seq<char>)
    ensures
        authorization_grants("Bearer "@ + token, token),
{
    reveal_strlit("Bearer ");
    let value = "Bearer "@ + token;
    assert(value.take(7) =~= "Bearer "@);
    assert(value.skip(7) =~= token);
}

/// A `Bearer` header carrying anything but the configured token is refused.
pub proof fn law_bearer_with_other_text_refused(presented: Seq<char>, token: Seq<char>)
    requires
        presented != token,
    ensures
        !authorization_grants("Bearer "@ + presented, token),
{
    reveal_strlit("Bearer ");
    let value = "Bearer "@ + presented;
    assert(value.take(7) =~= "Bearer "@);
    assert(value.skip(7) =~= presented);
}

/// The text after the first separator of `user + sep + rest`, where `user`
/// holds no separator, is `rest`.
proof fn lemma_after_first_of_join(user: Seq<char>, sep: char, rest: Seq<char>)
    requires
        !user.contains(sep),
    ensures
        after_first(user + seq![sep] + rest, sep) == Some(rest),
    decreases user.len(),
{
    let whole = user + seq![sep] + rest;
    if user.len() == 0 {
        assert(whole =~= seq![sep] + rest);
        assert(whole.skip(1) =~= rest);
    } else {
        assert(whole[0] == user[0]);
        assert(!user.drop_first().contains(sep)) by {
            if user.drop_first().contains(sep) {
                let k = choose|k: int| 0 <= k < user.drop_first().len() && user.drop_first()[k] == sep;
                assert(user[k + 1] == sep);
            }
        }
        lemma_after_first_of_join(user.drop_first(), sep, rest);
        assert(whole.skip(1) =~= user.drop_first() + seq![sep] + rest);
    }
}

/// A `Basic` header whose credentials decode to `user:token` (for a user
/// name without `:`) grants access, whatever the user name.
pub proof fn law_basic_with_token_grants(encoded: Seq<char>, user: Seq<char>, token: Seq<char>)
    requires
        !user.contains(':'),
        basic_credentials(encoded) == Some(user + seq![':'] + token),
    ensures
        authorization_grants("Basic "@ + encoded, token),
{
    reveal_strlit("Basic ");
    reveal_strlit("Bearer ");
    let value = "Basic "@ + encoded;
    assert(value.take(6) =~= "Basic "@);
    assert(value.skip(6) =~= encoded);
    assert(value[0] == 'B' && value[1] == 'a');
    assert(without_prefix(value, "Bearer "@) is None) by {
        if value.len() >= 7 {
            assert(value.take(7)[1] == 'a');
            assert("Bearer "@[1] == 'e');
        }
    }
    lemma_after_first_of_join(user, ':', token);
}

/// A request with a valid session cookie is always let through, and with no
/// token configured every request is.
pub proof fn law_session_or_open_access_allows(
    token: Option<Seq<char>>,
    has_session_cookie: bool,
    authorization: Option<Seq<char>>,
    sec_fetch_mode: Option<Seq<char>>,
    accept: Option<Seq<char>>,
)
    requires
        has_session_cookie || token is None,
    ensures
        access_decision(token, has_session_cookie, authorization, sec_fetch_mode, accept)
            == AccessDecision::Allow,
{
}

/// Whatever the request holds, a configured token that the request does not
/// present (no session cookie, no `Authorization` header) keeps it out.
pub proof fn law_no_credentials_no_access(
    token: Seq<char>,
    sec_fetch_mode: Option<Seq<char>>,
    accept: Option<Seq<char>>,
)
    ensures
        access_decision(Some(token), false, None, sec_fetch_mode, accept)
            != AccessDecision::Allow,
{
}

} // verus!
