use base64::Engine;
use mcp_core::web::session::{
    header_authorized, is_navigation, login, require_auth, session_cookie, token_eq,
    AccessDecision, LoginForm, LoginOutcome, WebAuth, AFTER_LOGIN_PATH, INVALID_TOKEN_BODY,
    LOGIN_PAGE_PATH,
};

fn basic(credentials: &str) -> String {
    format!(
        "Basic {}",
        base64::engine::general_purpose::STANDARD.encode(credentials)
    )
}

#[test]
fn token_eq_compares_exactly() {
    assert!(token_eq("secret", "secret"));
    assert!(!token_eq("secret", "secreT"));
    assert!(!token_eq("secret", "secret "));
    assert!(!token_eq("", "x"));
    assert!(token_eq("", ""));
    assert!(token_eq("grüße", "grüße"));
}

#[test]
fn bearer_header_is_checked() {
    assert!(header_authorized(Some("Bearer s3cret"), "s3cret"));
    assert!(!header_authorized(Some("Bearer wrong"), "s3cret"));
    assert!(!header_authorized(Some("bearer s3cret"), "s3cret"));
    assert!(!header_authorized(Some("Bearers3cret"), "s3cret"));
    assert!(!header_authorized(None, "s3cret"));
    assert!(!header_authorized(Some("s3cret"), "s3cret"));
}

#[test]
fn basic_header_uses_the_password() {
    assert!(header_authorized(Some(&basic("alice:s3cret")), "s3cret"));
    assert!(header_authorized(Some(&basic(":s3cret")), "s3cret"));
    // Only the first colon separates user and password.
    assert!(header_authorized(Some(&basic("bob:pa:ss")), "pa:ss"));
    assert!(!header_authorized(Some(&basic("alice:wrong")), "s3cret"));
    assert!(!header_authorized(Some(&basic("s3cret")), "s3cret"));
    // Not Base64.
    assert!(!header_authorized(Some("Basic !!!"), "s3cret"));
    // Base64 of bytes that are not UTF-8.
    let not_utf8 = format!(
        "Basic {}",
        base64::engine::general_purpose::STANDARD.encode([0xff, 0x3a, 0x41])
    );
    assert!(!header_authorized(Some(&not_utf8), "A"));
}

#[test]
fn navigation_detection() {
    assert!(is_navigation(Some("navigate"), None));
    assert!(!is_navigation(Some("cors"), Some("text/html")));
    assert!(is_navigation(None, Some("text/html,application/xhtml+xml")));
    assert!(is_navigation(None, Some("application/json, text/html;q=0.9")));
    assert!(!is_navigation(None, Some("application/json")));
    assert!(!is_navigation(None, None));
}

#[test]
fn web_auth_reports_whether_login_is_required() {
    assert!(WebAuth::new(Some("tok")).expect("OS random source").auth_required());
    assert!(!WebAuth::new(None).expect("OS random source").auth_required());
    assert_eq!(WebAuth::new(Some("tok")).expect("OS random source").token(), Some("tok"));
    assert_eq!(WebAuth::new(None).expect("OS random source").token(), None);
}

#[test]
fn login_outcomes() {
    let open = WebAuth::new(None).expect("OS random source");
    let guarded = WebAuth::new(Some("tok")).expect("OS random source");
    let right = LoginForm::new("tok".to_string());
    let wrong = LoginForm::new("nope".to_string());
    assert_eq!(login(&open, &wrong), LoginOutcome::NoLoginRequired);
    assert_eq!(login(&guarded, &right), LoginOutcome::SessionGranted);
    assert_eq!(login(&guarded, &wrong), LoginOutcome::InvalidToken);
    assert_eq!(right.token(), "tok");
}

#[test]
fn gate_decisions() {
    let open = WebAuth::new(None).expect("OS random source");
    let guarded = WebAuth::new(Some("tok")).expect("OS random source");
    assert_eq!(require_auth(&open, false, None, None, None), AccessDecision::Allow);
    assert_eq!(require_auth(&guarded, true, None, None, None), AccessDecision::Allow);
    assert_eq!(
        require_auth(&guarded, false, Some("Bearer tok"), None, None),
        AccessDecision::Allow
    );
    assert_eq!(
        require_auth(&guarded, false, Some(&basic("u:tok")), None, None),
        AccessDecision::Allow
    );
    assert_eq!(
        require_auth(&guarded, false, Some("Bearer bad"), Some("navigate"), None),
        AccessDecision::RedirectToLogin
    );
    assert_eq!(
        require_auth(&guarded, false, None, None, Some("text/html")),
        AccessDecision::RedirectToLogin
    );
    assert_eq!(
        require_auth(&guarded, false, None, None, Some("application/json")),
        AccessDecision::Unauthorized
    );
    assert_eq!(require_auth(&guarded, false, None, None, None), AccessDecision::Unauthorized);
}

#[test]
fn login_answers_describe_cookie_and_redirect() {
    let cookie = session_cookie();
    assert_eq!(cookie.name, "mcp_session");
    assert_eq!(cookie.value, "ok");
    assert!(cookie.http_only && cookie.secure && cookie.same_site_strict);
    assert_eq!(cookie.path, "/");
    assert_eq!(LoginOutcome::SessionGranted.session_cookie(), Some(cookie));
    assert_eq!(LoginOutcome::SessionGranted.redirect_target(), Some("/ui/"));
    assert_eq!(LoginOutcome::NoLoginRequired.session_cookie(), None);
    assert_eq!(LoginOutcome::NoLoginRequired.redirect_target(), Some(AFTER_LOGIN_PATH));
    assert_eq!(LoginOutcome::InvalidToken.session_cookie(), None);
    assert_eq!(LoginOutcome::InvalidToken.redirect_target(), None);
    assert_eq!(LoginOutcome::InvalidToken.rejection_body(), Some("invalid token"));
    assert_eq!(LoginOutcome::SessionGranted.rejection_body(), None);
    assert_eq!(INVALID_TOKEN_BODY, "invalid token");
}

#[test]
fn refused_navigation_redirects_to_login_page() {
    assert_eq!(AccessDecision::RedirectToLogin.redirect_target(), Some(LOGIN_PAGE_PATH));
    assert_eq!(LOGIN_PAGE_PATH, "/");
    assert_eq!(AccessDecision::Unauthorized.redirect_target(), None);
    assert_eq!(AccessDecision::Allow.redirect_target(), None);
}
