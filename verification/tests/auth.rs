//! Credentials, sessions and what each request gets.

use remote_desktop::auth::{
    auth_middleware, build_session_cookie, extract_session_token, is_request_secure,
    login_handler, logout_handler, session_check, Access, AuthState, Credentials, LoginForm,
    SESSION_SECS, STATUS_BAD_REQUEST, STATUS_OK, STATUS_UNAUTHORIZED,
};
use remote_desktop::config::AuthConfig;

fn state() -> AuthState {
    AuthState::new(&AuthConfig { username: "alice".to_string(), password: "secret".to_string() })
}

fn bearer(header: &str) -> Credentials<'_> {
    Credentials { authorization: Some(header), cookie: None, query: None }
}

const NOBODY: Credentials<'static> = Credentials { authorization: None, cookie: None, query: None };

#[test]
fn login_needs_both_name_and_password() {
    let mut s = state();
    assert!(s.login("alice", "wrong").is_none());
    assert!(s.login("bob", "secret").is_none());
    assert!(s.login("", "").is_none());
    assert!(s.login("alice", "secret").is_some());
}

#[test]
fn token_spells_the_random_bytes_in_hexadecimal() {
    let mut s = state();
    let mut random = [0u8; 32];
    random[0] = 0xAB;
    random[31] = 0x0F;
    let token = s.login_with("alice", "secret", random).unwrap();
    assert_eq!(token, format!("ab{}0f", "00".repeat(30)));
    assert!(s.is_valid_session(&token));
}

#[test]
fn random_tokens_differ() {
    let mut s = state();
    let a = s.login("alice", "secret").unwrap();
    let b = s.login("alice", "secret").unwrap();
    assert_ne!(a, b);
    assert_eq!(a.len(), 64);
    assert!(a.chars().all(|c| c.is_ascii_digit() || ('a'..='f').contains(&c)));
    assert!(s.is_valid_session(&a) && s.is_valid_session(&b));
}

#[test]
fn logout_closes_one_session_only() {
    let mut s = state();
    let a = s.login("alice", "secret").unwrap();
    let b = s.login("alice", "secret").unwrap();
    s.logout(&a);
    assert!(!s.is_valid_session(&a));
    assert!(s.is_valid_session(&b));
    s.logout("no such token");
    assert!(s.is_valid_session(&b));
}

#[test]
fn tokens_are_looked_for_in_three_places() {
    let c = Credentials {
        authorization: Some("Bearer  one "),
        cookie: Some("session=two"),
        query: Some("token=three"),
    };
    assert_eq!(extract_session_token(&c).as_deref(), Some("one"));
    let c = Credentials {
        authorization: Some("Bearer   "),
        cookie: Some("theme=dark; session= two ; session=four"),
        query: Some("token=three"),
    };
    assert_eq!(extract_session_token(&c).as_deref(), Some("two"));
    let c = Credentials {
        authorization: Some("Basic abc"),
        cookie: Some("session=; other=1"),
        query: Some("a=b&token=&token=three"),
    };
    assert_eq!(extract_session_token(&c).as_deref(), Some("three"));
    assert!(extract_session_token(&NOBODY).is_none());
}

#[test]
fn public_paths_need_no_session() {
    let s = state();
    for path in ["/login", "/api/login", "/", "/index.html", "/app.js", "/x/y.wasm", "/a.css",
        "/logo.png", "/favicon.ico"]
    {
        assert_eq!(auth_middleware(&s, path, &NOBODY), Access::Granted, "{path}");
    }
}

#[test]
fn private_paths_need_a_session() {
    let mut s = state();
    assert_eq!(auth_middleware(&s, "/api/stats", &NOBODY), Access::Unauthorized);
    assert_eq!(auth_middleware(&s, "/ws", &NOBODY), Access::Unauthorized);
    assert_eq!(auth_middleware(&s, "/other.html", &NOBODY), Access::RedirectToLogin);
    assert_eq!(auth_middleware(&s, "/api/stats", &bearer("Bearer nope")), Access::Unauthorized);
    assert_eq!(session_check(&s, &NOBODY), STATUS_UNAUTHORIZED);
    let token = s.login("alice", "secret").unwrap();
    let header = format!("Bearer {token}");
    for path in ["/api/stats", "/ws", "/other.html"] {
        assert_eq!(auth_middleware(&s, path, &bearer(&header)), Access::Granted);
    }
    assert_eq!(session_check(&s, &bearer(&header)), STATUS_OK);
}

#[test]
fn cookies_are_secure_over_https_only() {
    assert_eq!(
        build_session_cookie("abc", SESSION_SECS, false),
        "session=abc; Path=/; HttpOnly; SameSite=Lax; Max-Age=86400"
    );
    assert_eq!(
        build_session_cookie("", 0, true),
        "session=; Path=/; HttpOnly; SameSite=Lax; Max-Age=0; Secure"
    );
}

#[test]
fn the_proxy_header_says_whether_a_request_is_secure() {
    assert!(is_request_secure(Some("HTTPS"), Some("http")));
    assert!(!is_request_secure(Some("http"), Some("https")));
    assert!(is_request_secure(None, Some("Https")));
    assert!(!is_request_secure(None, Some("http")));
    assert!(!is_request_secure(None, None));
}

#[test]
fn login_and_logout_answers() {
    let mut s = state();
    let r = login_handler(&mut s, None, false);
    assert_eq!((r.status, r.cookie, r.body.as_str()), (STATUS_BAD_REQUEST, None, ""));

    let wrong = LoginForm { username: "alice".to_string(), password: "x".to_string() };
    let r = login_handler(&mut s, Some(wrong), false);
    assert_eq!((r.status, r.cookie, r.body.as_str()), (STATUS_UNAUTHORIZED, None, ""));

    let right = LoginForm { username: "alice".to_string(), password: "secret".to_string() };
    let r = login_handler(&mut s, Some(right), true);
    assert_eq!(r.status, STATUS_OK);
    assert!(s.is_valid_session(&r.body));
    assert_eq!(r.cookie, Some(build_session_cookie(&r.body, 86400, true)));

    let header = format!("Bearer {}", r.body);
    let out = logout_handler(&mut s, &bearer(&header), false);
    assert_eq!(out.status, STATUS_OK);
    assert_eq!(out.cookie, Some(build_session_cookie("", 0, false)));
    assert!(!s.is_valid_session(&r.body));
}

#[test]
fn sessions_follow_the_history_of_logins_and_logouts() {
    let mut s = state();
    let token = |n: u8| {
        let mut probe = state();
        probe.login_with("alice", "secret", [n; 32]).unwrap()
    };
    let (a, b, c) = (token(1), token(2), token(3));
    assert!(!s.is_valid_session(&a));
    assert_eq!(s.login_with("alice", "secret", [1; 32]), Some(a.clone()));
    assert_eq!(s.login_with("alice", "wrong", [2; 32]), None);
    assert_eq!(s.login_with("alice", "secret", [3; 32]), Some(c.clone()));
    s.logout(&b);
    s.logout(&a);
    s.logout(&a);
    assert!(!s.is_valid_session(&a) && !s.is_valid_session(&b) && s.is_valid_session(&c));
    // A login behind the logout opens the session again.
    assert_eq!(s.login_with("alice", "secret", [1; 32]), Some(a.clone()));
    assert!(s.is_valid_session(&a));
}
