use pesde::login::{login_index, login_token, AccessTokenResponse, DeviceFlow, FlowOutcome, LoginIndexError};
use pesde::strmap::StrMap;

fn indices() -> StrMap<String> {
    let mut m = StrMap::new();
    m.insert("default".to_string(), "https://example.com/default".to_string());
    m.insert("other".to_string(), "https://example.com/other".to_string());
    m
}

#[test]
fn test_login_index() {
    let m = indices();
    // a named index that reads as a URL is used as it is
    assert_eq!(
        login_index(Some("https://x.com/i"), Some("https://x.com/i".to_string()), None, "https://d").ok().unwrap(),
        "https://x.com/i"
    );
    assert_eq!(login_index(Some("other"), None, Some(&m), "https://d").ok().unwrap(), "https://example.com/other");
    assert!(matches!(login_index(Some("none"), None, Some(&m), "https://d"), Err(LoginIndexError::NotFound(n)) if n == "none"));
    assert_eq!(login_index(None, None, Some(&m), "https://d").ok().unwrap(), "https://example.com/default");
    assert_eq!(login_index(None, None, None, "https://d").ok().unwrap(), "https://d");
    let empty = StrMap::new();
    assert!(matches!(login_index(None, None, Some(&empty), "https://d"), Err(LoginIndexError::NotFound(n)) if n == "default"));
}

#[test]
fn test_device_flow() {
    let mut flow = DeviceFlow::new(12, 5);
    assert_eq!(flow.next_poll(), Some(5));
    assert_eq!(flow.time_left, 7);
    assert!(matches!(flow.on_response(AccessTokenResponse::AuthorizationPending), FlowOutcome::Continue));
    assert!(matches!(flow.on_response(AccessTokenResponse::SlowDown(10)), FlowOutcome::Continue));
    assert_eq!(flow.interval, 10);
    assert_eq!(flow.next_poll(), Some(10));
    assert_eq!(flow.time_left, 0);
    assert_eq!(flow.next_poll(), None);
    assert!(matches!(flow.on_response(AccessTokenResponse::Success("tok".to_string())), FlowOutcome::Token(t) if t == "tok"));
    assert!(matches!(flow.on_response(AccessTokenResponse::ExpiredToken), FlowOutcome::Expired));
    assert!(matches!(flow.on_response(AccessTokenResponse::AccessDenied), FlowOutcome::Denied));
}

#[test]
fn test_login_token() {
    assert_eq!(login_token(true, "abc"), "abc");
    assert_eq!(login_token(false, "abc"), "Bearer abc");
}
