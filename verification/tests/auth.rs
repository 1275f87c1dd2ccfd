use pesde::auth::GitAccount;
use pesde::AuthConfig;

#[test]
fn test_auth_config_default_token() {
    let config = AuthConfig::new();
    assert_eq!(config.default_token(), None);
    assert_eq!(config.get_token("https://example.com/index"), None);
    let config = config.with_default_token(Some("secret"));
    assert_eq!(config.default_token(), Some("secret"));
    assert_eq!(config.get_token("https://example.com/index"), Some("secret"));
    let config = config.with_default_token(None);
    assert_eq!(config.default_token(), None);
}

#[test]
fn test_auth_config_token_overrides() {
    let config = AuthConfig::new().with_default_token(Some("default")).with_token_overrides(vec![
        ("https://b.example/index".to_string(), "b1".to_string()),
        ("https://a.example/index".to_string(), "a".to_string()),
        ("https://b.example/index".to_string(), "b2".to_string()),
    ]);
    // a URL given twice keeps the later token
    assert_eq!(config.get_token("https://b.example/index"), Some("b2"));
    assert_eq!(config.get_token("https://a.example/index"), Some("a"));
    // any other URL falls back to the default token
    assert_eq!(config.get_token("https://c.example/index"), Some("default"));
    assert_eq!(config.token_overrides().len(), 2);
    assert_eq!(config.token_overrides().key_at(0), "https://a.example/index");
    // setting the overrides again drops the earlier ones
    let config = config.with_token_overrides(vec![]);
    assert_eq!(config.token_overrides().len(), 0);
    assert_eq!(config.get_token("https://a.example/index"), Some("default"));
}

#[test]
fn test_auth_config_git_credentials() {
    let config = AuthConfig::new();
    assert!(config.git_credentials().is_none());
    let config = config.with_git_credentials(Some(GitAccount { username: "me".to_string(), password: "pw".to_string() }));
    let account = config.git_credentials().unwrap();
    assert_eq!(account.username, "me");
    assert_eq!(account.password, "pw");
}
