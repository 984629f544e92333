use ai_cli::auth::{AuthManager, AuthMethod};

#[test]
fn test_auth_manager_detect_cli_session() {
    let manager = AuthManager::new();

    // With a detected session the CLI method always wins.
    let auth = manager.resolve_auth("anthropic", true, None);
    assert!(matches!(auth, Ok(AuthMethod::CliAuth)));
}

#[test]
fn test_auth_manager_with_api_key() {
    let mut manager = AuthManager::new();

    manager.set_api_key("anthropic", "test_api_key");

    let auth = manager.resolve_auth("anthropic", false, None);
    assert!(auth.is_ok());

    if let Ok(AuthMethod::ApiKey { key }) = auth {
        assert_eq!(key, "test_api_key");
    }
}

#[test]
fn test_auth_manager_fallback_order() {
    let manager = AuthManager::new();

    // No session, no stored key: an environment key is the last resort.
    let auth = manager.resolve_auth("gemini", false, Some("env_key".to_string()));
    assert!(matches!(auth, Ok(AuthMethod::ApiKey { .. })));

    // A stored key beats the environment.
    let mut with_key = AuthManager::new();
    with_key.set_api_key("gemini", "stored");
    match with_key.resolve_auth("gemini", false, Some("env_key".to_string())) {
        Ok(AuthMethod::ApiKey { key }) => assert_eq!(key, "stored"),
        _ => panic!("expected the stored key"),
    }
}

#[test]
fn test_auth_manager_multiple_providers() {
    let mut manager = AuthManager::new();

    manager.set_api_key("anthropic", "anthropic_key");
    manager.set_api_key("gemini", "gemini_key");

    let anthropic_auth = manager.resolve_auth("anthropic", false, None);
    let gemini_auth = manager.resolve_auth("gemini", false, None);

    assert!(anthropic_auth.is_ok());
    assert!(gemini_auth.is_ok());
}

#[test]
fn test_auth_manager_unknown_provider() {
    let manager = AuthManager::new();

    let auth = manager.resolve_auth("unknown_provider", false, None);
    assert!(auth.is_err());
}

#[test]
fn test_cli_session_candidate_paths() {
    let manager = AuthManager::new();
    let paths = manager.cli_session_candidates("anthropic", "/home/u", None).unwrap();
    assert_eq!(paths.len(), 3);
    assert_eq!(
        paths[0],
        "/home/u/Library/Application Support/Code/User/globalStorage/anthropic.copilot"
    );
    assert_eq!(paths[2], "/home/u/.anthropic/config.json");

    let appdata = "C:/Users/u/AppData/Roaming".to_string();
    let gem = manager.cli_session_candidates("gemini", "/home/u", Some(&appdata)).unwrap();
    assert_eq!(gem.len(), 3);
    assert_eq!(gem[1], "C:/Users/u/AppData/Roaming/gcloud/application_default_credentials.json");

    assert!(manager.cli_session_candidates("mystery", "/home/u", None).is_err());
}

#[test]
fn test_env_key_aliases() {
    let manager = AuthManager::new();
    let anthropic = manager.env_key_aliases("anthropic");
    assert_eq!(anthropic, vec!["ANTHROPIC_API_KEY".to_string()]);

    let codex = manager.env_key_aliases("codex");
    assert_eq!(codex, vec!["CODEX_API_KEY".to_string()]);

    let other = manager.env_key_aliases("mistral");
    assert_eq!(other, vec!["MISTRAL_API_KEY".to_string()]);
}
