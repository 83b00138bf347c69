use share_one_list::auth::cloud_config;
use share_one_list::errors::AppError;
use share_one_list::models::{AccountEntry, CloudEnvironment};
use share_one_list::sessions::{
    authorize_url, code_exchange_form, is_missing_session, keyring_outcome, login_display_name,
    merge_login_account, read_callback, redirect_uri, refresh_form, token_url, AuthModule,
    AuthSession, IdTokenClaims, RefreshPlan, TokenGrant,
};

fn grant(access: &str, refresh: Option<&str>) -> TokenGrant {
    TokenGrant {
        access_token: access.to_string(),
        refresh_token: refresh.map(|s| s.to_string()),
        expires_in: 3600,
        id_token: None,
    }
}

fn auth_message(r: Result<String, AppError>) -> String {
    match r {
        Err(AppError::Auth { message, .. }) => message,
        other => panic!("unexpected {:?}", other),
    }
}

#[test]
fn sessions_open_register_and_answer_token_lookups() {
    let mut auth = AuthModule::new();
    let claims = IdTokenClaims {
        name: None,
        preferred_username: Some("user@contoso.com".to_string()),
        oid: Some("oid-1".to_string()),
        sub: Some("sub-1".to_string()),
    };
    let session = auth.open_session(&CloudEnvironment::Global, grant("at-1", None), Some(claims), 1000);
    assert_eq!(session.home_account_id, "oid-1");
    assert_eq!(session.display_name, "user@contoso.com");
    assert_eq!(session.refresh_token, "");
    assert_eq!(session.expires_at, 4600);
    assert!(auth.has_session(&CloudEnvironment::Global, "oid-1"));
    assert_eq!(auth.access_token(&CloudEnvironment::Global, "oid-1").unwrap(), "at-1");
    assert_eq!(auth.any_account(&CloudEnvironment::Global).unwrap(), "oid-1");
    assert_eq!(
        auth_message(auth.any_account(&CloudEnvironment::China)),
        "No active session. Please login first."
    );

    auth.register_session(&CloudEnvironment::Global, session, "acct-1", "drive-1");
    assert!(!auth.has_session(&CloudEnvironment::Global, "oid-1"));
    assert_eq!(auth.get_session(&CloudEnvironment::Global, "acct-1").unwrap().access_token, "at-1");
    assert_eq!(auth.account_for_drive(&CloudEnvironment::Global, "drive-1").unwrap(), "acct-1");
    assert_eq!(
        auth_message(auth.account_for_drive(&CloudEnvironment::China, "drive-1")),
        "No active session for this drive. Please login first."
    );

    auth.logout(&CloudEnvironment::Global, Some("acct-1"));
    assert!(!auth.has_session(&CloudEnvironment::Global, "acct-1"));
    assert!(auth.account_for_drive(&CloudEnvironment::Global, "drive-1").is_err());
    assert_eq!(
        auth_message(auth.access_token(&CloudEnvironment::Global, "acct-1")),
        "No active session for this account. Please login first."
    );
}

#[test]
fn refreshes_follow_the_expiry_and_the_outcome() {
    let mut auth = AuthModule::new();
    let s = auth.open_session(&CloudEnvironment::China, grant("at", Some("rt")), None, 0);
    assert_eq!(s.display_name, "Unknown User");
    let id = s.home_account_id.clone();
    assert_eq!(id.len(), 36);
    assert!(matches!(auth.refresh_plan(&CloudEnvironment::China, &id, 3000), RefreshPlan::Fresh));
    match auth.refresh_plan(&CloudEnvironment::China, &id, 3300) {
        RefreshPlan::Refresh(t) => assert_eq!(t, "rt"),
        other => panic!("unexpected {:?}", other),
    }
    auth.finish_refresh(&CloudEnvironment::China, &id, "rt", Ok(grant("at-2", None)), 5000).unwrap();
    let s = auth.get_session(&CloudEnvironment::China, &id).unwrap();
    assert_eq!(s.access_token, "at-2");
    assert_eq!(s.refresh_token, "rt");
    assert_eq!(s.expires_at, 8600);
    match auth.finish_refresh(&CloudEnvironment::China, &id, "rt", Err("invalid_grant".to_string()), 9000) {
        Err(AppError::Auth { message, cloud_env }) => {
            assert_eq!(message, "Token expired. Please re-login. (invalid_grant)");
            assert_eq!(cloud_env, CloudEnvironment::China);
        }
        other => panic!("unexpected {:?}", other),
    }
    assert!(!auth.has_session(&CloudEnvironment::China, &id));
    let quiet = AppError::Auth {
        message: "No active session for this account. Please login first.".to_string(),
        cloud_env: CloudEnvironment::China,
    };
    assert!(is_missing_session(&quiet));
}

#[test]
fn logging_out_a_cloud_forgets_all_of_it() {
    let mut auth = AuthModule::new();
    let mk = |id: &str| AuthSession {
        cloud_env: CloudEnvironment::Global,
        client_id: "c".to_string(),
        access_token: format!("at-{}", id),
        refresh_token: String::new(),
        expires_at: 0,
        home_account_id: id.to_string(),
        display_name: id.to_string(),
    };
    auth.register_session(&CloudEnvironment::Global, mk("a"), "a", "da");
    auth.register_session(&CloudEnvironment::Global, mk("b"), "b", "");
    auth.register_session(&CloudEnvironment::China, mk("c"), "c", "dc");
    auth.logout(&CloudEnvironment::Global, None);
    assert!(!auth.has_session(&CloudEnvironment::Global, "a"));
    assert!(!auth.has_session(&CloudEnvironment::Global, "b"));
    assert!(auth.has_session(&CloudEnvironment::China, "c"));
    assert_eq!(auth.account_for_drive(&CloudEnvironment::China, "dc").unwrap(), "c");
    assert!(auth.account_for_drive(&CloudEnvironment::Global, "da").is_err());
}

#[test]
fn the_sign_in_request_and_token_forms() {
    let cfg = cloud_config(&CloudEnvironment::Global);
    let url = authorize_url(&cfg, "http://localhost:5000", "st ate", "ch");
    assert!(url.starts_with("https://login.microsoftonline.com/common/oauth2/v2.0/authorize?client_id="));
    assert!(url.contains("&redirect_uri=http%3A%2F%2Flocalhost%3A5000&"));
    assert!(url.contains("&state=st%20ate&code_challenge=ch&code_challenge_method=S256"));
    assert!(url.contains("offline_access"));
    assert_eq!(redirect_uri(5000), "http://localhost:5000");
    assert_eq!(token_url(&cfg), "https://login.microsoftonline.com/common/oauth2/v2.0/token");
    let form = code_exchange_form(&cfg, "code-1", "http://localhost:5000", "ver");
    assert_eq!(form[1], ("grant_type".to_string(), "authorization_code".to_string()));
    assert!(form[5].1.ends_with(" offline_access"));
    let form = refresh_form(&cfg, "rt");
    assert_eq!(form[2], ("refresh_token".to_string(), "rt".to_string()));
}

#[test]
fn the_redirect_back_is_checked() {
    let (code, page) = read_callback("GET /?code=abc&state=s1 HTTP/1.1\r\n", "s1");
    assert_eq!(code.unwrap(), "abc");
    assert!(page.unwrap().contains("Login Successful!"));
    let (r, page) = read_callback("GET /?code=abc&state=other HTTP/1.1\r\n", "s1");
    assert_eq!(r.unwrap_err(), "State mismatch in OAuth callback. Possible CSRF attack.");
    assert!(page.is_none());
    let (r, page) = read_callback("GET /?error=access_denied&error_description=User%20cancelled HTTP/1.1\r\n", "s1");
    assert_eq!(r.unwrap_err(), "Authorization failed: User cancelled");
    let page = page.unwrap();
    assert!(page.starts_with("HTTP/1.1 200 OK\r\nContent-Type: text/html\r\nContent-Length: "));
    assert!(page.contains("<p>User cancelled</p>"));
    let (r, _) = read_callback("GET /?state=s1 HTTP/1.1", "s1");
    assert_eq!(r.unwrap_err(), "Missing authorization code in callback");
    let (r, _) = read_callback("GET /?code=x HTTP/1.1", "s1");
    assert_eq!(r.unwrap_err(), "Missing state parameter in callback");
    let (r, _) = read_callback("GET", "s1");
    assert_eq!(r.unwrap_err(), "Invalid HTTP request");
}

#[test]
fn a_login_replaces_stale_entries_and_keeps_personalization() {
    let entry = |id: &str, drive: &str, name: &str, alias: Option<&str>| AccountEntry {
        home_account_id: id.to_string(),
        drive_id: drive.to_string(),
        cloud_type: CloudEnvironment::Global,
        display_name: name.to_string(),
        account_type: None,
        alias: alias.map(|s| s.to_string()),
        icon: None,
    };
    let accounts = vec![
        entry("u1", "d1", "User One", Some("Work")),
        entry("u2", "d2", "User Two", None),
        entry("old", "d9", "User One", None),
    ];
    let merged = merge_login_account(accounts, entry("u1", "d1", "User One", None));
    assert_eq!(merged.len(), 2);
    assert_eq!(merged[0].home_account_id, "u2");
    assert_eq!(merged[1].home_account_id, "u1");
    assert_eq!(merged[1].alias.as_deref(), Some("Work"));
    assert_eq!(login_display_name(Some(String::new()), "Session Name"), "Session Name");
    assert_eq!(login_display_name(Some("Graph Name".to_string()), "Session Name"), "Graph Name");
}

#[test]
fn test_auth_module_new() {
    let module = AuthModule::new();
    assert!(!module.has_session(&CloudEnvironment::Global, "account-1"));
    assert!(!module.has_session(&CloudEnvironment::China, "account-2"));
}

#[test]
fn keyring_outcome_words_each_answer() {
    assert_eq!(keyring_outcome(Ok(Ok(())), "Keyring delete failed: "), Ok(()));
    assert_eq!(
        keyring_outcome(Err("no store".to_string()), "Keyring delete failed: "),
        Err("Keyring entry creation failed: no store".to_string())
    );
    assert_eq!(
        keyring_outcome(Ok(Err("locked".to_string())), "Keyring set_password failed: "),
        Err("Keyring set_password failed: locked".to_string())
    );
}
