use deckox::server::auth::{begin_password_change, finish_password_change, handle_login, TotpSecret};
use deckox::protocol::AuditEvent;
use deckox::server::agent_client::{parse_response, request_text, require_success, AgentClient};
use deckox::server::audit::{append_entry, default_limit, export_of, page_of, stored_lines};
use deckox::server::auth::{
    account_file_from, account_from_hash, admin_account, hash_password, is_rate_limited,
    record_failure, requires_same_origin, same_origin, secure_cookie_setting, session_token,
    Account, AuthManager, ChangePasswordResult, LoginResult, PasswordConfirmationResult,
    ADMIN_ACCOUNT, MAX_FAILURES,
};
use deckox::table::Table;

/// A published Argon2id test vector with small parameters: the password
/// "password" with the salt "somesalt", so the tests stay fast.
const HASH: &str = "$argon2id$v=19$m=256,t=2,p=1$c29tZXNhbHQ$nf65EOgLrQMR/uIPnA4rEsF5h7TKyQwu9U1bMCHGi/4";

const SECOND: u64 = 1_000_000_000;

fn test_auth(persistent: bool) -> AuthManager {
    AuthManager::new(
        Account { password_hash: HASH.to_owned(), totp: None, updated_at_ms: 1 },
        if persistent { Some("/var/lib/deckox/admin.json".to_owned()) } else { None },
        false,
    )
}

fn event(name: &str, at: u64) -> AuditEvent {
    AuditEvent {
        timestamp_ms: at,
        event: name.to_owned(),
        actor: "admin".to_owned(),
        source_ip: "192.0.2.1".to_owned(),
        result: "success".to_owned(),
        detail: None,
    }
}

#[test]
fn parses_agent_http_response() {
    let response = parse_response(
        b"HTTP/1.1 200 OK\r\ncontent-type: application/json\r\ncontent-length: 15\r\n\r\n{\"status\":\"ok\"}",
    )
    .expect("response should parse");

    assert_eq!(response.status, 200);
    assert_eq!(response.body["status"], "ok");
}

#[test]
fn preserves_agent_error_status() {
    let response = parse_response(
        b"HTTP/1.1 403 Forbidden\r\ncontent-type: application/json\r\n\r\n{\"code\":\"forbidden\",\"message\":\"denied\"}",
    )
    .expect("response should parse");

    assert_eq!(response.status, 403);
    assert_eq!(response.body["code"], "forbidden");
}

#[test]
fn a_response_without_headers_or_json_is_refused() {
    assert!(parse_response(b"HTTP/1.1 200 OK\r\n").is_err());
    assert!(parse_response(b"HTTP/1.1 200 OK\r\n\r\nnot json").is_err());
    assert!(parse_response(b"garbage\r\n\r\n{}").is_err());
}

#[test]
fn an_empty_body_is_not_json() {
    let error = parse_response(b"HTTP/1.1 204 No Content\r\n\r\n").err().expect("refused");
    assert!(error.starts_with("Agent returned invalid JSON: "), "{error}");
}

#[test]
fn requests_close_the_connection() {
    assert_eq!(
        request_text("GET", "/v1/health"),
        "GET /v1/health HTTP/1.1\r\nHost: agent\r\nConnection: close\r\n\r\n"
    );
    assert!(require_success(200).is_ok());
    assert!(require_success(404).is_err());
    let _client = AgentClient::new("/run/deckox/agent.sock".to_owned());
}

#[test]
fn records_events_newest_first() {
    let mut log = Vec::new();
    append_entry(&mut log, event("auth_login", 1));
    append_entry(&mut log, event("auth_logout", 2));

    let page = page_of(log, 10, None);
    assert_eq!(page.events.len(), 2);
    assert_eq!(page.events[0].event, "auth_logout");
    assert_eq!(page.events[1].event, "auth_login");
    assert!(!page.has_more);
}

#[test]
fn caps_stored_entries_and_reports_has_more() {
    let mut log = Vec::new();
    for at in 0..5 {
        append_entry(&mut log, event("service_action", at));
    }

    let page = page_of(log, 2, None);
    assert_eq!(page.events.len(), 2);
    assert!(page.has_more);
}

#[test]
fn pages_before_a_time_and_exports_everything() {
    let log: Vec<AuditEvent> = (1..=4).map(|at| event("x", at)).collect();
    let page = page_of(log.clone(), 10, Some(3));
    assert_eq!(page.events.iter().map(|e| e.timestamp_ms).collect::<Vec<_>>(), [2, 1]);
    let export = export_of(log);
    assert_eq!(export.events.len(), 4);
    assert_eq!(export.events[0].timestamp_ms, 4);
    assert_eq!(default_limit(), 100);
}

#[test]
fn the_log_keeps_at_most_five_thousand_entries() {
    let mut log = Vec::new();
    for at in 0..5003 {
        append_entry(&mut log, event("x", at));
    }
    assert_eq!(log.len(), 5000);
    assert_eq!(log[0].timestamp_ms, 3);
    assert_eq!(stored_lines("a\n\n b \n"), vec!["a".to_owned(), " b ".to_owned()]);
}

#[test]
fn hashes_password_with_argon2id() {
    let hash = hash_password("test-password").expect("password should hash");
    assert!(hash.starts_with("$argon2id$"));
    assert!(hash_password("").is_err());
    let mut auth = AuthManager::new(
        Account { password_hash: hash, totp: None, updated_at_ms: 0 },
        None,
        false,
    );
    assert!(matches!(auth.login("192.0.2.9", "test-password", 1), LoginResult::Authenticated(_)));
}

#[test]
fn extracts_session_cookie() {
    assert_eq!(
        session_token(Some("theme=light; deckox_session=abc123")).as_deref(),
        Some("abc123")
    );
    assert_eq!(session_token(Some("theme=light")), None);
    assert_eq!(session_token(None), None);
}

#[test]
fn validates_same_origin() {
    assert!(same_origin(Some("192.168.1.21:8080"), Some("http://192.168.1.21:8080")));
    assert!(!same_origin(Some("192.168.1.21:8080"), Some("http://evil.example")));
}

#[test]
fn websocket_upgrade_requires_same_origin() {
    let websocket = b"websocket".to_vec();
    assert!(requires_same_origin("GET", Some(&websocket)));
    assert!(!requires_same_origin("GET", None));
    assert!(requires_same_origin("POST", None));
}

#[test]
fn rate_limits_password_confirmation_failures() {
    let mut failures = Table::new();
    for attempt in 0..MAX_FAILURES as u64 {
        record_failure(&mut failures, "192.0.2.1", attempt * SECOND);
    }
    assert!(is_rate_limited(&mut failures, "192.0.2.1", 10 * SECOND));
    assert!(!is_rate_limited(&mut failures, "192.0.2.2", 10 * SECOND));
    assert!(!is_rate_limited(&mut failures, "192.0.2.1", 400 * SECOND), "failures expire");
}

#[test]
fn confirms_current_password_and_clears_failures() {
    let mut auth = test_auth(true);
    let address = "192.0.2.2";

    for attempt in 0..4 {
        assert!(matches!(
            auth.confirm_current_password(address, "wrong-password", attempt * SECOND),
            PasswordConfirmationResult::Invalid
        ));
    }
    assert!(matches!(
        auth.confirm_current_password(address, "password", 5 * SECOND),
        PasswordConfirmationResult::Confirmed
    ));
    assert!(matches!(
        auth.confirm_current_password(address, "wrong-password", 6 * SECOND),
        PasswordConfirmationResult::Invalid
    ));
    assert!(
        matches!(
            auth.confirm_current_password(address, "password", 7 * SECOND),
            PasswordConfirmationResult::Confirmed
        ),
        "successful confirmation should clear failures"
    );
}

#[test]
fn login_opens_a_session_that_logout_closes() {
    let mut auth = test_auth(false);
    let token = match auth.login("192.0.2.3", "password", SECOND) {
        LoginResult::Authenticated(token) => token,
        _ => panic!("the right password logs in"),
    };
    assert_eq!(token.len(), 64);
    assert!(token.chars().all(|c| c.is_ascii_digit() || ('a'..='f').contains(&c)));
    assert!(auth.is_authenticated(Some(&token), 2 * SECOND));
    assert!(!auth.is_authenticated(Some("other"), 2 * SECOND));
    assert!(auth.session_cookie(&token).starts_with(&format!("deckox_session={token}")));
    auth.logout(Some(&token));
    assert!(!auth.is_authenticated(Some(&token), 3 * SECOND));
}

#[test]
fn five_wrong_logins_lock_out_the_address() {
    let mut auth = test_auth(false);
    for attempt in 0..5 {
        assert!(matches!(
            auth.login("192.0.2.4", "guess", attempt * SECOND),
            LoginResult::Invalid
        ));
    }
    assert!(matches!(
        auth.login("192.0.2.4", "password", 6 * SECOND),
        LoginResult::RateLimited
    ));
}

#[test]
fn a_password_change_needs_a_persistent_account() {
    let mut auth = test_auth(false);
    assert!(matches!(
        auth.prepare_password_change("192.0.2.5", "password", "new-password-1234", SECOND),
        Err(ChangePasswordResult::NotPersistent)
    ));
    let mut auth = test_auth(true);
    assert!(matches!(
        auth.prepare_password_change("192.0.2.5", "password", "short", SECOND),
        Err(ChangePasswordResult::InvalidNewPassword)
    ));
}

#[test]
fn upgrades_legacy_bare_hash_file_on_read() {
    let file = account_file_from(&format!("{HASH}\n"), None).expect("legacy hash should parse");
    let account = admin_account(file, "/var/lib/deckox/admin.json").expect("admin account");
    assert_eq!(account.password_hash, HASH);
    assert!(account.totp.is_none());
    assert!(account_from_hash("not-a-hash").is_err());
}

#[test]
fn reads_current_json_account_format() {
    let content = format!(
        r#"{{"accounts":{{"admin":{{"password_hash":"{HASH}","totp":null,"updated_at_ms":123}}}}}}"#
    );
    let parsed = parse_account_file(&content);
    let file = account_file_from(&content, parsed).expect("account file should parse");
    let account = admin_account(file, "/var/lib/deckox/admin.json").expect("admin account");
    assert_eq!(account.password_hash, HASH);
    assert_eq!(account.updated_at_ms, 123);
    assert!(account.totp.is_none());

    let empty = deckox::server::auth::AccountFile { accounts: vec![] };
    assert_eq!(
        admin_account(empty, "/x.json").err(),
        Some("/x.json does not contain an admin account".to_owned())
    );
}

/// The account file's JSON form read into the library's type, as the
/// Server does before handing it to `account_file_from`.
fn parse_account_file(content: &str) -> Option<deckox::server::auth::AccountFile> {
    let value: serde_json::Value = serde_json::from_str(content.trim()).ok()?;
    let accounts = value.get("accounts")?.as_object()?;
    let mut list = Vec::new();
    for (name, account) in accounts {
        list.push((
            name.clone(),
            Account {
                password_hash: account.get("password_hash")?.as_str()?.to_owned(),
                totp: None,
                updated_at_ms: account.get("updated_at_ms").and_then(|v| v.as_u64()).unwrap_or(0),
            },
        ));
    }
    Some(deckox::server::auth::AccountFile { accounts: list })
}

#[test]
fn the_secure_flag_is_on_only_for_true() {
    assert!(secure_cookie_setting(Some("true")));
    assert!(!secure_cookie_setting(Some("1")));
    assert!(!secure_cookie_setting(None));
}

#[test]
fn a_login_from_another_origin_is_refused_before_the_password_is_checked() {
    let mut auth = test_auth(false);
    let refused = handle_login(&mut auth, Some("192.168.1.21:8080"), Some("http://evil.example"), "192.0.2.7", "password", SECOND);
    assert_eq!(refused.status, 403);
    let accepted = handle_login(&mut auth, Some("192.168.1.21:8080"), Some("http://192.168.1.21:8080"), "192.0.2.7", "password", SECOND);
    assert_eq!(accepted.status, 200);
    assert!(accepted.authenticated);
    let wrong = handle_login(&mut auth, Some("h:1"), Some("http://h:1"), "192.0.2.7", "nope", 2 * SECOND);
    assert_eq!(wrong.status, 401);
}

#[test]
fn a_password_change_keeps_the_second_factor_and_the_file() {
    let mut auth = AuthManager::new(
        Account {
            password_hash: HASH.to_owned(),
            totp: Some(TotpSecret {
                secret_base32: "JBSWY3DPEHPK3PXP".to_owned(),
                recovery_code_hashes: vec!["a".to_owned(), "b".to_owned()],
            }),
            updated_at_ms: 1,
        },
        Some("/var/lib/deckox/admin.json".to_owned()),
        false,
    );
    let refused = begin_password_change(&mut auth, "192.0.2.8", "wrong-password", "new-password-1234", SECOND, 5)
        .err()
        .expect("wrong current password");
    assert_eq!(refused.status, 401);
    let (path, account) = begin_password_change(&mut auth, "192.0.2.8", "password", "new-password-1234", SECOND, 5)
        .ok()
        .expect("changed");
    assert_eq!(path, "/var/lib/deckox/admin.json");
    assert_eq!(account.updated_at_ms, 5);
    let totp = account.totp.expect("two-factor kept");
    assert_eq!(totp.secret_base32, "JBSWY3DPEHPK3PXP");
    assert_eq!(totp.recovery_code_hashes, vec!["a".to_owned(), "b".to_owned()]);
    let mut check = AuthManager::new(
        Account { password_hash: account.password_hash, totp: None, updated_at_ms: 5 },
        None,
        false,
    );
    assert!(matches!(check.login("192.0.2.9", "new-password-1234", SECOND), LoginResult::Authenticated(_)));
    assert_eq!(finish_password_change(&mut auth, Ok(())).status, 200);
    assert_eq!(finish_password_change(&mut auth, Err("disk full".to_owned())).status, 500);
}

#[test]
fn a_refused_password_change_names_its_reason_and_records_nothing() {
    let mut auth = test_auth(false);
    let refused = begin_password_change(&mut auth, "192.0.2.10", "password", "new-password-1234", SECOND, 1)
        .err()
        .expect("no account file");
    assert_eq!(refused.status, 409);
    assert_eq!(refused.error.map(|e| e.0), Some("password_change_unavailable"));
    assert!(refused.audit.is_none());
    let mut auth = test_auth(true);
    let refused = begin_password_change(&mut auth, "192.0.2.10", "password", "short", SECOND, 1)
        .err()
        .expect("too short");
    assert_eq!(refused.error.map(|e| e.0), Some("invalid_new_password"));
    assert!(refused.audit.is_none());
}
