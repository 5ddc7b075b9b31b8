use remote_fs::auth::{AuthService, LoginRequest, RegisterRequest};
use remote_fs::error::FsError;

fn register(auth: &mut AuthService, user: &str, pass: &str) -> Result<String, FsError> {
    auth.register(RegisterRequest { username: user.to_string(), password: pass.to_string() })
}

fn login(auth: &AuthService, user: &str, pass: &str, now: u64) -> Result<remote_fs::auth::AuthResponse, FsError> {
    auth.login(LoginRequest { username: user.to_string(), password: pass.to_string() }, now)
}

#[test]
fn register_then_login() {
    let mut auth = AuthService::new();
    register(&mut auth, "alice", "secret1").unwrap();
    let resp = login(&auth, "alice", "secret1", 1000).unwrap();
    assert_eq!(resp.username, "alice");
    assert_eq!(resp.user_id, 1);
    assert_eq!(resp.expires_in, 3600);
}

#[test]
fn login_with_wrong_password_is_refused() {
    let mut auth = AuthService::new();
    register(&mut auth, "alice", "secret1").unwrap();
    assert!(matches!(login(&auth, "alice", "wrongpw", 1000), Err(FsError::Unauthenticated)));
    assert!(matches!(login(&auth, "nobody", "secret1", 1000), Err(FsError::Unauthenticated)));
}

#[test]
fn duplicate_username_is_refused() {
    let mut auth = AuthService::new();
    register(&mut auth, "alice", "secret1").unwrap();
    assert_eq!(register(&mut auth, "alice", "another-pass"), Err(FsError::Duplicate));
}

#[test]
fn short_password_is_refused() {
    let mut auth = AuthService::new();
    assert_eq!(register(&mut auth, "alice", "short"), Err(FsError::Invalid));
}

#[test]
fn user_ids_are_assigned_in_order() {
    let mut auth = AuthService::new();
    register(&mut auth, "alice", "secret1").unwrap();
    register(&mut auth, "bob", "secret2").unwrap();
    assert_eq!(login(&auth, "alice", "secret1", 1000).unwrap().user_id, 1);
    assert_eq!(login(&auth, "bob", "secret2", 1000).unwrap().user_id, 2);
}

#[test]
fn token_verifies_before_expiry_and_not_after() {
    let mut auth = AuthService::new();
    register(&mut auth, "alice", "secret1").unwrap();
    let resp = login(&auth, "alice", "secret1", 1000).unwrap();
    // valid strictly before expiry (one hour after issue)
    let ok = auth.validate_token(resp.token.as_str(), 4599).unwrap();
    assert_eq!(ok.0, "alice");
    assert_eq!(ok.1, 1);
    // at and past the expiry instant the token is refused
    assert!(auth.validate_token(resp.token.as_str(), 4600).is_err());
    assert!(auth.validate_token(resp.token.as_str(), 9999).is_err());
}

#[test]
fn tampered_token_is_refused() {
    let mut auth = AuthService::new();
    register(&mut auth, "alice", "secret1").unwrap();
    let resp = login(&auth, "alice", "secret1", 1000).unwrap();
    let mut tampered = resp.token.clone();
    tampered.push('x');
    assert!(auth.validate_token(tampered.as_str(), 1001).is_err());
    assert!(auth.validate_token("not-a-token", 1001).is_err());
}

#[test]
fn loaded_users_can_log_in_by_stored_hash() {
    // Mirror a persisted row (hash made by the same KDF), then log in.
    let mut auth = AuthService::new();
    register(&mut auth, "carol", "secret3").unwrap();
    let hash = auth.users[0].password_hash.clone();
    let mut fresh = AuthService::new();
    assert!(fresh.add_loaded_user("carol".to_string(), hash, 7));
    let resp = login(&fresh, "carol", "secret3", 50).unwrap();
    assert_eq!(resp.user_id, 7);
    assert!(!fresh.add_loaded_user("carol".to_string(), String::new(), 8));
}
