use rusty_store::auth::Auth;
use rusty_store::errors::StoreError;
use rusty_store::models::UserRole;

#[test]
fn test_authentication() {
    let mut auth = Auth::new();

    assert!(auth.register(
        "test_user".to_string(),
        "password123".to_string(),
        UserRole::Employee
    ).is_ok());

    assert!(auth.login("test_user", "password123").is_ok());
    assert!(auth.login("test_user", "wrong_password").is_err());
}

#[test]
fn test_duplicate_username_rejected() {
    let mut auth = Auth::new();
    auth.register("sam".to_string(), "pw1".to_string(), UserRole::Employee).unwrap();
    let before = auth.users_json();
    let r = auth.register("sam".to_string(), "pw2".to_string(), UserRole::Manager);
    assert!(matches!(r, Err(StoreError::InvalidInput(_))));
    // the stored user set, hashes and all, is unchanged
    assert_eq!(auth.users_json(), before);
}

#[test]
fn test_login_failures_collapse() {
    let mut auth = Auth::new();
    auth.register("known".to_string(), "right".to_string(), UserRole::Employee).unwrap();
    // wrong password and unknown username fail the same way
    assert!(matches!(auth.login("known", "wrong"), Err(StoreError::AuthError)));
    assert!(matches!(auth.login("nobody", "right"), Err(StoreError::AuthError)));
    assert!(auth.get_current_user().is_none());
    // correct credentials succeed and set the session
    assert!(auth.login("known", "right").is_ok());
    assert_eq!(auth.get_current_user().unwrap().username, "known");
}

#[test]
fn test_is_manager_lifecycle() {
    let mut auth = Auth::new();
    // no session right after construction
    assert!(!auth.is_manager());
    auth.register("boss".to_string(), "pw".to_string(), UserRole::Manager).unwrap();
    auth.register("clerk".to_string(), "pw".to_string(), UserRole::Employee).unwrap();
    auth.login("clerk", "pw").unwrap();
    assert!(!auth.is_manager());
    auth.login("boss", "pw").unwrap();
    assert!(auth.is_manager());
    auth.logout();
    assert!(!auth.is_manager());
    assert!(auth.get_current_user().is_none());
}

#[test]
fn test_seed_default_admin() {
    let mut auth = Auth::new();
    assert!(auth.is_empty());
    auth.seed_default().unwrap();
    assert!(!auth.is_empty());
    assert!(auth.user_exists("admin"));
    assert!(auth.login("admin", "admin123").is_ok());
    assert!(auth.is_manager());
}

#[test]
fn test_register_hashed_is_exact() {
    let mut auth = Auth::new();
    assert!(auth.register_hashed(7, "u".to_string(), "h".to_string(), UserRole::Employee).is_ok());
    assert!(auth.user_exists("u"));
    let r = auth.register_hashed(8, "u".to_string(), "h2".to_string(), UserRole::Manager);
    assert!(matches!(r, Err(StoreError::InvalidInput(_))));
}

#[test]
fn test_users_json_round_trip() {
    let mut auth = Auth::new();
    auth.register("ann".to_string(), "pw-a".to_string(), UserRole::Manager).unwrap();
    auth.register("bob".to_string(), "pw-b".to_string(), UserRole::Employee).unwrap();
    let text = auth.users_json();

    let mut fresh = Auth::new();
    assert!(fresh.load_users(text.as_str()));
    assert!(fresh.user_exists("ann"));
    assert!(fresh.user_exists("bob"));
    // the hashes survived: the original passwords still log in
    assert!(fresh.login("ann", "pw-a").is_ok());
    assert!(fresh.login("bob", "pw-b").is_ok());
    assert!(fresh.login("ann", "pw-b").is_err());
    assert_eq!(fresh.users_json(), text);
}

#[test]
fn test_load_users_rejects_corrupt_text() {
    let mut auth = Auth::new();
    auth.register("keep".to_string(), "pw".to_string(), UserRole::Employee).unwrap();
    assert!(!auth.load_users("nonsense"));
    assert!(auth.user_exists("keep"));
}
