use orbitmail::account::bootstrap_check;
use orbitmail::account::needs_refresh;
use orbitmail::account::Account;
use orbitmail::account::AuthStore;
use orbitmail::account::UserProfile;

fn account(id: &str, token: &str, expires_at: i64) -> Account {
    Account {
        id: id.to_string(),
        email: format!("{}@example.com", id),
        provider: "google".to_string(),
        access_token: token.to_string(),
        refresh_token: "refresh".to_string(),
        expires_at,
        last_sync: None,
        profile_name: format!("Name {}", id),
        profile_picture: "pic".to_string(),
    }
}

#[test]
fn refresh_needed_when_token_empty() {
    let a = account("a", "", 10_000);
    assert!(needs_refresh(&a, 0));
}

#[test]
fn refresh_needed_when_expired() {
    let a = account("a", "tok", 1_000);
    assert!(needs_refresh(&a, 1_000));
    assert!(needs_refresh(&a, 1_001));
}

#[test]
fn refresh_not_needed_for_live_token() {
    let a = account("a", "tok", 1_000);
    assert!(!needs_refresh(&a, 999));
}

#[test]
fn bootstrap_reports_profile_and_expiry() {
    let a = account("a", "tok", 50);
    let r = bootstrap_check(Some(&a), 100);
    assert!(r.needs_refresh);
    let user = r.user.expect("profile expected");
    assert_eq!(user.email, "a@example.com");
    assert_eq!(user.name, "Name a");
    assert_eq!(user.picture, "pic");
    assert_eq!(user.provider, "google");

    let fresh = bootstrap_check(Some(&account("b", "tok", 200)), 100);
    assert!(!fresh.needs_refresh);
}

#[test]
fn bootstrap_without_active_account() {
    let r = bootstrap_check(None, 12345);
    assert!(r.user.is_none());
    assert!(!r.needs_refresh);
}

#[test]
fn profile_from_account() {
    let p = UserProfile::from(account("a", "tok", 0));
    assert_eq!(p.email, "a@example.com");
    assert_eq!(p.name, "Name a");
    assert_eq!(p.provider, "google");
}

#[test]
fn save_account_appends_and_sets_first_active() {
    let mut store = AuthStore::new();
    store.save_account(account("a", "t1", 1), false);
    assert_eq!(store.accounts.len(), 1);
    // the first account becomes active even without set_active
    assert_eq!(store.active_account_id.as_deref(), Some("a"));

    store.save_account(account("b", "t2", 2), false);
    assert_eq!(store.accounts.len(), 2);
    assert_eq!(store.active_account_id.as_deref(), Some("a"));

    store.save_account(account("b", "t3", 3), true);
    assert_eq!(store.accounts.len(), 2, "saving an existing id replaces it");
    assert_eq!(store.accounts[1].access_token, "t3");
    assert_eq!(store.active_account_id.as_deref(), Some("b"));
}

#[test]
fn get_active_account_follows_pointer() {
    let mut store = AuthStore::new();
    store.save_account(account("a", "t1", 1), false);
    store.save_account(account("b", "t2", 2), true);
    let active = store.get_active_account().expect("active account");
    assert_eq!(active.id, "b");

    let empty = AuthStore::new();
    assert!(empty.get_active_account().is_none());
}

#[test]
fn set_active_account_rejects_unknown_id() {
    let mut store = AuthStore::new();
    store.save_account(account("a", "t1", 1), true);
    assert_eq!(store.set_active_account("nope".to_string()), Err("Account not found".to_string()));
    assert_eq!(store.active_account_id.as_deref(), Some("a"));
    assert_eq!(store.set_active_account("a".to_string()), Ok(()));
}

#[test]
fn remove_account_resets_active_pointer() {
    let mut store = AuthStore::new();
    store.save_account(account("a", "t1", 1), false);
    store.save_account(account("b", "t2", 2), true);
    store.remove_account("b".to_string());
    assert_eq!(store.accounts.len(), 1);
    assert_eq!(
        store.active_account_id.as_deref(),
        Some("a"),
        "removing the active account falls back to the first remaining one"
    );
    store.remove_account("a".to_string());
    assert!(store.accounts.is_empty());
    assert!(store.active_account_id.is_none());
}

#[test]
fn load_accounts_returns_all() {
    let mut store = AuthStore::new();
    store.save_account(account("a", "t1", 1), false);
    store.save_account(account("b", "t2", 2), false);
    let all = store.load_accounts();
    assert_eq!(all.len(), 2);
    assert_eq!(all[0].id, "a");
    assert_eq!(all[1].id, "b");
}
