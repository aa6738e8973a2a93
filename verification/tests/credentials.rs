use kz_login::credentials::{protect, remove, same_account, sort_recent_first, unprotect, upsert, SavedLogin};

fn saved(account: &str, password: &str, at: i64) -> SavedLogin {
    SavedLogin { account: account.into(), password: password.into(), last_used: at }
}

#[test]
fn a_new_account_is_added() {
    let mut logins = vec![saved("alpha", "a", 1)];
    upsert(&mut logins, "beta", "b", 2);
    assert_eq!(logins, vec![saved("alpha", "a", 1), saved("beta", "b", 2)]);
}

#[test]
fn a_known_account_is_updated_not_duplicated() {
    let mut logins = vec![saved("Alpha", "old", 1)];
    upsert(&mut logins, "alpha", "new", 5);
    assert_eq!(logins, vec![saved("alpha", "new", 5)]);
}

#[test]
fn forgetting_ignores_case() {
    let mut logins = vec![saved("Alpha", "a", 1), saved("beta", "b", 2)];
    remove(&mut logins, "ALPHA");
    assert_eq!(logins, vec![saved("beta", "b", 2)]);
}

#[test]
fn most_recent_comes_first() {
    let mut logins = vec![saved("a", "", 1), saved("b", "", 3), saved("c", "", 2)];
    sort_recent_first(&mut logins);
    let order: Vec<_> = logins.iter().map(|l| l.account.as_str()).collect();
    assert_eq!(order, ["b", "c", "a"]);
}

#[test]
fn logins_used_at_the_same_time_keep_their_order() {
    let mut logins = vec![saved("x", "", 2), saved("y", "", 5), saved("z", "", 2), saved("w", "", 5)];
    sort_recent_first(&mut logins);
    let order: Vec<_> = logins.iter().map(|l| l.account.as_str()).collect();
    assert_eq!(order, ["y", "w", "x", "z"]);
}

#[test]
fn saving_twice_in_another_case_keeps_one_row() {
    let mut logins = Vec::new();
    upsert(&mut logins, "Alpha", "1", 1);
    upsert(&mut logins, "ALPHA", "2", 2);
    upsert(&mut logins, "beta", "3", 3);
    assert_eq!(logins, vec![saved("ALPHA", "2", 2), saved("beta", "3", 3)]);
    remove(&mut logins, "alpha");
    remove(&mut logins, "alpha");
    assert_eq!(logins, vec![saved("beta", "3", 3)]);
}

#[test]
fn account_names_compare_without_ascii_case() {
    assert!(same_account("AbC", "aBc"));
    assert!(!same_account("abc", "abd"));
    assert!(!same_account("abc", "abcd"));
}

#[test]
fn the_windows_store_is_refused_elsewhere() {
    assert_eq!(protect(b"x").unwrap_err(), "只支援 Windows");
    assert_eq!(unprotect(b"x").unwrap_err(), "只支援 Windows");
}
