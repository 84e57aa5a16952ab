use rsdrive::auth::{cookie_user_id, login};
use rsdrive::database::Database;
use rsdrive::entity::LoginInfo;
use rsdrive::errors::ApiError;
use rsdrive::memory_database::MemoryDatabase;

fn creds(username: &str, password: &str) -> LoginInfo {
    LoginInfo {
        username: username.to_string(),
        password: password.to_string(),
    }
}

#[test]
fn login_accepts_the_test_pair_and_stores_the_account() {
    let mut db = MemoryDatabase::new();
    let user = login(&mut db, &creds("test", "test"), 11).unwrap();
    assert_eq!(user.id, 1);
    assert_eq!(user.username, "test");
    assert_eq!(user.password, "password");
    assert_eq!(user.create_time, 11);
    assert!(db.query_user("test", "password").is_some());
}

#[test]
fn login_rejects_anything_else_untouched() {
    let mut db = MemoryDatabase::new();
    assert_eq!(
        login(&mut db, &creds("test", "wrong"), 11),
        Err(ApiError::NotAuthenticated)
    );
    assert_eq!(
        login(&mut db, &creds("admin", "test"), 11),
        Err(ApiError::NotAuthenticated)
    );
    assert!(db.query_user("test", "password").is_none());
}

#[test]
fn api_errors_report_unauthorized() {
    assert_eq!(ApiError::NotAuthenticated.status_code(), 401);
    assert_eq!(ApiError::IncorrectCrecidentials.status_code(), 401);
}

#[test]
fn cookie_user_id_parses_positive_decimals_only() {
    assert_eq!(cookie_user_id("123"), Some(123));
    assert_eq!(cookie_user_id("007"), Some(7));
    assert_eq!(cookie_user_id("4294967295"), Some(u32::MAX));
    assert_eq!(cookie_user_id("0"), None);
    assert_eq!(cookie_user_id(""), None);
    assert_eq!(cookie_user_id("12a"), None);
    assert_eq!(cookie_user_id("-5"), None);
    assert_eq!(cookie_user_id("4294967296"), None);
    assert_eq!(cookie_user_id("99999999999999999999"), None);
}
