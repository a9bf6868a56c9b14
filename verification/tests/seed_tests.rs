use argon2::password_hash::{PasswordHash, PasswordVerifier};
use argon2::Argon2;
use blog_core::seed::{
    admin_credentials, admin_role, new_admin_credentials, salted_admin_credentials,
};

fn verifies(password: &str, hash: &str) -> bool {
    let parsed = PasswordHash::new(hash).unwrap();
    Argon2::default().verify_password(password.as_bytes(), &parsed).is_ok()
}

#[test]
fn privileged_role_is_admin() {
    assert_eq!(admin_role(), "admin");
}

#[test]
fn credentials_carry_the_hash_that_they_are_given() {
    let credentials = admin_credentials(Some("$argon2id$stub".to_string())).unwrap();
    assert_eq!(credentials.role, "admin");
    assert_eq!(credentials.password_hash, "$argon2id$stub");
}

#[test]
fn no_hash_gives_no_credentials() {
    assert!(admin_credentials(None).is_none());
}

#[test]
fn hash_under_a_given_salt_is_the_same_each_time() {
    let first = salted_admin_credentials("admin123", "c29tZXNhbHRzb21lc2FsdA").unwrap();
    let second = salted_admin_credentials("admin123", "c29tZXNhbHRzb21lc2FsdA").unwrap();
    assert_eq!(first.role, "admin");
    assert_eq!(first.password_hash, second.password_hash);
    assert!(first
        .password_hash
        .starts_with("$argon2id$v=19$m=19456,t=2,p=1$c29tZXNhbHRzb21lc2FsdA$"));
    assert_ne!(first.password_hash, "admin123");
    assert!(verifies("admin123", &first.password_hash));
    assert!(!verifies("admin124", &first.password_hash));
}

#[test]
fn another_salt_gives_another_hash() {
    let first = salted_admin_credentials("admin123", "c29tZXNhbHRzb21lc2FsdA").unwrap();
    let second = salted_admin_credentials("admin123", "b3RoZXJzYWx0b3RoZXJzYQ").unwrap();
    assert_ne!(first.password_hash, second.password_hash);
}

#[test]
fn salt_that_is_no_salt_gives_no_credentials() {
    assert!(salted_admin_credentials("admin123", "").is_none());
    assert!(salted_admin_credentials("admin123", "abc").is_none());
    assert!(salted_admin_credentials("admin123", "not a salt at all!").is_none());
}

#[test]
fn new_credentials_verify_against_the_password() {
    let credentials = new_admin_credentials("admin123").unwrap();
    assert_eq!(credentials.role, "admin");
    assert!(credentials.password_hash.starts_with("$argon2id$"));
    assert!(verifies("admin123", &credentials.password_hash));
    assert!(!verifies("admin124", &credentials.password_hash));
}

#[test]
fn each_new_hash_has_a_salt_of_its_own() {
    let first = new_admin_credentials("admin123").unwrap();
    let second = new_admin_credentials("admin123").unwrap();
    assert_ne!(first.password_hash, second.password_hash);
}
