use cropduster::auth::{
    authenticate, parse_basic_auth, require_admin, AuthError, AuthUser, NotAdmin, UserRecord,
};
use cropduster::storage::hash_password;
use base64::Engine;

fn record(pw: &str) -> UserRecord {
    UserRecord {
        password_read: Ok(32),
        password_hash: hash_password(pw),
        admin_read: Ok(1),
        admin_flag: b'1',
        ports_read: Ok(1),
        port_mask: 0x0F,
    }
}

#[test]
fn basic_header_is_decoded() {
    let c = parse_basic_auth(Some(b"Basic YWRtaW46YWRtaW4=")).unwrap();
    assert_eq!(c.username, "admin");
    assert_eq!(c.password, "admin");
}

#[test]
fn scheme_is_case_insensitive() {
    let c = parse_basic_auth(Some(b"bAsIc dXNlcjpwYXNz")).unwrap();
    assert_eq!(c.username, "user");
    assert_eq!(c.password, "pass");
}

#[test]
fn password_may_hold_colons_and_be_empty() {
    // "a:b:c"
    let c = parse_basic_auth(Some(b"Basic YTpiOmM=")).unwrap();
    assert_eq!(c.username, "a");
    assert_eq!(c.password, "b:c");
    // "u:"
    let c = parse_basic_auth(Some(b"Basic dTo=")).unwrap();
    assert_eq!(c.username, "u");
    assert_eq!(c.password, "");
}

#[test]
fn utf8_credentials_are_kept() {
    // "jurgen:grüß"
    let header = format!("Basic {}", "anVyZ2VuOmdyw7zDnw==");
    let c = parse_basic_auth(Some(header.as_bytes()));
    let c = c.unwrap();
    assert_eq!(c.username, "jurgen");
    assert_eq!(c.password, "grüß");
}

#[test]
fn missing_header_is_missing() {
    assert!(matches!(parse_basic_auth(None), Err(AuthError::Missing)));
}

#[test]
fn bad_headers_are_invalid_encoding() {
    for h in [
        &b"Bearer abc"[..],
        b"Basic",
        b"Basic !!!!",
        b"Basic YWRtaW4=",      // "admin": no colon
        b"Basic /w==",          // 0xFF: not UTF-8
        b"Basic YWRtaW46YWRtaW4", // missing padding
    ] {
        assert!(matches!(parse_basic_auth(Some(h)), Err(AuthError::InvalidEncoding)), "{:?}", h);
    }
}

#[test]
fn overlong_credentials_do_not_fit_the_buffer() {
    let long = "a".repeat(130) + ":b";
    let header = format!("Basic {}", base64::engine::general_purpose::STANDARD.encode(long));
    assert!(matches!(parse_basic_auth(Some(header.as_bytes())), Err(AuthError::InvalidEncoding)));
}

#[test]
fn correct_password_authenticates() {
    let u = authenticate("alice", "secret", &record("secret")).unwrap();
    assert_eq!(u.username, "alice");
    assert!(u.is_admin);
    assert_eq!(u.allowed_ports, 0x0F);
}

#[test]
fn admin_flag_other_than_one_is_not_admin() {
    let mut r = record("pw");
    r.admin_flag = b'0';
    assert!(!authenticate("bob", "pw", &r).unwrap().is_admin);
    r.admin_flag = 0;
    r.admin_read = Ok(0);
    assert!(!authenticate("bob", "pw", &r).unwrap().is_admin);
}

#[test]
fn wrong_password_is_refused() {
    assert!(matches!(authenticate("alice", "nope", &record("secret")), Err(AuthError::InvalidCredentials)));
}

#[test]
fn unreadable_or_short_hash_is_refused() {
    let mut r = record("pw");
    r.password_read = Err(());
    assert!(matches!(authenticate("a", "pw", &r), Err(AuthError::InvalidCredentials)));
    r.password_read = Ok(31);
    assert!(matches!(authenticate("a", "pw", &r), Err(AuthError::InvalidCredentials)));
}

#[test]
fn unreadable_flags_are_storage_errors() {
    let mut r = record("pw");
    r.ports_read = Err(());
    assert!(matches!(authenticate("a", "pw", &r), Err(AuthError::StorageError)));
    let mut r = record("pw");
    r.admin_read = Err(());
    // a storage error is reported even when the password is wrong
    assert!(matches!(authenticate("a", "bad", &r), Err(AuthError::StorageError)));
}

#[test]
fn long_username_is_invalid_encoding() {
    let name = "x".repeat(33);
    assert!(matches!(authenticate(&name, "pw", &record("pw")), Err(AuthError::InvalidEncoding)));
    assert!(authenticate(&"x".repeat(32), "pw", &record("pw")).is_ok());
}

#[test]
fn rejections_have_statuses() {
    assert_eq!(AuthError::Missing.status(), 401);
    assert_eq!(AuthError::InvalidEncoding.status(), 401);
    assert_eq!(AuthError::InvalidCredentials.status(), 401);
    assert_eq!(AuthError::StorageError.status(), 401);
    assert_eq!(AuthError::Missing.body(), "Unauthorized");
    assert_eq!(NotAdmin.status(), 403);
    assert_eq!(NotAdmin.body(), "Forbidden");
}

#[test]
fn only_admins_pass_the_admin_gate() {
    let admin = AuthUser { username: "root".to_string(), is_admin: true, allowed_ports: 0 };
    let user = AuthUser { username: "u".to_string(), is_admin: false, allowed_ports: 0xFF };
    assert_eq!(require_admin(Ok(admin)).unwrap().0.username, "root");
    assert!(require_admin(Ok(user)).is_err());
    assert!(require_admin(Err(AuthError::InvalidCredentials)).is_err());
}

#[test]
fn ota_header_is_read_back_by_the_device() {
    let header = cropduster::ota::ota_auth_header("bob:pa:ss");
    let c = parse_basic_auth(Some(header.as_bytes())).unwrap();
    assert_eq!(c.username, "bob");
    assert_eq!(c.password, "pa:ss");
    let longest = "u".repeat(60) + ":" + &"p".repeat(65);
    assert_eq!(longest.len(), 126);
    let c = parse_basic_auth(Some(cropduster::ota::ota_auth_header(&longest).as_bytes())).unwrap();
    assert_eq!(c.username.len(), 60);
    assert_eq!(c.password.len(), 65);
    let no_colon = cropduster::ota::ota_auth_header("nocolon");
    assert!(matches!(parse_basic_auth(Some(no_colon.as_bytes())), Err(AuthError::InvalidEncoding)));
}

#[test]
fn login_keys_refuse_names_too_long_for_a_key() {
    let k = cropduster::auth::login_keys("bob").unwrap();
    assert_eq!(k.password.as_slice(), b"u/bob/pw");
    assert_eq!(k.admin.as_slice(), b"u/bob/admin");
    assert_eq!(k.ports.as_slice(), b"u/bob/ports");
    assert!(cropduster::auth::login_keys(&"n".repeat(56)).is_ok());
    assert!(matches!(cropduster::auth::login_keys(&"n".repeat(57)), Err(AuthError::InvalidEncoding)));
    assert!(matches!(cropduster::auth::login_keys(&"n".repeat(127)), Err(AuthError::InvalidEncoding)));
}
