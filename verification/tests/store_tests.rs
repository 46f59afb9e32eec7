use cropduster::auth::{authenticate, AuthUser, UserRecord};
use cropduster::storage::{
    erase_range, flash_offset, hash_password, page_count, page_offset, port_name_key, seed_defaults,
    user_admin_key, user_ports_key, user_pw_key, KvOp, KvWrite,
};
use cropduster::web::admin::{
    api_err, api_ok, commit_error, create_user_writes, delete_user_writes, password_change,
    port_name_from_read, port_name_write, set_user_ports_writes, write_error, ChangePasswordBody,
    CreateUserBody, PortNameBody, SetPortsBody,
};
use cropduster::web::status::status_response;

const ADMIN_HASH_HEX: &str = "8c6976e5b5410415bde908bd4dee15dfb167a9c873fc4bb8a81f6f2ab448a918";

fn hex(b: &[u8]) -> String {
    b.iter().map(|x| format!("{:02x}", x)).collect()
}

fn pairs(t: &[KvWrite]) -> Vec<(Vec<u8>, Vec<u8>)> {
    t.iter().map(|w| (w.key.clone(), w.value.clone())).collect()
}

fn ops(t: &[KvOp]) -> Vec<(Vec<u8>, Option<Vec<u8>>)> {
    t.iter()
        .map(|o| match o {
            KvOp::Put(w) => (w.key.clone(), Some(w.value.clone())),
            KvOp::Delete(k) => (k.clone(), None),
        })
        .collect()
}

fn user(name: &str) -> AuthUser {
    AuthUser { username: name.to_string(), is_admin: true, allowed_ports: 0xFF }
}

#[test]
fn password_hash_is_sha256() {
    assert_eq!(hex(&hash_password("admin")), ADMIN_HASH_HEX);
}

#[test]
fn keys_follow_the_schema() {
    assert_eq!(port_name_key(3).as_slice(), b"p/3/name");
    assert_eq!(port_name_key(9).as_slice(), b"p/9/name");
    assert_eq!(port_name_key(207).as_slice(), &[b'p', b'/', 255, b'/', b'n', b'a', b'm', b'e']);
    assert_eq!(port_name_key(208).as_slice(), &[b'p', b'/', 0, b'/', b'n', b'a', b'm', b'e']);
    assert_eq!(user_admin_key("bob").as_slice(), b"u/bob/admin");
    assert_eq!(user_ports_key("bob").as_slice(), b"u/bob/ports");
    assert_eq!(user_pw_key("bob").as_slice(), b"u/bob/pw");
    let long = "n".repeat(56);
    assert_eq!(user_admin_key(&long).len(), 64);
    assert_eq!(user_pw_key(&"n".repeat(59)).len(), 64);
}

#[test]
fn seed_writes_defaults_in_key_order() {
    let seed = seed_defaults();
    assert_eq!(seed.len(), 3);
    assert_eq!(
        pairs(&seed[0]),
        vec![(b"admin/first_login".to_vec(), b"1".to_vec()), (b"init".to_vec(), b"1".to_vec())]
    );
    let names = pairs(&seed[1]);
    assert_eq!(names.len(), 8);
    for (i, (k, v)) in names.iter().enumerate() {
        assert_eq!(k, format!("p/{}/name", i).as_bytes());
        assert_eq!(v, format!("Port {}", i).as_bytes());
    }
    let admin = pairs(&seed[2]);
    assert_eq!(admin[0], (b"u/admin/admin".to_vec(), b"1".to_vec()));
    assert_eq!(admin[1], (b"u/admin/ports".to_vec(), vec![0xFF]));
    assert_eq!(admin[2].0, b"u/admin/pw".to_vec());
    assert_eq!(hex(&admin[2].1), ADMIN_HASH_HEX);
    for t in &seed {
        for w in t.windows(2) {
            assert!(w[0].key < w[1].key);
        }
    }
}

#[test]
fn seeded_admin_logs_in_with_default_password() {
    let seed = seed_defaults();
    let admin = &seed[2];
    let mut stored = [0u8; 32];
    stored.copy_from_slice(&admin[2].value);
    let rec = UserRecord {
        password_read: Ok(32),
        password_hash: stored,
        admin_read: Ok(1),
        admin_flag: admin[0].value[0],
        ports_read: Ok(1),
        port_mask: admin[1].value[0],
    };
    let u = authenticate("admin", "admin", &rec).unwrap();
    assert!(u.is_admin);
    assert_eq!(u.allowed_ports, 0xFF);
}

#[test]
fn store_pages_map_into_config_region() {
    assert_eq!(page_count(), 64);
    assert_eq!(page_offset(0), 0x87000);
    assert_eq!(page_offset(63), 0x87000 + 63 * 4096);
    assert_eq!(page_offset(63) + 4096, 0xC7000);
    assert_eq!(erase_range(1), (0x88000, 0x89000));
    assert_eq!(flash_offset(2, 10), 0x8900A);
}

#[test]
fn port_rename_checks_port() {
    let body = PortNameBody { name: "Printer".to_string() };
    let e = port_name_write(8, &body).unwrap_err();
    assert_eq!((e.status, e.message), (400, "Invalid port"));
    let t = port_name_write(7, &body).unwrap();
    assert_eq!(pairs(&t), vec![(b"p/7/name".to_vec(), b"Printer".to_vec())]);
    let longest = PortNameBody { name: "x".repeat(32) };
    assert!(port_name_write(0, &longest).is_ok());
    let too_long = PortNameBody { name: "x".repeat(33) };
    let e = port_name_write(0, &too_long).unwrap_err();
    assert_eq!((e.status, e.message), (400, "Name too long"));
    let e = port_name_write(9, &too_long).unwrap_err();
    assert_eq!((e.status, e.message), (400, "Name too long"));
}

#[test]
fn port_name_read_back() {
    let mut long = [0u8; 32];
    long.copy_from_slice(b"Rack 4 - upstairs cabinet left A");
    assert_eq!(port_name_from_read(Ok(32), &long).name, "Rack 4 - upstairs cabinet left A");
    let mut buf = [0u8; 32];
    buf[..5].copy_from_slice(b"Lamp1");
    assert_eq!(port_name_from_read(Ok(5), &buf).name, "Lamp1");
    assert_eq!(port_name_from_read(Ok(0), &buf).name, "");
    assert_eq!(port_name_from_read(Err(()), &buf).name, "");
    buf[0] = 0xFF;
    assert_eq!(port_name_from_read(Ok(5), &buf).name, "");
}

#[test]
fn password_change_checks_old_password() {
    let u = user("carol");
    let body = ChangePasswordBody { old: "old".to_string(), new: "new".to_string() };
    let stored = hash_password("old");
    let t = password_change(&u, &body, Ok(32), &stored).unwrap();
    assert_eq!(
        ops(&t),
        vec![
            (b"admin/first_login".to_vec(), None),
            (b"u/carol/pw".to_vec(), Some(hash_password("new").to_vec())),
        ]
    );
    let e = password_change(&u, &body, Ok(32), &hash_password("other")).unwrap_err();
    assert_eq!((e.status, e.message), (401, "Invalid credentials"));
    let e = password_change(&u, &body, Ok(5), &stored).unwrap_err();
    assert_eq!((e.status, e.message), (401, "Invalid credentials"));
    let e = password_change(&u, &body, Err(()), &stored).unwrap_err();
    assert_eq!((e.status, e.message), (500, "Storage error"));
}

#[test]
fn changed_password_logs_in() {
    let u = user("dave");
    let body = ChangePasswordBody { old: "a".to_string(), new: "b".to_string() };
    let t = password_change(&u, &body, Ok(32), &hash_password("a")).unwrap();
    let mut stored = [0u8; 32];
    stored.copy_from_slice(ops(&t)[1].1.as_ref().unwrap());
    let rec = UserRecord {
        password_read: Ok(32),
        password_hash: stored,
        admin_read: Ok(1),
        admin_flag: b'0',
        ports_read: Ok(1),
        port_mask: 1,
    };
    assert!(authenticate("dave", "b", &rec).is_ok());
    assert!(authenticate("dave", "a", &rec).is_err());
}

#[test]
fn account_writes() {
    let body = CreateUserBody { username: "eve".to_string(), password: "pw".to_string(), ports: 0x05, admin: false };
    assert_eq!(
        pairs(&create_user_writes(&body)),
        vec![
            (b"u/eve/admin".to_vec(), b"0".to_vec()),
            (b"u/eve/ports".to_vec(), vec![0x05]),
            (b"u/eve/pw".to_vec(), hash_password("pw").to_vec()),
        ]
    );
    let admin = CreateUserBody { username: "eve".to_string(), password: "pw".to_string(), ports: 0, admin: true };
    assert_eq!(create_user_writes(&admin)[0].value, b"1".to_vec());
    assert_eq!(
        pairs(&set_user_ports_writes("eve", SetPortsBody { ports: 0x80 })),
        vec![(b"u/eve/ports".to_vec(), vec![0x80])]
    );
    assert_eq!(
        pairs(&delete_user_writes("eve")),
        vec![
            (b"u/eve/admin".to_vec(), b"0".to_vec()),
            (b"u/eve/ports".to_vec(), vec![0]),
            (b"u/eve/pw".to_vec(), vec![0u8; 32]),
        ]
    );
}

#[test]
fn api_answers() {
    assert!(api_ok().ok);
    let e = api_err(404, "x");
    assert_eq!((e.status, e.message), (404, "x"));
    assert_eq!((write_error().status, write_error().message), (500, "Write error"));
    assert_eq!((commit_error().status, commit_error().message), (500, "Commit error"));
}

#[test]
fn status_reports_first_login() {
    let s = status_response(Ok(1), b'1', [10, 0, 0, 7]);
    assert_eq!(s.version, "1.0.0");
    assert_eq!(s.ip, [10, 0, 0, 7]);
    assert!(s.first_login);
    assert!(!status_response(Ok(1), b'0', [10, 0, 0, 7]).first_login);
    assert!(!status_response(Ok(2), b'1', [10, 0, 0, 7]).first_login);
    assert!(!status_response(Err(()), b'1', [10, 0, 0, 7]).first_login);
}
