use forum_core::auth::{
    save_user_password, sign_on, sign_up, verify_user_password, PasswordStore,
};
use forum_core::files::{
    content_address_path, file_mapping_id, query_file, save_file_mapping, save_file_mapping_at,
    TimeFields,
};
use forum_core::session::SessionStore;
use forum_core::store::{find_user, save_user, Store};
use forum_core::types::LogicError;

// "70617373" is hex for the bytes of "pass".
const PASS_HEX: &str = "70617373";
const OTHER_HEX: &str = "6f74686572";

#[test]
fn password_round_trip() {
    let mut store = Store::new();
    save_user(&mut store, "alice").unwrap();
    let alice = find_user(&store, "alice").unwrap();
    let mut passwords = PasswordStore::new();
    save_user_password(&mut passwords, &alice, PASS_HEX).unwrap();
    assert!(verify_user_password(&passwords, &alice, PASS_HEX));
    // A different password is rejected: the hash binds the original.
    assert!(!verify_user_password(&passwords, &alice, OTHER_HEX));
    // Malformed hex never verifies.
    assert!(!verify_user_password(&passwords, &alice, "xyz"));
    assert!(!verify_user_password(&passwords, &alice, "abc"));
}

#[test]
fn malformed_hex_password_is_invalid_pass() {
    let mut store = Store::new();
    save_user(&mut store, "alice").unwrap();
    let alice = find_user(&store, "alice").unwrap();
    let mut passwords = PasswordStore::new();
    assert!(matches!(save_user_password(&mut passwords, &alice, "zz"), Err(
        LogicError::InvalidPass
    )));
    assert!(matches!(save_user_password(&mut passwords, &alice, "abc"), Err(
        LogicError::InvalidPass
    )));
}

#[test]
fn sign_up_then_sign_on() {
    let mut store = Store::new();
    let mut passwords = PasswordStore::new();
    let mut sessions = SessionStore::new();
    assert_eq!(sign_up(&mut store, &mut passwords, "alice", PASS_HEX).unwrap(), true);
    // A taken name is refused without error.
    assert_eq!(sign_up(&mut store, &mut passwords, "alice", PASS_HEX).unwrap(), false);
    // The right password signs on and binds the token.
    let u = sign_on(&store, &passwords, &mut sessions, "alice", PASS_HEX, "tok").unwrap();
    assert_eq!(u.name, "alice");
    assert_eq!(sessions.rows.len(), 1);
    assert_eq!(sessions.rows[0].token, "tok");
    // A wrong password or unknown name signs nothing on.
    assert!(sign_on(&store, &passwords, &mut sessions, "alice", OTHER_HEX, "t2").is_none());
    assert!(sign_on(&store, &passwords, &mut sessions, "bob", PASS_HEX, "t3").is_none());
    assert_eq!(sessions.rows.len(), 1);
}

#[test]
fn file_mapping_id_embeds_uploader_time_and_ordinal() {
    let t = TimeFields { year: 2024, month: 1, day: 2, hour: 3, minute: 4, second: 5, nanos: 6_500_000 };
    let id = file_mapping_id(7, &t, 2);
    assert_eq!(id, "u7f20240102T030405006i2");
    let wide = TimeFields {
        year: 2024,
        month: 12,
        day: 31,
        hour: 23,
        minute: 59,
        second: 59,
        nanos: 999_000_000,
    };
    assert_eq!(file_mapping_id(123, &wide, 0), "u123f20241231T235959999i0");
}

#[test]
fn file_mapping_rows_are_keyed_by_id() {
    let mut store = Store::new();
    save_user(&mut store, "alice").unwrap();
    let alice = find_user(&store, "alice").unwrap();
    let t = TimeFields { year: 2024, month: 6, day: 7, hour: 8, minute: 9, second: 10, nanos: 0 };
    let id = save_file_mapping_at(&mut store, "aabb", "image/png", "cat.png", &alice, 0, &t);
    let found = query_file(&store, id.clone()).unwrap();
    assert_eq!(found.file.id, id);
    assert_eq!(found.file.file_name, "cat.png");
    assert_eq!(found.file.mime, "image/png");
    assert_eq!(found.file_path, "aabb");
    // The same id replaces the row instead of duplicating it.
    let id2 = save_file_mapping_at(&mut store, "ccdd", "image/png", "cat2.png", &alice, 0, &t);
    assert_eq!(id, id2);
    assert_eq!(store.files.len(), 1);
    assert_eq!(query_file(&store, id).unwrap().file_path, "ccdd");
    // An unknown id resolves to nothing.
    assert!(query_file(&store, "nope".to_string()).is_none());
}

#[test]
fn save_file_mapping_uses_the_clock() {
    let mut store = Store::new();
    save_user(&mut store, "alice").unwrap();
    let alice = find_user(&store, "alice").unwrap();
    let id = save_file_mapping(&mut store, "hash", "text/plain", "a.txt", &alice, 3);
    assert!(id.starts_with(&format!("u{}f", alice.id)));
    assert!(id.ends_with("i3"));
    // The registration round-trips: resolving the id returns the original
    // name, mime and stored content location.
    let found = query_file(&store, id.clone()).unwrap();
    assert_eq!(found.file.id, id);
    assert_eq!(found.file.file_name, "a.txt");
    assert_eq!(found.file.mime, "text/plain");
    assert_eq!(found.file_path, "hash");
}

#[test]
fn content_addresses_are_lower_hex_under_files() {
    assert_eq!(content_address_path(&[0xde, 0xad, 0xbe, 0xef]), "files/deadbeef");
    assert_eq!(content_address_path(&[]), "files/");
    assert_eq!(content_address_path(&[0x00, 0x0f]), "files/000f");
}
