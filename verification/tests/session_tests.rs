use forum_core::session::{
    generate_session_token, query_sessions, query_user_by_session, remove_all_sessions,
    remove_session, resolve_caller, save_user_session, SessionStore,
};
use forum_core::store::{find_user, save_user, Store};
use forum_core::types::{LogicError, User};

fn setup_user(store: &mut Store, name: &str) -> User {
    save_user(store, name).unwrap();
    find_user(store, name).unwrap()
}

#[test]
fn session_resolves_to_its_user() {
    let mut store = Store::new();
    let alice = setup_user(&mut store, "alice");
    let mut sess = SessionStore::new();
    save_user_session(&mut sess, &alice, "tok-alice");
    let u = query_user_by_session(&store, &sess, "tok-alice").unwrap();
    assert_eq!(u.id, alice.id);
    assert_eq!(u.name, "alice");
    assert!(query_user_by_session(&store, &sess, "missing").is_none());
}

#[test]
fn listing_shows_all_of_a_users_sessions() {
    let mut store = Store::new();
    let alice = setup_user(&mut store, "alice");
    let bob = setup_user(&mut store, "bob");
    let mut sess = SessionStore::new();
    save_user_session(&mut sess, &alice, "a1");
    save_user_session(&mut sess, &alice, "a2");
    save_user_session(&mut sess, &bob, "b1");
    let listed = query_sessions(&sess, "a1");
    let tokens: Vec<&str> = listed.sessions.iter().map(|s| s.session.as_str()).collect();
    assert_eq!(tokens, vec!["a1", "a2"]);
    // An unknown token lists nothing.
    assert_eq!(query_sessions(&sess, "zz").sessions.len(), 0);
}

#[test]
fn remove_session_cannot_touch_other_users() {
    let mut store = Store::new();
    let alice = setup_user(&mut store, "alice");
    let bob = setup_user(&mut store, "bob");
    let mut sess = SessionStore::new();
    save_user_session(&mut sess, &alice, "a1");
    save_user_session(&mut sess, &bob, "b1");
    // Alice names Bob's token: nothing is removed.
    let remaining = remove_session(&mut sess, "a1", "b1");
    assert_eq!(remaining.sessions.len(), 1);
    assert_eq!(remaining.sessions[0].session, "a1");
    assert!(query_user_by_session(&store, &sess, "b1").is_some());
    // Alice removes her own session.
    let remaining = remove_session(&mut sess, "a1", "a1");
    assert_eq!(remaining.sessions.len(), 0);
    assert!(query_user_by_session(&store, &sess, "a1").is_none());
    assert!(query_user_by_session(&store, &sess, "b1").is_some());
}

#[test]
fn remove_all_sessions_scoped_to_owner() {
    let mut store = Store::new();
    let alice = setup_user(&mut store, "alice");
    let bob = setup_user(&mut store, "bob");
    let mut sess = SessionStore::new();
    save_user_session(&mut sess, &alice, "a1");
    save_user_session(&mut sess, &alice, "a2");
    save_user_session(&mut sess, &bob, "b1");
    remove_all_sessions(&mut sess, "a1");
    assert!(query_user_by_session(&store, &sess, "a1").is_none());
    assert!(query_user_by_session(&store, &sess, "a2").is_none());
    assert!(query_user_by_session(&store, &sess, "b1").is_some());
    // An unknown token removes nothing.
    remove_all_sessions(&mut sess, "zz");
    assert!(query_user_by_session(&store, &sess, "b1").is_some());
}

#[test]
fn saving_an_existing_token_rebinds_it() {
    let mut store = Store::new();
    let alice = setup_user(&mut store, "alice");
    let bob = setup_user(&mut store, "bob");
    let mut sess = SessionStore::new();
    save_user_session(&mut sess, &alice, "tok");
    save_user_session(&mut sess, &bob, "tok");
    let u = query_user_by_session(&store, &sess, "tok").unwrap();
    assert_eq!(u.id, bob.id);
    assert_eq!(sess.rows.len(), 1);
}

#[test]
fn resolve_caller_distinguishes_failures() {
    let mut store = Store::new();
    let alice = setup_user(&mut store, "alice");
    let mut sess = SessionStore::new();
    save_user_session(&mut sess, &alice, "tok");
    // No credential at all.
    assert!(matches!(resolve_caller(&store, &sess, None), Err(LogicError::NoSession)));
    // A credential that resolves to no user.
    assert!(matches!(resolve_caller(&store, &sess, Some("bad")), Err(
        LogicError::UserNotLoggedIn
    )));
    // A good credential.
    let u = resolve_caller(&store, &sess, Some("tok")).unwrap();
    assert_eq!(u.name, "alice");
}

#[test]
fn session_tokens_are_twenty_alphanumerics() {
    let mut rng = <rand_chacha::ChaCha20Rng as rand::SeedableRng>::from_entropy();
    let t1 = generate_session_token(&mut rng);
    let t2 = generate_session_token(&mut rng);
    assert_eq!(t1.chars().count(), 20);
    assert_eq!(t2.chars().count(), 20);
    assert!(t1.chars().all(|c| c.is_ascii_alphanumeric()));
    assert!(t2.chars().all(|c| c.is_ascii_alphanumeric()));
    // Two draws from a fresh generator almost surely differ; equality here
    // would mean the sampler ignores the generator.
    assert_ne!(t1, t2);
}
