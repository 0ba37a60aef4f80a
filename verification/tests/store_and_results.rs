use session_broker::authres::{accept, project, seal_result};
use session_broker::error::Error;
use session_broker::store::SessionStore;
use session_broker::types::GuestToken;

fn guest(name: &str, room: &str) -> GuestToken {
    GuestToken {
        purpose: String::from("age-check"),
        redirect_url: String::from("https://guest/app"),
        name: String::from(name),
        room_id: String::from(room),
        iat: 100,
        exp: 200,
    }
}

#[test]
fn create_then_find_has_no_result() {
    let mut store = SessionStore::new();
    let attr_id = String::from("attr-1");
    store.create(guest("alice", "room-1"), attr_id.clone(), 120).unwrap();
    let found = store.find_by_attr_id(&attr_id).unwrap();
    assert_eq!(found.attr_id, "attr-1");
    assert_eq!(found.guest_token.name, "alice");
    assert!(found.auth_result.is_none());
    assert_eq!(found.created_at, 120);
}

#[test]
fn create_refuses_taken_attr_id() {
    let mut store = SessionStore::new();
    let attr_id = String::from("attr-1");
    store.create(guest("alice", "room-1"), attr_id.clone(), 120).unwrap();
    let second = store.create(guest("bob", "room-2"), attr_id.clone(), 130);
    assert_eq!(second.unwrap_err(), Error::PersistenceError);
    assert_eq!(store.len(), 1);
    assert_eq!(store.find_by_attr_id(&attr_id).unwrap().guest_token.name, "alice");
}

#[test]
fn set_result_unknown_attr_id_not_found() {
    let mut store = SessionStore::new();
    store.create(guest("alice", "room-1"), String::from("attr-1"), 120).unwrap();
    let r = store.set_auth_result(&String::from("attr-2"), String::from("blob"));
    assert_eq!(r.unwrap_err(), Error::SessionNotFound);
    // Nothing was mutated, and nothing was created on demand.
    assert_eq!(store.len(), 1);
    assert!(store.find_by_attr_id(&String::from("attr-2")).is_none());
    assert!(store.find_by_attr_id(&String::from("attr-1")).unwrap().auth_result.is_none());
}

#[test]
fn first_result_write_wins() {
    let mut store = SessionStore::new();
    let attr_id = String::from("attr-1");
    store.create(guest("alice", "room-1"), attr_id.clone(), 120).unwrap();
    store.set_auth_result(&attr_id, String::from("first")).unwrap();
    let second = store.set_auth_result(&attr_id, String::from("second"));
    assert_eq!(second.unwrap_err(), Error::Conflict);
    let stored = store.find_by_attr_id(&attr_id).unwrap();
    assert_eq!(stored.auth_result.as_deref(), Some("first"));
}

#[test]
fn find_by_room_filters_and_keeps_order() {
    let mut store = SessionStore::new();
    store.create(guest("alice", "room-1"), String::from("a"), 1).unwrap();
    store.create(guest("bob", "room-2"), String::from("b"), 2).unwrap();
    store.create(guest("carol", "room-1"), String::from("c"), 3).unwrap();
    let room1 = store.find_by_room(&String::from("room-1"));
    assert_eq!(room1.len(), 2);
    assert_eq!(room1[0].guest_token.name, "alice");
    assert_eq!(room1[1].guest_token.name, "carol");
    let room3 = store.find_by_room(&String::from("room-3"));
    assert!(room3.is_empty());
}

#[test]
fn accept_rejects_expired_blob_with_genuine_tag() {
    let key = b"result-trust-key".to_vec();
    let blob = seal_result("age_over_18=true", 1000, &key);
    assert!(accept(&blob, &key, 999).is_ok());
    assert_eq!(accept(&blob, &key, 1000).unwrap_err(), Error::CryptoError);
    assert_eq!(accept(&blob, &key, 5000).unwrap_err(), Error::CryptoError);
}

#[test]
fn accept_rejects_forged_blob() {
    let key = b"result-trust-key".to_vec();
    let other = b"another-key".to_vec();
    let blob = seal_result("age_over_18=true", 1000, &other);
    assert_eq!(accept(&blob, &key, 10).unwrap_err(), Error::CryptoError);
    assert_eq!(accept("not a blob", &key, 10).unwrap_err(), Error::CryptoError);
}

#[test]
fn project_honours_the_expiration_posture() {
    let key = b"result-trust-key".to_vec();
    let blob = seal_result("age_over_18=true", 1000, &key);
    // Fresh: viewable under both postures.
    assert_eq!(project(&blob, &key, 500, true).as_deref(), Some("age_over_18=true"));
    assert_eq!(project(&blob, &key, 500, false).as_deref(), Some("age_over_18=true"));
    // Stale: the enforcing posture hides it, the relaxed one still shows it.
    assert_eq!(project(&blob, &key, 2000, true), None);
    assert_eq!(project(&blob, &key, 2000, false).as_deref(), Some("age_over_18=true"));
    // Wrong key: silently absent under either posture.
    let other = b"another-key".to_vec();
    assert_eq!(project(&blob, &other, 500, false), None);
}
