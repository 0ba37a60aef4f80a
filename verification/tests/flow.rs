use session_broker::authres::seal_result;
use session_broker::codec::{sign_guest, sign_host};
use session_broker::error::Error;
use session_broker::flow::{rocket, Broker, Config};
use session_broker::types::{GuestToken, HostToken};

fn demo_config(enforce: bool) -> Config {
    Config {
        guest_key: b"guest-trust-key".to_vec(),
        host_key: b"host-trust-key".to_vec(),
        result_key: b"result-trust-key".to_vec(),
        core_url: String::from("https://authority"),
        internal_url: String::from("https://broker"),
        enforce_expiration_on_read: enforce,
    }
}

fn demo_broker(enforce: bool) -> Broker {
    rocket(demo_config(enforce))
}

fn guest_token_for(name: &str, room: &str) -> String {
    let claims = GuestToken {
        purpose: String::from("age-check"),
        redirect_url: String::from("https://guest/app"),
        name: String::from(name),
        room_id: String::from(room),
        iat: 100,
        exp: 200,
    };
    sign_guest(&claims, b"guest-trust-key")
}

fn host_token_for(room: &str) -> String {
    let claims = HostToken { room_id: String::from(room), iat: 0, exp: 900000000000 };
    sign_host(&claims, b"host-trust-key")
}

#[test]
fn rocket_starts_empty() {
    let broker = demo_broker(true);
    assert_eq!(broker.store.len(), 0);
    assert_eq!(broker.config.core_url, "https://authority");
}

#[test]
fn start_rejects_bad_tokens_and_leaves_no_session() {
    let mut broker = demo_broker(true);
    let r = broker.start(String::from("irma"), "garbage", 150);
    assert_eq!(r.unwrap_err(), Error::TokenMalformed);
    // A guest-shaped token sealed under the host key: the guest validator
    // must refuse it — the two trust domains share no key.
    let claims = GuestToken {
        purpose: String::from("age-check"),
        redirect_url: String::from("https://guest/app"),
        name: String::from("mallory"),
        room_id: String::from("room-1"),
        iat: 100,
        exp: 200,
    };
    let wrong_domain = sign_guest(&claims, b"host-trust-key");
    let r = broker.start(String::from("irma"), &wrong_domain, 150);
    assert_eq!(r.unwrap_err(), Error::TokenInvalid);
    assert_eq!(broker.store.len(), 0);
}

#[test]
fn start_mints_session_and_request() {
    let mut broker = demo_broker(true);
    let token = guest_token_for("alice", "room-1");
    let req = broker.start(String::from("irma"), &token, 150).unwrap();
    assert_eq!(req.purpose, "age-check");
    assert_eq!(req.auth_method, "irma");
    assert_eq!(req.comm_url, "https://guest/app");
    assert_eq!(req.attr_id.chars().count(), 64);
    assert_eq!(
        req.attr_url,
        format!("https://broker/auth_result/{}", req.attr_id)
    );
    let session = broker.store.find_by_attr_id(&req.attr_id).unwrap();
    assert_eq!(session.guest_token.name, "alice");
    assert!(session.auth_result.is_none());
    assert_eq!(session.created_at, 150);
}

#[test]
fn start_finish_parses_and_fails_closed() {
    let broker = demo_broker(true);
    let ok = broker
        .start_finish("{\"client_url\":\"https://authority/session/1\"}")
        .unwrap();
    assert_eq!(ok.client_url, "https://authority/session/1");
    assert_eq!(
        broker.start_finish("{\"unexpected\":true}").unwrap_err(),
        Error::UpstreamError
    );
    assert_eq!(broker.start_finish("not json").unwrap_err(), Error::UpstreamError);
    assert_eq!(
        broker.start_finish("{\"client_url\":17}").unwrap_err(),
        Error::UpstreamError
    );
}

#[test]
fn submit_result_authenticates_before_storing() {
    let mut broker = demo_broker(true);
    let token = guest_token_for("alice", "room-1");
    let req = broker.start(String::from("irma"), &token, 150).unwrap();
    // A forged blob aborts the write entirely.
    let forged = seal_result("age_over_18=true", 1000, b"another-key");
    assert_eq!(
        broker.submit_result(&req.attr_id, forged, 150).unwrap_err(),
        Error::CryptoError
    );
    assert!(broker.store.find_by_attr_id(&req.attr_id).unwrap().auth_result.is_none());
    // An expired blob is refused even though its tag is genuine.
    let stale = seal_result("age_over_18=true", 140, b"result-trust-key");
    assert_eq!(
        broker.submit_result(&req.attr_id, stale, 150).unwrap_err(),
        Error::CryptoError
    );
    // A genuine, fresh blob for an unknown session is a client error.
    let good = seal_result("age_over_18=true", 1000, b"result-trust-key");
    assert_eq!(
        broker
            .submit_result(&String::from("unknown"), good.clone(), 150)
            .unwrap_err(),
        Error::SessionNotFound
    );
    // The genuine blob for the right session is stored, exactly once.
    broker.submit_result(&req.attr_id, good.clone(), 150).unwrap();
    let again = seal_result("age_over_18=false", 1000, b"result-trust-key");
    assert_eq!(
        broker.submit_result(&req.attr_id, again, 150).unwrap_err(),
        Error::Conflict
    );
    assert_eq!(
        broker
            .store
            .find_by_attr_id(&req.attr_id)
            .unwrap()
            .auth_result
            .as_deref(),
        Some(good.as_str())
    );
}

#[test]
fn session_info_scopes_to_the_room_and_degrades_gracefully() {
    let mut broker = demo_broker(true);
    let alice = broker
        .start(String::from("irma"), &guest_token_for("alice", "room-1"), 150)
        .unwrap();
    broker
        .start(String::from("irma"), &guest_token_for("bob", "room-1"), 151)
        .unwrap();
    broker
        .start(String::from("irma"), &guest_token_for("carol", "room-2"), 152)
        .unwrap();
    let blob = seal_result("age_over_18=true", 1000, b"result-trust-key");
    broker.submit_result(&alice.attr_id, blob, 153).unwrap();

    let infos = broker.session_info(&host_token_for("room-1"), 160).unwrap();
    assert_eq!(infos.len(), 2);
    assert_eq!(infos[0].0, "alice");
    assert_eq!(infos[0].1.as_deref(), Some("age_over_18=true"));
    // Bob never completed: present, absent result, not an error.
    assert_eq!(infos[1].0, "bob");
    assert_eq!(infos[1].1, None);

    // A host of another room sees nothing of these sessions.
    let other = broker.session_info(&host_token_for("room-9"), 160).unwrap();
    assert!(other.is_empty());

    // Host-token failures are errors, not empty views.
    assert_eq!(
        broker.session_info("garbage", 160).unwrap_err(),
        Error::TokenMalformed
    );
    let guest_as_host = guest_token_for("mallory", "room-1");
    assert_eq!(
        broker.session_info(&guest_as_host, 160).unwrap_err(),
        Error::TokenInvalid
    );
}

#[test]
fn session_info_read_posture_governs_stale_results() {
    // The same stored result, read after its expiry, under the two postures.
    for (enforce, expect_visible) in [(true, false), (false, true)] {
        let mut broker = demo_broker(enforce);
        let alice = broker
            .start(String::from("irma"), &guest_token_for("alice", "room-1"), 150)
            .unwrap();
        let blob = seal_result("age_over_18=true", 1000, b"result-trust-key");
        broker.submit_result(&alice.attr_id, blob, 160).unwrap();
        let infos = broker.session_info(&host_token_for("room-1"), 5000).unwrap();
        assert_eq!(infos.len(), 1);
        assert_eq!(infos[0].1.is_some(), expect_visible);
    }
}

#[test]
fn end_to_end_handshake() {
    let mut broker = demo_broker(true);
    let guest = guest_token_for("alice", "room-1");
    // Start: a session is minted and the authority's answer relayed verbatim.
    let req = broker.start(String::from("irma"), &guest, 150).unwrap();
    assert_eq!(req.purpose, "age-check");
    assert_eq!(req.comm_url, "https://guest/app");
    let authority_body = "{\"client_url\":\"https://authority/client/xyz\"}";
    let resp = broker.start_finish(authority_body).unwrap();
    assert_eq!(resp.client_url, "https://authority/client/xyz");
    // The authority reports a signed, fresh result for that attr_id.
    let blob = seal_result("age_over_18=true", 1000, b"result-trust-key");
    broker.submit_result(&req.attr_id, blob, 200).unwrap();
    // The right room's host sees alice's claims; another room sees nothing.
    let infos = broker.session_info(&host_token_for("room-1"), 210).unwrap();
    assert_eq!(infos.len(), 1);
    assert_eq!(infos[0].0, "alice");
    assert_eq!(infos[0].1.as_deref(), Some("age_over_18=true"));
    let other = broker.session_info(&host_token_for("room-2"), 210).unwrap();
    assert!(other.is_empty());
}
