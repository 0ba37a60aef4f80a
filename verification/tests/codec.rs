use session_broker::codec::{dec12_string, sign_guest, sign_host, verify_guest, verify_host};
use session_broker::error::Error;
use session_broker::types::{GuestToken, HostToken};

fn guest_claims() -> GuestToken {
    GuestToken {
        purpose: String::from("age-check"),
        redirect_url: String::from("https://guest/app"),
        name: String::from("alice"),
        room_id: String::from("room-1"),
        iat: 100,
        exp: 200,
    }
}

fn flip_last_char(token: &str) -> String {
    let mut chars: Vec<char> = token.chars().collect();
    let last = chars.len() - 1;
    chars[last] = if chars[last] == 'a' { 'b' } else { 'a' };
    chars.into_iter().collect()
}

#[test]
fn dec12_renders_padded() {
    assert_eq!(dec12_string(42).as_str(), "000000000042");
    assert_eq!(dec12_string(0).as_str(), "000000000000");
    assert_eq!(dec12_string(999999999999).as_str(), "999999999999");
}

#[test]
fn guest_round_trip() {
    let key = b"guest-trust-key".to_vec();
    let token = sign_guest(&guest_claims(), &key);
    let got = verify_guest(&token, &key, 150).unwrap();
    assert_eq!(got.purpose, "age-check");
    assert_eq!(got.redirect_url, "https://guest/app");
    assert_eq!(got.name, "alice");
    assert_eq!(got.room_id, "room-1");
    assert_eq!(got.iat, 100);
    assert_eq!(got.exp, 200);
}

#[test]
fn guest_round_trip_at_window_edges() {
    let key = b"guest-trust-key".to_vec();
    let token = sign_guest(&guest_claims(), &key);
    assert!(verify_guest(&token, &key, 100).is_ok());
    assert!(verify_guest(&token, &key, 200).is_ok());
}

#[test]
fn guest_tampered_tag_is_invalid() {
    let key = b"guest-trust-key".to_vec();
    let token = sign_guest(&guest_claims(), &key);
    let tampered = flip_last_char(&token);
    assert_eq!(verify_guest(&tampered, &key, 150).unwrap_err(), Error::TokenInvalid);
}

#[test]
fn guest_expired_and_not_yet_valid() {
    let key = b"guest-trust-key".to_vec();
    let token = sign_guest(&guest_claims(), &key);
    assert_eq!(verify_guest(&token, &key, 201).unwrap_err(), Error::TokenExpired);
    assert_eq!(verify_guest(&token, &key, 99).unwrap_err(), Error::TokenExpired);
}

#[test]
fn guest_malformed_inputs() {
    let key = b"guest-trust-key".to_vec();
    assert_eq!(verify_guest("", &key, 0).unwrap_err(), Error::TokenMalformed);
    assert_eq!(verify_guest("no-dot-no-tag", &key, 0).unwrap_err(), Error::TokenMalformed);
    // A dot and 64 characters, but not hexadecimal ones.
    let bad_tag = format!("payload.{}", "Z".repeat(64));
    assert_eq!(verify_guest(&bad_tag, &key, 0).unwrap_err(), Error::TokenMalformed);
    // A sound envelope whose payload lacks the timestamps and fields.
    let sealed = sign_guest(&guest_claims(), &key);
    let tag = &sealed[sealed.len() - 65..];
    let short = format!("abc{}", tag);
    assert_eq!(verify_guest(&short, &key, 0).unwrap_err(), Error::TokenMalformed);
}

#[test]
fn guest_key_never_validates_host_domain() {
    let guest_key = b"guest-trust-key".to_vec();
    let host_key = b"host-trust-key".to_vec();
    let guest_token = sign_guest(&guest_claims(), &guest_key);
    // The guest token under the host key: rejected as invalid in both codecs.
    assert_eq!(verify_guest(&guest_token, &host_key, 150).unwrap_err(), Error::TokenInvalid);
    assert_eq!(verify_host(&guest_token, &host_key, 150).unwrap_err(), Error::TokenInvalid);
    // A host token under the guest key: likewise.
    let host_token = sign_host(
        &HostToken { room_id: String::from("room-1"), iat: 100, exp: 200 },
        &host_key,
    );
    assert_eq!(verify_host(&host_token, &guest_key, 150).unwrap_err(), Error::TokenInvalid);
}

#[test]
fn host_round_trip() {
    let key = b"host-trust-key".to_vec();
    let token = sign_host(
        &HostToken { room_id: String::from("lobby"), iat: 10, exp: 20 },
        &key,
    );
    let got = verify_host(&token, &key, 15).unwrap();
    assert_eq!(got.room_id, "lobby");
    assert_eq!(got.iat, 10);
    assert_eq!(got.exp, 20);
    assert_eq!(verify_host(&token, &key, 21).unwrap_err(), Error::TokenExpired);
}

#[test]
fn error_labels_are_stable() {
    assert_eq!(Error::TokenMalformed.label(), "token malformed");
    assert_eq!(Error::Conflict.label(), "conflict");
}
