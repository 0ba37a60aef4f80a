use vstd::prelude::*;

verus! {

use crate::codec::{
    all_digits,
    dec_val,
    envelope_ok,
    parse_dec12,
    payload_of,
    seal_payload,
    split_envelope,
    tag_of,
    dec12_string,
};
use crate::crypto::{bytes_eq, mac_bytes, mac_of};
use crate::error::Error;

// ---------------------------------------------------------------------------
// The result blob
//
// The authority reports a result as `payload ++ "." ++ tag`, the same
// envelope the tokens use, under the result trust key. The payload opens
// with the result's own twelve-digit expiry — independent of the session's
// creation time — and continues with the claim set to the end. The broker
// authenticates the blob; confidentiality, where wanted, is the transport's
// affair.
// ---------------------------------------------------------------------------

/// The payload opens with a twelve-digit expiry.
pub open spec fn result_structure_ok(p: Seq<char>) -> bool {
    p.len() >= 12 && all_digits(p.subrange(0, 12))
}

/// The expiry a result payload carries.
pub open spec fn result_exp_of(p: Seq<char>) -> u64 {
    dec_val(p.subrange(0, 12)) as u64
}

/// The claim set a result payload carries.
pub open spec fn result_claims_of(p: Seq<char>) -> Seq<char> {
    p.subrange(12, p.len() as int)
}

/// What accepting an inbound blob under `key` at time `now` yields: the
/// write path. A blob that does not decode, carries a wrong tag, or is
/// already expired — even under a genuine tag — is refused, and nothing of
/// it may be stored.
pub open spec fn accept_spec(b: Seq<char>, key: Seq<u8>, now: u64) -> Result<(), Error> {
    if !envelope_ok(b) || !result_structure_ok(payload_of(b)) {
        Err(Error::CryptoError)
    } else if tag_of(b) != mac_of(key, payload_of(b)) {
        Err(Error::CryptoError)
    } else if result_exp_of(payload_of(b)) <= now {
        Err(Error::CryptoError)
    } else {
        Ok(())
    }
}

/// What projecting a stored blob under `key` at time `now` yields: the read
/// path. Authenticity is always re-checked; the expiry only under the
/// `enforce_expiration` posture. A failure projects to `None` — one absent
/// entry — never to an error.
pub open spec fn project_spec(b: Seq<char>, key: Seq<u8>, now: u64, enforce: bool) -> Option<
    Seq<char>,
> {
    if !envelope_ok(b) || !result_structure_ok(payload_of(b)) {
        None
    } else if tag_of(b) != mac_of(key, payload_of(b)) {
        None
    } else if enforce && result_exp_of(payload_of(b)) <= now {
        None
    } else {
        Some(result_claims_of(payload_of(b)))
    }
}

/// Verifies an inbound result blob before it may enter the store: the
/// envelope and tag under the result key, then the embedded expiry against
/// `now`.
pub fn accept(blob: &str, key: &[u8], now: u64) -> (r: Result<(), Error>)
    ensures
        r == accept_spec(blob@, key@, now),
{
    let (payload, tag) = match split_envelope(blob) {
        Some(v) => v,
        None => {
            return Err(Error::CryptoError);
        },
    };
    let m = payload.unicode_len();
    if m < 12 {
        return Err(Error::CryptoError);
    }
    let exp = match parse_dec12(payload, 0) {
        Some(v) => v,
        None => {
            return Err(Error::CryptoError);
        },
    };
    let mac = mac_bytes(key, payload);
    if !bytes_eq(&tag, &mac) {
        return Err(Error::CryptoError);
    }
    if exp <= now {
        return Err(Error::CryptoError);
    }
    Ok(())
}

/// Re-derives the viewable claim set from an already-stored blob, under the
/// chosen expiration posture; `None` when the blob no longer passes.
pub fn project(blob: &str, key: &[u8], now: u64, enforce_expiration: bool) -> (r: Option<String>)
    ensures
        match r {
            Some(c) => project_spec(blob@, key@, now, enforce_expiration) == Some(c@),
            None => project_spec(blob@, key@, now, enforce_expiration) is None,
        },
{
    let (payload, tag) = match split_envelope(blob) {
        Some(v) => v,
        None => {
            return None;
        },
    };
    let m = payload.unicode_len();
    if m < 12 {
        return None;
    }
    let exp = match parse_dec12(payload, 0) {
        Some(v) => v,
        None => {
            return None;
        },
    };
    let mac = mac_bytes(key, payload);
    if !bytes_eq(&tag, &mac) {
        return None;
    }
    if enforce_expiration && exp <= now {
        return None;
    }
    Some(String::from_str(payload.substring_char(12, m)))
}

/// Seals a claim set into a result blob expiring at `exp` under `key`, as
/// the authority would. Until `exp` the blob is accepted, and it projects
/// back to exactly the claim set that was put in; from `exp` on it is
/// refused at the write path and, under the enforcing posture, at the read
/// path.
pub fn seal_result(claims: &str, exp: u64, key: &[u8]) -> (r: String)
    requires
        exp < 1000000000000,
    ensures
        forall|now: u64| #![trigger accept_spec(r@, key@, now)]
            accept_spec(r@, key@, now) == (if now < exp {
                Ok::<(), Error>(())
            } else {
                Err::<(), Error>(Error::CryptoError)
            }),
        forall|now: u64, enforce: bool| #![trigger project_spec(r@, key@, now, enforce)]
            project_spec(r@, key@, now, enforce) == (if !enforce || now < exp {
                Some(claims@)
            } else {
                None::<Seq<char>>
            }),
{
    let mut p = dec12_string(exp);
    let ghost exp_s = p@;
    p.append(claims);
    let ghost pay = p@;
    proof {
        assert(forall|i: int| 0 <= i < 12 ==> pay[i] == exp_s[i]);
        assert(result_structure_ok(pay)) by {
            assert(forall|i: int|
                0 <= i < 12 ==> #[trigger] pay.subrange(0, 12)[i] == exp_s[i]);
        }
        assert(pay.subrange(0, 12) =~= exp_s);
        assert(result_exp_of(pay) == exp);
        assert(result_claims_of(pay) =~= claims@);
    }
    seal_payload(p, key)
}

// ---------------------------------------------------------------------------
// Laws of the result authenticator
// ---------------------------------------------------------------------------

/// An expired blob is refused at the write path even when its tag is
/// genuine: a stale result can never be stored.
pub proof fn lemma_accept_rejects_expired(b: Seq<char>, key: Seq<u8>, now: u64)
    ensures
        envelope_ok(b) && result_structure_ok(payload_of(b)) && tag_of(b) == mac_of(
            key,
            payload_of(b),
        ) && result_exp_of(payload_of(b)) <= now ==> accept_spec(b, key, now) == Err::<
            (),
            Error,
        >(Error::CryptoError),
{
}

/// What was accepted projects: a blob the write path admitted at `now` is
/// viewable at any `later` not past its expiry, under either posture, and
/// under the relaxed posture at any later time at all.
pub proof fn lemma_accepted_projects(b: Seq<char>, key: Seq<u8>, now: u64, later: u64)
    ensures
        accept_spec(b, key, now) is Ok ==> project_spec(b, key, later, false) == Some(
            result_claims_of(payload_of(b)),
        ),
        accept_spec(b, key, now) is Ok && later < result_exp_of(payload_of(b))
            ==> project_spec(b, key, later, true) == Some(result_claims_of(payload_of(b))),
{
}

} // verus!
