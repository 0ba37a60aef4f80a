use hmac::Mac;
use vstd::prelude::*;

verus! {

/// The tag that the keyed message-authentication primitive assigns to `msg`
/// under `key`. The primitive is deterministic: the same key and message give
/// the same tag on every machine, so the tag can be given a name here and the
/// contracts speak of that name.
pub uninterp spec fn mac_of(key: Seq<u8>, msg: Seq<char>) -> Seq<u8>;

/// Relies on hmac's `Hmac::<Sha256>` (`new_from_slice`, `update`,
/// `finalize`): the HMAC-SHA-256 tag of `msg` under `key`, a pure function
/// of the two arguments, 32 bytes long. `new_from_slice` accepts keys of
/// every length for HMAC, so the construction cannot fail.
#[verifier::external_body]
pub(crate) fn mac_bytes(key: &[u8], msg: &str) -> (r: Vec<u8>)
    ensures
        r@ == mac_of(key@, msg@),
        r@.len() == 32,
{
    let mut mac = <hmac::Hmac<sha2::Sha256> as hmac::Mac>::new_from_slice(key).unwrap();
    mac.update(msg.as_bytes());
    mac.finalize().into_bytes().to_vec()
}

/// Byte-for-byte equality of two tags.
pub(crate) fn bytes_eq(a: &Vec<u8>, b: &Vec<u8>) -> (r: bool)
    ensures
        r <==> a@ == b@,
{
    if a.len() != b.len() {
        assert(a@.len() != b@.len());
        return false;
    }
    let n = a.len();
    let mut i: usize = 0;
    while i < n
        invariant
            n == a@.len() == b@.len(),
            i <= n,
            forall|j: int| 0 <= j < i ==> a@[j] == b@[j],
        decreases n - i,
    {
        if a[i] != b[i] {
            return false;
        }
        i += 1;
    }
    proof {
        assert(a@ =~= b@);
    }
    true
}

} // verus!
