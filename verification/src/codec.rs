use vstd::prelude::*;

verus! {

use crate::crypto::{mac_of, mac_bytes, bytes_eq};
use crate::error::Error;
use crate::types::{GuestClaims, GuestToken, HostClaims, HostToken};

// ---------------------------------------------------------------------------
// Decimal digits
// ---------------------------------------------------------------------------

/// Whether `c` is an ASCII decimal digit.
pub open spec fn is_digit(c: char) -> bool {
    '0' <= c && c <= '9'
}

/// Numeric value of a decimal digit.
pub open spec fn digit_val(c: char) -> int {
    c as int - '0' as int
}

/// Every character of `s` is a decimal digit.
pub open spec fn all_digits(s: Seq<char>) -> bool {
    forall|i: int| 0 <= i < s.len() ==> is_digit(#[trigger] s[i])
}

/// The number a digit string denotes, most significant digit first.
pub open spec fn dec_val(s: Seq<char>) -> int
    decreases s.len(),
{
    if s.len() == 0 {
        0
    } else {
        dec_val(s.drop_last()) * 10 + digit_val(s.last())
    }
}

/// The `n`-th power of ten.
pub open spec fn pow10(n: nat) -> int
    decreases n,
{
    if n == 0 {
        1
    } else {
        10 * pow10((n - 1) as nat)
    }
}

/// The concrete powers of ten the codec works with: timestamps are twelve
/// digits, and parsing accumulates below `pow10(12)`.
pub proof fn lemma_pow10_values()
    ensures
        pow10(0) == 1,
        pow10(1) == 10,
        pow10(2) == 100,
        pow10(3) == 1000,
        pow10(4) == 10000,
        pow10(5) == 100000,
        pow10(6) == 1000000,
        pow10(7) == 10000000,
        pow10(8) == 100000000,
        pow10(9) == 1000000000,
        pow10(10) == 10000000000,
        pow10(11) == 100000000000,
        pow10(12) == 1000000000000,
{
    assert(pow10(0) == 1);
    assert(pow10(1) == 10);
    assert(pow10(2) == 100);
    assert(pow10(3) == 1000);
    assert(pow10(4) == 10000);
    assert(pow10(5) == 100000);
    assert(pow10(6) == 1000000);
    assert(pow10(7) == 10000000);
    assert(pow10(8) == 100000000);
    assert(pow10(9) == 1000000000);
    assert(pow10(10) == 10000000000);
    assert(pow10(11) == 100000000000);
    assert(pow10(12) == 1000000000000);
}

// ---------------------------------------------------------------------------
// Rendering and parsing twelve-digit timestamps
// ---------------------------------------------------------------------------

/// A one-character string for the decimal digit `d`.
fn digit_str(d: u64) -> (r: &'static str)
    requires
        d < 10,
    ensures
        r@.len() == 1,
        is_digit(r@[0]),
        digit_val(r@[0]) == d,
{
    proof {
        reveal_strlit("0");
        reveal_strlit("1");
        reveal_strlit("2");
        reveal_strlit("3");
        reveal_strlit("4");
        reveal_strlit("5");
        reveal_strlit("6");
        reveal_strlit("7");
        reveal_strlit("8");
        reveal_strlit("9");
    }
    match d {
        0 => "0",
        1 => "1",
        2 => "2",
        3 => "3",
        4 => "4",
        5 => "5",
        6 => "6",
        7 => "7",
        8 => "8",
        _ => "9",
    }
}

/// Renders `v` as exactly twelve decimal digits, most significant first.
pub fn dec12_string(v: u64) -> (r: String)
    requires
        v < 1000000000000,
    ensures
        r@.len() == 12,
        all_digits(r@),
        dec_val(r@) == v,
{
    proof {
        lemma_pow10_values();
    }
    let mut s = String::new();
    let mut x: u64 = v;
    let mut p: u64 = 100000000000;
    let mut k: usize = 0;
    while k < 12
        invariant
            k <= 12,
            s@.len() == k,
            all_digits(s@),
            v as int == dec_val(s@) * pow10((12 - k) as nat) + x,
            (x as int) < pow10((12 - k) as nat),
            k < 12 ==> p as int == pow10((11 - k) as nat),
        decreases 12 - k,
    {
        proof {
            lemma_pow10_values();
        }
        let ghost pre = s@;
        let ghost d_spec = dec_val(pre);
        assert(pow10((12 - k) as nat) == 10 * pow10((11 - k) as nat));
        let d: u64 = x / p;
        let x2: u64 = x % p;
        proof {
            vstd::arithmetic::div_mod::lemma_fundamental_div_mod(x as int, p as int);
            vstd::arithmetic::div_mod::lemma_mod_bound(x as int, p as int);
            assert(d < 10) by (nonlinear_arith)
                requires
                    x as int == p as int * (d as int) + (x2 as int),
                    x2 >= 0,
                    (x as int) < 10 * (p as int),
                    p >= 1,
                    d as int == x as int / p as int,
                    x2 as int == x as int % p as int,
            ;
        }
        s.append(digit_str(d));
        proof {
            assert(s@.drop_last() =~= pre);
            assert(s@.last() == s@[k as int]);
            assert(dec_val(s@) == d_spec * 10 + d);
            assert(v as int == (d_spec * 10 + d as int) * pow10((11 - k) as nat) + x2) by (nonlinear_arith)
                requires
                    v as int == d_spec * (10 * pow10((11 - k) as nat)) + x,
                    x as int == p as int * (d as int) + (x2 as int),
                    p as int == pow10((11 - k) as nat),
            ;
        }
        x = x2;
        if k < 11 {
            proof {
                assert(pow10((11 - k) as nat) == 10 * pow10((10 - k) as nat));
                vstd::arithmetic::div_mod::lemma_div_multiples_vanish(
                    pow10((10 - k) as nat),
                    10,
                );
            }
            p = p / 10;
        }
        k += 1;
    }
    proof {
        assert(pow10(0) == 1);
        assert(x == 0);
    }
    s
}

/// Reads the twelve-digit number at `s[from .. from + 12]`; `None` when a
/// character there is not a digit.
pub(crate) fn parse_dec12(s: &str, from: usize) -> (r: Option<u64>)
    requires
        from + 12 <= s@.len(),
        from + 12 <= usize::MAX,
    ensures
        match r {
            Some(v) => all_digits(s@.subrange(from as int, from + 12)) && v == dec_val(
                s@.subrange(from as int, from + 12),
            ),
            None => !all_digits(s@.subrange(from as int, from + 12)),
        },
{
    proof {
        lemma_pow10_values();
    }
    let ghost whole = s@.subrange(from as int, from + 12);
    let mut acc: u64 = 0;
    let mut i: usize = 0;
    while i < 12
        invariant
            i <= 12,
            from + 12 <= s@.len(),
            from + 12 <= usize::MAX,
            whole == s@.subrange(from as int, from + 12),
            all_digits(whole.subrange(0, i as int)),
            acc as int == dec_val(whole.subrange(0, i as int)),
            (acc as int) < pow10(i as nat),
        decreases 12 - i,
    {
        proof {
            lemma_pow10_values();
        }
        let c = s.get_char(from + i);
        proof {
            assert(whole[i as int] == s@[from + i]);
        }
        let cv = c as u32;
        if cv < 48 || cv > 57 {
            proof {
                assert(!is_digit(whole[i as int]));
            }
            return None;
        }
        let d: u64 = (cv - 48) as u64;
        proof {
            let pre = whole.subrange(0, i as int);
            let cur = whole.subrange(0, i + 1);
            assert(cur.drop_last() =~= pre);
            assert(cur.last() == whole[i as int]);
            assert(pow10((i + 1) as nat) == 10 * pow10(i as nat));
        }
        acc = acc * 10 + d;
        i += 1;
    }
    proof {
        assert(whole.subrange(0, 12) =~= whole);
    }
    Some(acc)
}

// ---------------------------------------------------------------------------
// Hexadecimal tags
// ---------------------------------------------------------------------------

/// Whether `c` is a lowercase hexadecimal digit.
pub open spec fn is_hex(c: char) -> bool {
    is_digit(c) || ('a' <= c && c <= 'f')
}

/// Numeric value of a lowercase hexadecimal digit.
pub open spec fn hex_val(c: char) -> int {
    if is_digit(c) {
        digit_val(c)
    } else {
        c as int - 'a' as int + 10
    }
}

/// Every character of `s` is a lowercase hexadecimal digit.
pub open spec fn all_hex(s: Seq<char>) -> bool {
    forall|i: int| 0 <= i < s.len() ==> is_hex(#[trigger] s[i])
}

/// The bytes a hexadecimal string denotes, two digits to a byte.
pub open spec fn hex_bytes(s: Seq<char>) -> Seq<u8> {
    Seq::new((s.len() / 2) as nat, |i: int| (hex_val(s[2 * i]) * 16 + hex_val(s[2 * i + 1])) as u8)
}

/// A one-character string for the hexadecimal digit `d`.
fn hex_str(d: u8) -> (r: &'static str)
    requires
        d < 16,
    ensures
        r@.len() == 1,
        is_hex(r@[0]),
        hex_val(r@[0]) == d,
{
    proof {
        reveal_strlit("a");
        reveal_strlit("b");
        reveal_strlit("c");
        reveal_strlit("d");
        reveal_strlit("e");
        reveal_strlit("f");
    }
    match d {
        0 => digit_str(0),
        1 => digit_str(1),
        2 => digit_str(2),
        3 => digit_str(3),
        4 => digit_str(4),
        5 => digit_str(5),
        6 => digit_str(6),
        7 => digit_str(7),
        8 => digit_str(8),
        9 => digit_str(9),
        10 => "a",
        11 => "b",
        12 => "c",
        13 => "d",
        14 => "e",
        _ => "f",
    }
}

/// Renders `bytes` as lowercase hexadecimal, two digits a byte.
fn hex_string(bytes: &Vec<u8>) -> (r: String)
    ensures
        r@.len() == 2 * bytes@.len(),
        all_hex(r@),
        hex_bytes(r@) == bytes@,
{
    let n = bytes.len();
    let mut s = String::new();
    let mut i: usize = 0;
    while i < n
        invariant
            i <= n,
            n == bytes@.len(),
            s@.len() == 2 * i,
            all_hex(s@),
            forall|j: int|
                0 <= j < i ==> hex_val(s@[2 * j]) * 16 + hex_val(s@[2 * j + 1]) == bytes@[j],
        decreases n - i,
    {
        let b = bytes[i];
        let hi: u8 = b / 16;
        let lo: u8 = b % 16;
        assert(hi < 16 && lo < 16 && b == hi * 16 + lo) by (nonlinear_arith)
            requires
                hi == b / 16,
                lo == b % 16,
                b < 256,
        ;
        let ghost pre = s@;
        let hi_str = hex_str(hi);
        let lo_str = hex_str(lo);
        s.append(hi_str);
        s.append(lo_str);
        proof {
            assert(s@ == pre + hi_str@ + lo_str@);
            assert(forall|j: int| 0 <= j < pre.len() ==> #[trigger] s@[j] == pre[j]);
            assert(s@[2 * i as int] == hi_str@[0]);
            assert(s@[2 * i as int + 1] == lo_str@[0]);
        }
        i += 1;
    }
    proof {
        assert(hex_bytes(s@) =~= bytes@);
    }
    s
}

/// Reads the 64-character tag at `s[from .. from + 64]` as 32 bytes; `None`
/// when a character there is not a lowercase hexadecimal digit.
fn parse_hex_tag(s: &str, from: usize) -> (r: Option<Vec<u8>>)
    requires
        from + 64 <= s@.len(),
        from + 64 <= usize::MAX,
    ensures
        match r {
            Some(v) => all_hex(s@.subrange(from as int, from + 64)) && v@ == hex_bytes(
                s@.subrange(from as int, from + 64),
            ),
            None => !all_hex(s@.subrange(from as int, from + 64)),
        },
{
    let ghost whole = s@.subrange(from as int, from + 64);
    let mut out: Vec<u8> = Vec::new();
    let mut i: usize = 0;
    while i < 32
        invariant
            i <= 32,
            from + 64 <= s@.len(),
            from + 64 <= usize::MAX,
            whole == s@.subrange(from as int, from + 64),
            out@.len() == i,
            forall|j: int| 0 <= j < 2 * i ==> is_hex(#[trigger] whole[j]),
            forall|j: int| 0 <= j < i ==> out@[j] == hex_bytes(whole)[j],
        decreases 32 - i,
    {
        let c1 = s.get_char(from + 2 * i);
        let c2 = s.get_char(from + 2 * i + 1);
        proof {
            assert(whole[2 * i as int] == s@[from + 2 * i]);
            assert(whole[2 * i as int + 1] == s@[from + 2 * i + 1]);
        }
        let h1 = match hex_digit_value(c1) {
            Some(v) => v,
            None => {
                proof {
                    assert(!is_hex(whole[2 * i as int]));
                }
                return None;
            },
        };
        let h2 = match hex_digit_value(c2) {
            Some(v) => v,
            None => {
                proof {
                    assert(!is_hex(whole[2 * i as int + 1]));
                }
                return None;
            },
        };
        out.push(h1 * 16 + h2);
        i += 1;
    }
    proof {
        assert(out@ =~= hex_bytes(whole));
    }
    Some(out)
}

/// The value of one hexadecimal character; `None` when it is not one.
pub fn hex_digit_value(c: char) -> (r: Option<u8>)
    ensures
        match r {
            Some(v) => is_hex(c) && v == hex_val(c) && v < 16,
            None => !is_hex(c),
        },
{
    let cv = c as u32;
    if 48 <= cv && cv <= 57 {
        Some((cv - 48) as u8)
    } else if 97 <= cv && cv <= 102 {
        Some((cv - 97 + 10) as u8)
    } else {
        None
    }
}

// ---------------------------------------------------------------------------
// Newline separators
// ---------------------------------------------------------------------------

/// The first newline at or after position `i`, or `-1` when there is none.
pub open spec fn find_nl(s: Seq<char>, i: int) -> int
    decreases s.len() - i,
{
    if i < 0 || i >= s.len() {
        -1
    } else if s[i] == '\n' {
        i
    } else {
        find_nl(s, i + 1)
    }
}

/// A scan that saw no newline before `j` and one at `j` has found the first.
proof fn lemma_find_nl_found(s: Seq<char>, from: int, j: int)
    requires
        0 <= from <= j < s.len(),
        s[j] == '\n',
        forall|k: int| from <= k < j ==> s[k] != '\n',
    ensures
        find_nl(s, from) == j,
    decreases j - from,
{
    if from < j {
        lemma_find_nl_found(s, from + 1, j);
    }
}

/// A scan that saw no newline up to the end has found none.
proof fn lemma_find_nl_none(s: Seq<char>, from: int)
    requires
        0 <= from,
        forall|k: int| from <= k < s.len() ==> s[k] != '\n',
    ensures
        find_nl(s, from) == -1,
    decreases s.len() - from,
{
    if from < s.len() {
        lemma_find_nl_none(s, from + 1);
    }
}

/// Position of the first newline of `s` at or after `from`.
fn find_newline(s: &str, from: usize) -> (r: Option<usize>)
    requires
        from <= s@.len(),
        s@.len() <= usize::MAX,
    ensures
        match r {
            Some(j) => from <= j < s@.len() && find_nl(s@, from as int) == j,
            None => find_nl(s@, from as int) == -1,
        },
{
    let n = s.unicode_len();
    let mut j: usize = from;
    while j < n
        invariant
            from <= j <= n,
            n == s@.len(),
            forall|k: int| from <= k < j ==> s@[k] != '\n',
        decreases n - j,
    {
        if s.get_char(j) == '\n' {
            proof {
                lemma_find_nl_found(s@, from as int, j as int);
            }
            return Some(j);
        }
        j += 1;
    }
    proof {
        lemma_find_nl_none(s@, from as int);
    }
    None
}

// ---------------------------------------------------------------------------
// The token envelope
//
// A token is `payload ++ "." ++ tag`, where the tag is the 64-character
// lowercase hexadecimal rendering of the payload's 32-byte tag under the
// domain's trust key. A payload opens with the validity window as two
// twelve-digit timestamps, `iat` then `exp`, and continues with the claims:
// for a guest token `purpose`, `redirect_url` and `name`, each closed by a
// newline, then `room_id` to the end; for a host token `room_id` alone.
// ---------------------------------------------------------------------------

/// The envelope decodes: a dot 65 places from the end, then 64 hex digits.
pub open spec fn envelope_ok(t: Seq<char>) -> bool {
    t.len() >= 65 && t[t.len() - 65] == '.' && all_hex(t.subrange(t.len() - 64, t.len() as int))
}

/// The signed part of a token: everything before the trailing dot and tag.
pub open spec fn payload_of(t: Seq<char>) -> Seq<char> {
    t.subrange(0, t.len() - 65)
}

/// The 32 tag bytes a token carries.
pub open spec fn tag_of(t: Seq<char>) -> Seq<u8> {
    hex_bytes(t.subrange(t.len() - 64, t.len() as int))
}

/// The payload opens with two twelve-digit timestamps.
pub open spec fn ts_ok(p: Seq<char>) -> bool {
    p.len() >= 24 && all_digits(p.subrange(0, 24))
}

/// Issue time of a payload.
pub open spec fn iat_of(p: Seq<char>) -> u64 {
    dec_val(p.subrange(0, 12)) as u64
}

/// Expiry time of a payload.
pub open spec fn exp_of(p: Seq<char>) -> u64 {
    dec_val(p.subrange(12, 24)) as u64
}

/// `now` lies in the validity window.
pub open spec fn in_window(iat: u64, exp: u64, now: u64) -> bool {
    iat <= now && now <= exp
}

/// `s` holds no newline, so it can stand as a newline-closed field.
pub open spec fn no_newline(s: Seq<char>) -> bool {
    forall|i: int| 0 <= i < s.len() ==> s[i] != '\n'
}

/// The claims a guest payload denotes, when it is well formed.
pub open spec fn guest_claims_of(p: Seq<char>) -> Option<GuestClaims> {
    if !ts_ok(p) {
        None
    } else {
        let n1 = find_nl(p, 24);
        let n2 = find_nl(p, n1 + 1);
        let n3 = find_nl(p, n2 + 1);
        if n1 == -1 || n2 == -1 || n3 == -1 {
            None
        } else {
            Some(
                GuestClaims {
                    iat: iat_of(p),
                    exp: exp_of(p),
                    purpose: p.subrange(24, n1),
                    redirect_url: p.subrange(n1 + 1, n2),
                    name: p.subrange(n2 + 1, n3),
                    room_id: p.subrange(n3 + 1, p.len() as int),
                },
            )
        }
    }
}

/// The claims a host payload denotes, when it is well formed.
pub open spec fn host_claims_of(p: Seq<char>) -> Option<HostClaims> {
    if !ts_ok(p) {
        None
    } else {
        Some(
            HostClaims { iat: iat_of(p), exp: exp_of(p), room_id: p.subrange(24, p.len() as int) },
        )
    }
}

/// What verifying a guest token under `key` at time `now` yields: the
/// structural check first, then the tag against the key, then the window.
pub open spec fn guest_verify_spec(t: Seq<char>, key: Seq<u8>, now: u64) -> Result<
    GuestClaims,
    Error,
> {
    if !envelope_ok(t) {
        Err(Error::TokenMalformed)
    } else {
        match guest_claims_of(payload_of(t)) {
            None => Err(Error::TokenMalformed),
            Some(c) => if tag_of(t) != mac_of(key, payload_of(t)) {
                Err(Error::TokenInvalid)
            } else if !in_window(c.iat, c.exp, now) {
                Err(Error::TokenExpired)
            } else {
                Ok(c)
            },
        }
    }
}

/// What verifying a host token under `key` at time `now` yields.
pub open spec fn host_verify_spec(t: Seq<char>, key: Seq<u8>, now: u64) -> Result<
    HostClaims,
    Error,
> {
    if !envelope_ok(t) {
        Err(Error::TokenMalformed)
    } else {
        match host_claims_of(payload_of(t)) {
            None => Err(Error::TokenMalformed),
            Some(c) => if tag_of(t) != mac_of(key, payload_of(t)) {
                Err(Error::TokenInvalid)
            } else if !in_window(c.iat, c.exp, now) {
                Err(Error::TokenExpired)
            } else {
                Ok(c)
            },
        }
    }
}

/// Splits a token into its payload and decoded tag; `None` exactly when the
/// envelope does not decode.
pub(crate) fn split_envelope<'a>(token: &'a str) -> (r: Option<(&'a str, Vec<u8>)>)
    ensures
        match r {
            Some((p, tag)) => envelope_ok(token@) && p@ == payload_of(token@) && tag@ == tag_of(
                token@,
            ),
            None => !envelope_ok(token@),
        },
{
    let n = token.unicode_len();
    if n < 65 {
        return None;
    }
    if token.get_char(n - 65) != '.' {
        return None;
    }
    let tag = match parse_hex_tag(token, n - 64) {
        Some(v) => v,
        None => {
            return None;
        },
    };
    let payload = token.substring_char(0, n - 65);
    Some((payload, tag))
}

/// Reads a guest payload's claims; `None` exactly when it is not well formed.
fn parse_guest_payload(p: &str) -> (r: Option<GuestToken>)
    ensures
        match r {
            Some(t) => guest_claims_of(p@) == Some(t@),
            None => guest_claims_of(p@) is None,
        },
{
    let m = p.unicode_len();
    if m < 24 {
        return None;
    }
    let iat = match parse_dec12(p, 0) {
        Some(v) => v,
        None => {
            proof {
                assert(!all_digits(p@.subrange(0, 24))) by {
                    assert(forall|i: int|
                        0 <= i < 12 ==> p@.subrange(0, 24)[i] == #[trigger] p@.subrange(0, 12)[i]);
                }
            }
            return None;
        },
    };
    let exp = match parse_dec12(p, 12) {
        Some(v) => v,
        None => {
            proof {
                assert(!all_digits(p@.subrange(0, 24))) by {
                    assert(forall|i: int|
                        0 <= i < 12 ==> p@.subrange(0, 24)[i + 12] == #[trigger] p@.subrange(
                            12,
                            24,
                        )[i]);
                }
            }
            return None;
        },
    };
    proof {
        assert(ts_ok(p@)) by {
            assert(forall|i: int|
                0 <= i < 24 ==> #[trigger] p@.subrange(0, 24)[i] == (if i < 12 {
                    p@.subrange(0, 12)[i]
                } else {
                    p@.subrange(12, 24)[i - 12]
                }));
        }
        assert(p@.subrange(0, 12) =~= p@.subrange(0, 24).subrange(0, 12));
        assert(iat == iat_of(p@));
        assert(exp == exp_of(p@));
    }
    let n1 = match find_newline(p, 24) {
        Some(v) => v,
        None => {
            return None;
        },
    };
    let n2 = match find_newline(p, n1 + 1) {
        Some(v) => v,
        None => {
            return None;
        },
    };
    let n3 = match find_newline(p, n2 + 1) {
        Some(v) => v,
        None => {
            return None;
        },
    };
    let purpose = String::from_str(p.substring_char(24, n1));
    let redirect_url = String::from_str(p.substring_char(n1 + 1, n2));
    let name = String::from_str(p.substring_char(n2 + 1, n3));
    let room_id = String::from_str(p.substring_char(n3 + 1, m));
    Some(GuestToken { purpose, redirect_url, name, room_id, iat, exp })
}

/// Reads a host payload's claims; `None` exactly when it is not well formed.
fn parse_host_payload(p: &str) -> (r: Option<HostToken>)
    ensures
        match r {
            Some(t) => host_claims_of(p@) == Some(t@),
            None => host_claims_of(p@) is None,
        },
{
    let m = p.unicode_len();
    if m < 24 {
        return None;
    }
    let iat = match parse_dec12(p, 0) {
        Some(v) => v,
        None => {
            proof {
                assert(!all_digits(p@.subrange(0, 24))) by {
                    assert(forall|i: int|
                        0 <= i < 12 ==> p@.subrange(0, 24)[i] == #[trigger] p@.subrange(0, 12)[i]);
                }
            }
            return None;
        },
    };
    let exp = match parse_dec12(p, 12) {
        Some(v) => v,
        None => {
            proof {
                assert(!all_digits(p@.subrange(0, 24))) by {
                    assert(forall|i: int|
                        0 <= i < 12 ==> p@.subrange(0, 24)[i + 12] == #[trigger] p@.subrange(
                            12,
                            24,
                        )[i]);
                }
            }
            return None;
        },
    };
    proof {
        assert(ts_ok(p@)) by {
            assert(forall|i: int|
                0 <= i < 24 ==> #[trigger] p@.subrange(0, 24)[i] == (if i < 12 {
                    p@.subrange(0, 12)[i]
                } else {
                    p@.subrange(12, 24)[i - 12]
                }));
        }
        assert(p@.subrange(0, 12) =~= p@.subrange(0, 24).subrange(0, 12));
    }
    let room_id = String::from_str(p.substring_char(24, m));
    Some(HostToken { room_id, iat, exp })
}

/// Verifies a guest bearer token against the guest-domain trust key at time
/// `now`: structural decode, then the tag, then the validity window.
pub fn verify_guest(token: &str, key: &[u8], now: u64) -> (r: Result<GuestToken, Error>)
    ensures
        (match r {
            Ok(t) => guest_verify_spec(token@, key@, now) == Ok::<GuestClaims, Error>(t@),
            Err(e) => guest_verify_spec(token@, key@, now) == Err::<GuestClaims, Error>(e),
        }),
{
    let (payload, tag) = match split_envelope(token) {
        Some(v) => v,
        None => {
            return Err(Error::TokenMalformed);
        },
    };
    let t = match parse_guest_payload(payload) {
        Some(v) => v,
        None => {
            return Err(Error::TokenMalformed);
        },
    };
    let mac = mac_bytes(key, payload);
    if !bytes_eq(&tag, &mac) {
        return Err(Error::TokenInvalid);
    }
    if now < t.iat || t.exp < now {
        return Err(Error::TokenExpired);
    }
    Ok(t)
}

/// Verifies a host bearer token against the host-domain trust key at time
/// `now`.
pub fn verify_host(token: &str, key: &[u8], now: u64) -> (r: Result<HostToken, Error>)
    ensures
        (match r {
            Ok(t) => host_verify_spec(token@, key@, now) == Ok::<HostClaims, Error>(t@),
            Err(e) => host_verify_spec(token@, key@, now) == Err::<HostClaims, Error>(e),
        }),
{
    let (payload, tag) = match split_envelope(token) {
        Some(v) => v,
        None => {
            return Err(Error::TokenMalformed);
        },
    };
    let t = match parse_host_payload(payload) {
        Some(v) => v,
        None => {
            return Err(Error::TokenMalformed);
        },
    };
    let mac = mac_bytes(key, payload);
    if !bytes_eq(&tag, &mac) {
        return Err(Error::TokenInvalid);
    }
    if now < t.iat || t.exp < now {
        return Err(Error::TokenExpired);
    }
    Ok(t)
}

/// Closes `payload` into a token: appends the dot and the hexadecimal tag
/// of `payload` under `key`.
pub(crate) fn seal_payload(payload: String, key: &[u8]) -> (r: String)
    ensures
        envelope_ok(r@),
        payload_of(r@) == payload@,
        tag_of(r@) == mac_of(key@, payload@),
{
    let mac = mac_bytes(key, payload.as_str());
    let tag = hex_string(&mac);
    let ghost pay = payload@;
    let mut t = payload;
    t.append(".");
    t.append(tag.as_str());
    proof {
        reveal_strlit(".");
        assert(t@ == pay + "."@ + tag@);
        assert(t@.len() == pay.len() + 65);
        assert(t@[t@.len() - 65] == '.');
        assert(t@.subrange(t@.len() - 64, t@.len() as int) =~= tag@);
        assert(payload_of(t@) =~= pay);
        assert(hex_bytes(tag@) == mac@);
    }
    t
}

/// Issues a guest token: the twelve-digit validity window, the three
/// newline-closed claim fields, the room, and the tag under `key`. Whoever
/// verifies it under the same key inside its window reads back exactly the
/// claims that were put in.
pub fn sign_guest(token: &GuestToken, key: &[u8]) -> (r: String)
    requires
        token.iat < 1000000000000,
        token.exp < 1000000000000,
        no_newline(token.purpose@),
        no_newline(token.redirect_url@),
        no_newline(token.name@),
    ensures
        forall|now: u64|
            in_window(token@.iat, token@.exp, now) ==> guest_verify_spec(r@, key@, now) == Ok::<
                GuestClaims,
                Error,
            >(token@),
{
    proof {
        reveal_strlit("\n");
    }
    let mut p = dec12_string(token.iat);
    let ghost iat_s = p@;
    let exp_s = dec12_string(token.exp);
    p.append(exp_s.as_str());
    p.append(token.purpose.as_str());
    p.append("\n");
    p.append(token.redirect_url.as_str());
    p.append("\n");
    p.append(token.name.as_str());
    p.append("\n");
    p.append(token.room_id.as_str());
    let ghost pay = p@;
    let ghost n1: int = 24 + token.purpose@.len() as int;
    let ghost n2: int = n1 + 1 + token.redirect_url@.len() as int;
    let ghost n3: int = n2 + 1 + token.name@.len() as int;
    let ghost end: int = n3 + 1 + token.room_id@.len() as int;
    proof {
        assert(pay.len() == end);
        assert(forall|i: int| 0 <= i < 12 ==> pay[i] == iat_s[i]);
        assert(forall|i: int| 12 <= i < 24 ==> pay[i] == exp_s@[i - 12]);
        assert(forall|i: int| 24 <= i < n1 ==> pay[i] == token.purpose@[i - 24]);
        assert(pay[n1] == '\n');
        assert(forall|i: int| n1 + 1 <= i < n2 ==> pay[i] == token.redirect_url@[i - n1 - 1]);
        assert(pay[n2] == '\n');
        assert(forall|i: int| n2 + 1 <= i < n3 ==> pay[i] == token.name@[i - n2 - 1]);
        assert(pay[n3] == '\n');
        assert(forall|i: int| n3 + 1 <= i < end ==> pay[i] == token.room_id@[i - n3 - 1]);
        assert(ts_ok(pay)) by {
            assert(forall|i: int|
                0 <= i < 24 ==> is_digit(#[trigger] pay.subrange(0, 24)[i]));
        }
        assert(pay.subrange(0, 12) =~= iat_s);
        assert(pay.subrange(12, 24) =~= exp_s@);
        assert(iat_of(pay) == token.iat);
        assert(exp_of(pay) == token.exp);
        lemma_find_nl_found(pay, 24, n1);
        lemma_find_nl_found(pay, n1 + 1, n2);
        lemma_find_nl_found(pay, n2 + 1, n3);
        assert(pay.subrange(24, n1) =~= token.purpose@);
        assert(pay.subrange(n1 + 1, n2) =~= token.redirect_url@);
        assert(pay.subrange(n2 + 1, n3) =~= token.name@);
        assert(pay.subrange(n3 + 1, end) =~= token.room_id@);
        let gc = guest_claims_of(pay);
        assert(gc is Some);
        assert(gc->Some_0 =~= token@);
    }
    let sealed = seal_payload(p, key);
    proof {
        assert forall|now: u64|
            in_window(token@.iat, token@.exp, now) implies guest_verify_spec(
            sealed@,
            key@,
            now,
        ) == Ok::<GuestClaims, Error>(token@) by {
            assert(payload_of(sealed@) == pay);
            assert(guest_claims_of(pay) == Some(token@));
            assert(tag_of(sealed@) == mac_of(key@, pay));
        }
    }
    sealed
}

/// Issues a host token: the twelve-digit validity window, the room, and the
/// tag under `key`.
pub fn sign_host(token: &HostToken, key: &[u8]) -> (r: String)
    requires
        token.iat < 1000000000000,
        token.exp < 1000000000000,
    ensures
        forall|now: u64|
            in_window(token@.iat, token@.exp, now) ==> host_verify_spec(r@, key@, now) == Ok::<
                HostClaims,
                Error,
            >(token@),
{
    let mut p = dec12_string(token.iat);
    let ghost iat_s = p@;
    let exp_s = dec12_string(token.exp);
    p.append(exp_s.as_str());
    p.append(token.room_id.as_str());
    let ghost pay = p@;
    let ghost end: int = 24 + token.room_id@.len() as int;
    proof {
        assert(pay.len() == end);
        assert(forall|i: int| 0 <= i < 12 ==> pay[i] == iat_s[i]);
        assert(forall|i: int| 12 <= i < 24 ==> pay[i] == exp_s@[i - 12]);
        assert(forall|i: int| 24 <= i < end ==> pay[i] == token.room_id@[i - 24]);
        assert(ts_ok(pay)) by {
            assert(forall|i: int|
                0 <= i < 24 ==> is_digit(#[trigger] pay.subrange(0, 24)[i]));
        }
        assert(pay.subrange(0, 12) =~= iat_s);
        assert(pay.subrange(12, 24) =~= exp_s@);
        assert(iat_of(pay) == token.iat);
        assert(exp_of(pay) == token.exp);
        assert(pay.subrange(24, end) =~= token.room_id@);
        let hc = host_claims_of(pay);
        assert(hc is Some);
        assert(hc->Some_0 =~= token@);
    }
    let sealed = seal_payload(p, key);
    proof {
        assert forall|now: u64|
            in_window(token@.iat, token@.exp, now) implies host_verify_spec(
            sealed@,
            key@,
            now,
        ) == Ok::<HostClaims, Error>(token@) by {
            assert(payload_of(sealed@) == pay);
            assert(host_claims_of(pay) == Some(token@));
            assert(tag_of(sealed@) == mac_of(key@, pay));
        }
    }
    sealed
}

// ---------------------------------------------------------------------------
// Laws of the codec
// ---------------------------------------------------------------------------

/// A token whose tag does not match the mac of its payload under `key` is
/// never accepted under `key`, in either trust domain and at any time: at
/// best it is rejected as invalid, at worst as malformed.
pub proof fn lemma_wrong_tag_never_validates(t: Seq<char>, key: Seq<u8>, now: u64)
    ensures
        tag_of(t) != mac_of(key, payload_of(t)) ==> !(guest_verify_spec(t, key, now) is Ok)
            && !(host_verify_spec(t, key, now) is Ok),
{
}

/// Guest-domain and host-domain keys are not interchangeable: a token that
/// one key accepts, in either domain, is rejected under any key whose mac of
/// the token's payload differs — the two domains never share a validator
/// unless the keyed primitive itself collides on this payload.
pub proof fn lemma_key_separation(
    t: Seq<char>,
    key_ok: Seq<u8>,
    key_other: Seq<u8>,
    now_ok: u64,
    now_other: u64,
)
    ensures
        (guest_verify_spec(t, key_ok, now_ok) is Ok || host_verify_spec(t, key_ok, now_ok) is Ok)
            && mac_of(key_other, payload_of(t)) != mac_of(key_ok, payload_of(t)) ==> !(
        guest_verify_spec(t, key_other, now_other) is Ok) && !(host_verify_spec(
            t,
            key_other,
            now_other,
        ) is Ok),
{
}

/// The host validator refuses a guest-domain token outright: a token the
/// guest key accepts is reported by the host-domain check as
/// `TokenInvalid`, at any time, whenever the primitive's tags under the
/// two keys differ on its payload — so no session data can be read with it.
pub proof fn lemma_host_validator_refuses_guest_domain(
    t: Seq<char>,
    guest_key: Seq<u8>,
    host_key: Seq<u8>,
    now_guest: u64,
    now: u64,
)
    ensures
        guest_verify_spec(t, guest_key, now_guest) is Ok && mac_of(host_key, payload_of(t))
            != mac_of(guest_key, payload_of(t)) ==> host_verify_spec(t, host_key, now) == Err::<
            HostClaims,
            Error,
        >(Error::TokenInvalid),
{
}

/// The guest validator refuses a host-domain token outright: a token the
/// host key accepts is reported by the guest-domain check as
/// `TokenInvalid` where its payload has a guest shape, and as
/// `TokenMalformed` where it has none — never accepted — whenever the
/// primitive's tags under the two keys differ on its payload. No session
/// can come of it.
pub proof fn lemma_guest_validator_refuses_host_domain(
    t: Seq<char>,
    guest_key: Seq<u8>,
    host_key: Seq<u8>,
    now_host: u64,
    now: u64,
)
    ensures
        host_verify_spec(t, host_key, now_host) is Ok && mac_of(guest_key, payload_of(t))
            != mac_of(host_key, payload_of(t)) ==> guest_verify_spec(t, guest_key, now) == (
        if guest_claims_of(payload_of(t)) is Some {
            Err::<GuestClaims, Error>(Error::TokenInvalid)
        } else {
            Err::<GuestClaims, Error>(Error::TokenMalformed)
        }),
{
}

/// A tampered tag on a structurally sound guest token is reported as
/// `TokenInvalid`, never as a claims mismatch or a pass.
pub proof fn lemma_guest_tamper_rejected(t: Seq<char>, key: Seq<u8>, now: u64)
    ensures
        envelope_ok(t) && guest_claims_of(payload_of(t)) is Some && tag_of(t) != mac_of(
            key,
            payload_of(t),
        ) ==> guest_verify_spec(t, key, now) == Err::<GuestClaims, Error>(Error::TokenInvalid),
{
}

/// An authentic guest token whose window has passed is reported as
/// `TokenExpired`, even though its tag is genuine.
pub proof fn lemma_guest_expiry_rejected(t: Seq<char>, key: Seq<u8>, now: u64)
    ensures
        envelope_ok(t) && guest_claims_of(payload_of(t)) is Some && tag_of(t) == mac_of(
            key,
            payload_of(t),
        ) && !in_window(
            guest_claims_of(payload_of(t))->Some_0.iat,
            guest_claims_of(payload_of(t))->Some_0.exp,
            now,
        ) ==> guest_verify_spec(t, key, now) == Err::<GuestClaims, Error>(Error::TokenExpired),
{
}

} // verus!
