//! Signed sessions and password hashes.
use hmac::{Hmac, Mac};
use vstd::prelude::*;
use vstd::string::*;
use vstd::utf8::encode_utf8;

use crate::resolve::opt_text;
use crate::text::{cat3, chars_of, slice_text};

verus! {

/// The HMAC-SHA256 code of a message under a key.
pub uninterp spec fn hmac_sha256(key: Seq<u8>, message: Seq<u8>) -> Seq<u8>;

/// `Hmac<Sha256>`: `new_from_slice`, which takes a key of any length, then `update` and `finalize`.
/// The code is a function of the key and the message alone.
#[verifier::external_body]
fn hmac_code(key: &Vec<u8>, message: &[u8]) -> (r: Vec<u8>)
    ensures
        r@ == hmac_sha256(key@, message@),
{
    let mut mac = <Hmac<sha2::Sha256> as hmac::KeyInit>::new_from_slice(key)
        .expect("HMAC accepts a key of any length");
    mac.update(message);
    mac.finalize().into_bytes().to_vec()
}

/// Whether Argon2 accepts a password for a stored hash. What is no stored hash accepts none.
pub uninterp spec fn argon2_accepts(password: Seq<char>, stored: Seq<char>) -> bool;

/// `Argon2::hash_password` on the bytes of a password, with a random salt and the default parameters.
/// The hash depends on the salt; of every hash that comes out, `verify_password` accepts the password.
/// The error is told in its own words.
#[verifier::external_body]
fn argon2_hash(password: &str) -> (r: Result<String, String>)
    ensures
        r matches Ok(h) ==> argon2_accepts(password@, h@),
{
    let salt = argon2::password_hash::SaltString::generate(
        &mut argon2::password_hash::rand_core::OsRng,
    );
    argon2::PasswordHasher::hash_password(
        &argon2::Argon2::default(),
        password.as_bytes(),
        &salt,
    ).map(|h| h.to_string()).map_err(|e| e.to_string())
}

/// `Argon2::verify_password` on the bytes of a password and what `PasswordHash::new` makes of a stored
/// hash: a function of both texts.
#[verifier::external_body]
fn argon2_check(password: &str, stored: &str) -> (r: bool)
    ensures
        r == argon2_accepts(password@, stored@),
{
    match argon2::PasswordHash::new(stored) {
        Ok(parsed) => argon2::PasswordVerifier::verify_password(
            &argon2::Argon2::default(),
            password.as_bytes(),
            &parsed,
        ).is_ok(),
        Err(_) => false,
    }
}

/// A hash of a password, salted at random. Where there is one, it accepts the password.
pub fn hash_password(password: &str) -> (r: Result<String, String>)
    ensures
        r matches Ok(h) ==> argon2_accepts(password@, h@),
{
    match argon2_hash(password) {
        Ok(h) => Ok(h),
        Err(e) => Err(crate::text::cat2("hash failed: ", &e)),
    }
}

/// Whether a stored hash accepts a password.
pub fn verify_password(password: &str, stored: &str) -> (r: bool)
    ensures
        r == argon2_accepts(password@, stored@),
{
    argon2_check(password, stored)
}

/// The character of a hexadecimal digit.
pub open spec fn hex_digit(d: int) -> char {
    if d < 10 {
        (48 + d) as char
    } else {
        (87 + d) as char
    }
}

/// Bytes as hexadecimal text, two digits for each.
pub open spec fn hex_text(b: Seq<u8>) -> Seq<char>
    decreases b.len(),
{
    if b.len() == 0 {
        Seq::empty()
    } else {
        hex_text(b.drop_last()).push(hex_digit(b.last() as int / 16)).push(
            hex_digit(b.last() as int % 16),
        )
    }
}

/// A natural number as hexadecimal text, without leading zeros.
pub open spec fn hex_nat(n: nat) -> Seq<char>
    decreases n,
{
    if n < 16 {
        seq![hex_digit(n as int)]
    } else {
        hex_nat(n / 16).push(hex_digit((n % 16) as int))
    }
}

fn hex_char(d: u8) -> (r: char)
    requires
        d < 16,
    ensures
        r == hex_digit(d as int),
{
    if d < 10 {
        (48u8 + d) as char
    } else {
        (87u8 + d) as char
    }
}

/// Bytes as hexadecimal text.
pub fn hex(bytes: &Vec<u8>) -> (r: String)
    ensures
        r@ == hex_text(bytes@),
{
    let n: usize = bytes.len();
    let mut out = String::new();
    let mut i: usize = 0;
    while i < n
        invariant
            i <= n,
            n == bytes@.len(),
            out@ == hex_text(bytes@.take(i as int)),
        decreases n - i,
    {
        proof {
            assert(bytes@.take(i + 1).drop_last() =~= bytes@.take(i as int));
            assert(bytes@.take(i + 1).last() == bytes@[i as int]);
        }
        out.push(hex_char(bytes[i] / 16));
        out.push(hex_char(bytes[i] % 16));
        i = i + 1;
    }
    proof {
        assert(bytes@.take(n as int) =~= bytes@);
    }
    out
}

fn hex_of(n: u128) -> (r: String)
    ensures
        r@ == hex_nat(n as nat),
    decreases n,
{
    if n < 16 {
        let mut out = String::new();
        out.push(hex_char(n as u8));
        proof {
            assert(out@ =~= hex_nat(n as nat));
        }
        out
    } else {
        let mut out = hex_of(n / 16);
        out.push(hex_char((n % 16) as u8));
        out
    }
}

/// The id that a clock reading in nanoseconds gives.
pub fn uid(nanos: u128) -> (r: String)
    ensures
        r@ == hex_nat(nanos as nat),
{
    hex_of(nanos)
}

/// The key that sessions are signed with: the configured one, else that of development.
pub open spec fn secret_bytes(configured: Option<Seq<char>>) -> Seq<u8> {
    match configured {
        Some(s) => encode_utf8(s),
        None => encode_utf8("xeres-insecure-dev-session-key"@),
    }
}

/// The key that sessions are signed with: the configured one, else that of development.
pub fn session_secret(configured: &Option<String>) -> (r: Vec<u8>)
    ensures
        r@ == secret_bytes(opt_text(*configured)),
{
    match configured {
        Some(s) => s.as_str().as_bytes_vec(),
        None => "xeres-insecure-dev-session-key".as_bytes_vec(),
    }
}

/// The signature of an actor's id under a key.
pub open spec fn signature(id: Seq<char>, key: Seq<u8>) -> Seq<char> {
    hex_text(hmac_sha256(key, encode_utf8(id)))
}

/// A signed session: the actor's id, a dot, and its signature.
pub open spec fn signed(id: Seq<char>, key: Seq<u8>) -> Seq<char> {
    id + "."@ + signature(id, key)
}

/// The last of the first `n` places at which a character stands.
pub open spec fn last_of(s: Seq<char>, c: char, n: int) -> Option<int>
    decreases n,
{
    if n <= 0 || n > s.len() {
        None
    } else if s[n - 1] == c {
        Some(n - 1)
    } else {
        last_of(s, c, n - 1)
    }
}

/// The actor whose signed session a text is, if it is one.
pub open spec fn session_actor(raw: Seq<char>, key: Seq<u8>) -> Option<Seq<char>> {
    match last_of(raw, '.', raw.len() as int) {
        Some(k) => {
            let id = raw.subrange(0, k);
            if raw.subrange(k + 1, raw.len() as int) == signature(id, key) {
                Some(id)
            } else {
                None
            }
        },
        None => None,
    }
}

/// A signed session for an actor.
pub fn session_sign(id: &str, key: &Vec<u8>) -> (r: String)
    ensures
        r@ == signed(id@, key@),
{
    cat3(id, ".", &hex(&hmac_code(key, id.as_bytes())))
}

/// Whether two byte strings are equal, in a time that depends on their lengths alone.
pub fn constant_eq(a: &[u8], b: &[u8]) -> (r: bool)
    ensures
        r == (a@ == b@),
{
    let n: usize = a.len();
    if n != b.len() {
        return false;
    }
    let mut diff: u8 = 0;
    let mut i: usize = 0;
    while i < n
        invariant
            i <= n,
            n == a@.len(),
            n == b@.len(),
            (diff == 0) == (forall|j: int| 0 <= j < i ==> a@[j] == b@[j]),
        decreases n - i,
    {
        let x: u8 = a[i];
        let y: u8 = b[i];
        proof {
            assert(((diff | (x ^ y)) == 0) == (diff == 0 && x == y)) by (bit_vector);
        }
        diff = diff | (x ^ y);
        i = i + 1;
    }
    proof {
        if diff == 0 {
            assert(a@ =~= b@);
        }
    }
    diff == 0
}

fn find_last(b: &Vec<char>, c: char) -> (r: Option<usize>)
    ensures
        match r {
            Some(k) => k < b@.len() && last_of(b@, c, b@.len() as int) == Some(k as int),
            None => last_of(b@, c, b@.len() as int) is None,
        },
{
    let mut i: usize = b.len();
    while i > 0
        invariant
            i <= b@.len(),
            last_of(b@, c, b@.len() as int) == last_of(b@, c, i as int),
        decreases i,
    {
        if b[i - 1] == c {
            return Some(i - 1);
        }
        i = i - 1;
    }
    None
}

/// The actor whose signed session a cookie's value is, if the signature is right.
pub fn session_verify(raw: &str, key: &Vec<u8>) -> (r: Option<String>)
    ensures
        opt_text(r) == session_actor(raw@, key@),
{
    let b = chars_of(raw);
    match find_last(&b, '.') {
        Some(k) => {
            let id = slice_text(&b, 0, k);
            let sig = slice_text(&b, k + 1, b.len());
            let expected = hex(&hmac_code(key, id.as_str().as_bytes()));
            proof {
                vstd::utf8::encode_utf8_decode_utf8(sig@);
                vstd::utf8::encode_utf8_decode_utf8(expected@);
            }
            if constant_eq(expected.as_str().as_bytes(), sig.as_str().as_bytes()) {
                Some(id)
            } else {
                None
            }
        },
        None => None,
    }
}

/// The `Set-Cookie` text that signs an actor in.
pub open spec fn login_cookie(id: Seq<char>, key: Seq<u8>) -> Seq<char> {
    "xeres_session="@ + signed(id, key)
        + "; HttpOnly; Secure; SameSite=Strict; Path=/\r\nSet-Cookie: xeres_auth=1; Secure; SameSite=Strict; Path=/"@
}

/// The `Set-Cookie` text that signs out.
pub open spec fn logout_cookie() -> Seq<char> {
    "xeres_session=; HttpOnly; Secure; SameSite=Strict; Path=/; Max-Age=0\r\nSet-Cookie: xeres_auth=; Secure; SameSite=Strict; Path=/; Max-Age=0"@
}

/// The `Set-Cookie` text that signs an actor in: the signed session, which scripts cannot read, and a
/// readable flag that holds no secret.
pub fn session_set_cookie(id: &str, key: &Vec<u8>) -> (r: String)
    ensures
        r@ == login_cookie(id@, key@),
{
    cat3(
        "xeres_session=",
        &session_sign(id, key),
        "; HttpOnly; Secure; SameSite=Strict; Path=/\r\nSet-Cookie: xeres_auth=1; Secure; SameSite=Strict; Path=/",
    )
}

/// The `Set-Cookie` text that signs out.
pub fn session_clear_cookie() -> (r: String)
    ensures
        r@ == logout_cookie(),
{
    "xeres_session=; HttpOnly; Secure; SameSite=Strict; Path=/; Max-Age=0\r\nSet-Cookie: xeres_auth=; Secure; SameSite=Strict; Path=/; Max-Age=0".to_owned()
}

proof fn lemma_hex_has_no_dot(b: Seq<u8>)
    ensures
        forall|i: int| 0 <= i < hex_text(b).len() ==> #[trigger] hex_text(b)[i] != '.',
    decreases b.len(),
{
    if b.len() > 0 {
        lemma_hex_has_no_dot(b.drop_last());
        let h = hex_text(b.drop_last());
        let last = b.last() as int;
        assert(hex_digit(last / 16) != '.');
        assert(hex_digit(last % 16) != '.');
        assert forall|i: int| 0 <= i < hex_text(b).len() implies #[trigger] hex_text(b)[i]
            != '.' by {
            if i < h.len() {
                assert(hex_text(b)[i] == h[i]);
            }
        }
    }
}

proof fn lemma_last_of(s: Seq<char>, c: char, n: int, k: int)
    requires
        0 <= k < n <= s.len(),
        s[k] == c,
        forall|j: int| k < j < n ==> s[j] != c,
    ensures
        last_of(s, c, n) == Some(k),
    decreases n,
{
    if n - 1 != k {
        lemma_last_of(s, c, n - 1, k);
    }
}

proof fn lemma_last_of_is_last(s: Seq<char>, c: char, n: int)
    requires
        n <= s.len(),
    ensures
        last_of(s, c, n) matches Some(k) ==> 0 <= k < n && s[k] == c,
    decreases n,
{
    if n > 0 && s[n - 1] != c {
        lemma_last_of_is_last(s, c, n - 1);
    }
}

/// A session is its actor's: what was signed for an actor is verified as that actor, whatever the id
/// holds.
pub proof fn law_signed_session_is_accepted(id: Seq<char>, key: Seq<u8>)
    ensures
        session_actor(signed(id, key), key) == Some(id),
{
    reveal_strlit(".");
    let sig = signature(id, key);
    let raw = signed(id, key);
    lemma_hex_has_no_dot(hmac_sha256(key, encode_utf8(id)));
    assert(raw[id.len() as int] == '.');
    assert forall|j: int| id.len() < j < raw.len() implies raw[j] != '.' by {
        assert(raw[j] == sig[j - id.len() - 1]);
    }
    lemma_last_of(raw, '.', raw.len() as int, id.len() as int);
    assert(raw.subrange(0, id.len() as int) =~= id);
    assert(raw.subrange(id.len() as int + 1, raw.len() as int) =~= sig);
}

/// Nothing else is accepted: a text that is verified as an actor is what signing that actor gives.
pub proof fn law_accepted_session_is_signed(raw: Seq<char>, key: Seq<u8>)
    ensures
        session_actor(raw, key) matches Some(id) ==> raw == signed(id, key),
{
    reveal_strlit(".");
    lemma_last_of_is_last(raw, '.', raw.len() as int);
    if let Some(k) = last_of(raw, '.', raw.len() as int) {
        let id = raw.subrange(0, k);
        if raw.subrange(k + 1, raw.len() as int) == signature(id, key) {
            assert(raw =~= id + "."@ + raw.subrange(k + 1, raw.len() as int));
        }
    }
}

} // verus!
