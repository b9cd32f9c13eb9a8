//! The outside cryptographic primitives this library builds on, each behind a
//! small trusted wrapper whose contract states what the crate's source shows.

use vstd::prelude::*;
use vstd::utf8::*;

use argon2::{Algorithm, Argon2, Params, Version};
use chacha20poly1305::aead::{Aead, KeyInit, Payload};
use chacha20poly1305::{Key, XChaCha20Poly1305, XNonce};

verus! {

/// Length in bytes of an XChaCha20-Poly1305 nonce.
pub const AEAD_NONCE_LEN: usize = 24;

/// Length in bytes of the Poly1305 tag appended to every ciphertext.
pub const AEAD_TAG_LEN: usize = 16;

/// The 32-byte output of Argon2id (version 0x13, no secret, no associated
/// data) over a password, a salt and the memory, time and lane costs.
pub uninterp spec fn argon2id_v13(password: Seq<u8>, salt: Seq<u8>, m_cost: u32, t_cost: u32, p_cost: u32) -> Seq<u8>;

/// The ciphertext (encrypted message followed by the tag) that
/// XChaCha20-Poly1305 produces for a key, a nonce, associated data and a message.
pub uninterp spec fn xchacha20poly1305_seal(key: Seq<u8>, nonce: Seq<u8>, aad: Seq<u8>, msg: Seq<u8>) -> Seq<u8>;

/// What XChaCha20-Poly1305 decryption gives for a key, a nonce, associated
/// data and a ciphertext: the message, or nothing when authentication fails.
pub uninterp spec fn xchacha20poly1305_open(key: Seq<u8>, nonce: Seq<u8>, aad: Seq<u8>, ct: Seq<u8>) -> Option<Seq<u8>>;

/// The Unicode lowercase mapping of a string, as `str::to_lowercase` computes it.
pub uninterp spec fn unicode_lowercase(s: Seq<char>) -> Seq<char>;

/// Why `argon2::Params::new(m, t, p, Some(32))` refuses its arguments, as the
/// `Display` text of the error it returns; `None` when it accepts them.
/// The checks are made in this order in the crate's source.
pub open spec fn argon2_params_error(m_cost: u32, t_cost: u32, p_cost: u32) -> Option<Seq<char>> {
    if m_cost < 8 || m_cost < p_cost * 8 {
        Some("memory cost is too small"@)
    } else if t_cost < 1 {
        Some("time cost is too small"@)
    } else if p_cost < 1 {
        Some("not enough threads"@)
    } else if p_cost > 0xFFFFFF {
        Some("too many threads"@)
    } else {
        None
    }
}

/// Why `Argon2::hash_password_into` refuses a password and a salt, as the
/// `Display` text of its error; `None` when it accepts them.
pub open spec fn argon2_input_error(password_len: nat, salt_len: nat) -> Option<Seq<char>> {
    if password_len > 0xFFFF_FFFF {
        Some("password is too long"@)
    } else if salt_len < 8 {
        Some("salt is too short"@)
    } else if salt_len > 0xFFFF_FFFF {
        Some("salt is too long"@)
    } else {
        None
    }
}

/// How an Argon2id derivation failed: the parameters were refused, or the
/// password or salt were. Each carries the outside error's text.
pub(crate) enum Argon2Failure {
    Params(String),
    Hash(String),
}

/// Argon2id (v0x13) of `password` and `salt` into 32 bytes.
///
/// Calls `argon2::Params::new` with the three costs and an output length of 32,
/// `Argon2::new` with `Algorithm::Argon2id` and `Version::V0x13`, and then
/// `Argon2::hash_password_into`. The contract claims, as the crate's source
/// shows, which arguments each step refuses and with which error text, and that
/// on success the output is the named Argon2id value of the inputs.
/// `p_cost` is bounded because `Params::new` computes `p_cost * 8` in `u32`
/// once `m_cost` is at least 8, which overflows beyond that bound.
/// The memory that the hash allocates (`m_cost` KiB) is not stated: an
/// allocation failure aborts the process.
#[verifier::external_body]
pub(crate) fn argon2id_hash(password: &[u8], salt: &[u8], m_cost: u32, t_cost: u32, p_cost: u32) -> (r: Result<[u8; 32], Argon2Failure>)
    requires
        m_cost < 8 || p_cost <= u32::MAX / 8,
    ensures
        match r {
            Ok(out) => argon2_params_error(m_cost, t_cost, p_cost) is None
                && argon2_input_error(password@.len(), salt@.len()) is None
                && out@ == argon2id_v13(password@, salt@, m_cost, t_cost, p_cost),
            Err(Argon2Failure::Params(e)) => argon2_params_error(m_cost, t_cost, p_cost) == Some(e@),
            Err(Argon2Failure::Hash(e)) => argon2_params_error(m_cost, t_cost, p_cost) is None
                && argon2_input_error(password@.len(), salt@.len()) == Some(e@),
        },
{
    let params = Params::new(m_cost, t_cost, p_cost, Some(32)).map_err(|e| Argon2Failure::Params(e.to_string()))?;
    let mut out = [0u8; 32];
    Argon2::new(Algorithm::Argon2id, Version::V0x13, params)
        .hash_password_into(password, salt, &mut out)
        .map_err(|e| Argon2Failure::Hash(e.to_string()))?;
    Ok(out)
}

/// XChaCha20-Poly1305 encryption of `msg` under `key` and `nonce`, with `aad`
/// authenticated alongside.
///
/// Calls `Aead::encrypt` on `XChaCha20Poly1305` (built from the key with
/// `KeyInit::new`). The crate refuses a message of `u32::MAX` or more 64-byte
/// blocks and otherwise returns the encrypted message followed by a 16-byte
/// tag. The contract also states AEAD correctness, which the crate documents:
/// decrypting that ciphertext with the same key, nonce and data gives the message back.
#[verifier::external_body]
pub(crate) fn xchacha_seal(key: &[u8; 32], nonce: &[u8], aad: &[u8], msg: &[u8]) -> (r: Option<Vec<u8>>)
    requires
        nonce@.len() == AEAD_NONCE_LEN,
    ensures
        r is Some <==> msg@.len() / 64 < u32::MAX,
        r matches Some(c) ==> {
            &&& c@ == xchacha20poly1305_seal(key@, nonce@, aad@, msg@)
            &&& c@.len() == msg@.len() + AEAD_TAG_LEN
            &&& xchacha20poly1305_open(key@, nonce@, aad@, c@) == Some(msg@)
        },
{
    XChaCha20Poly1305::new(Key::from_slice(key)).encrypt(XNonce::from_slice(nonce), Payload { msg, aad }).ok()
}

/// XChaCha20-Poly1305 decryption of `ct` under `key`, `nonce` and `aad`.
///
/// Calls `Aead::decrypt` on `XChaCha20Poly1305`. The contract claims that the
/// result is the named decryption, that a ciphertext shorter than the tag is
/// refused, and that a message comes out 16 bytes shorter than its ciphertext.
#[verifier::external_body]
pub(crate) fn xchacha_open(key: &[u8; 32], nonce: &[u8], aad: &[u8], ct: &[u8]) -> (r: Option<Vec<u8>>)
    requires
        nonce@.len() == AEAD_NONCE_LEN,
    ensures
        match r {
            Some(p) => xchacha20poly1305_open(key@, nonce@, aad@, ct@) == Some(p@) && p@.len() + AEAD_TAG_LEN == ct@.len(),
            None => xchacha20poly1305_open(key@, nonce@, aad@, ct@) is None,
        },
        ct@.len() < AEAD_TAG_LEN ==> r is None,
{
    XChaCha20Poly1305::new(Key::from_slice(key)).decrypt(XNonce::from_slice(nonce), Payload { msg: ct, aad }).ok()
}

/// Fills `dest` with bytes from the operating system's random source.
///
/// Calls `getrandom::fill`. The contract claims that the length of `dest` is
/// unchanged and, as the crate's source shows (`fill_uninit` skips the
/// operating system for an empty buffer), that filling an empty buffer
/// succeeds. The bytes, whether the call fails on a non-empty buffer, and the
/// text of its error (from the operating system) depend on the machine and are
/// not stated.
#[verifier::external_body]
pub(crate) fn fill_random(dest: &mut Vec<u8>) -> (r: Result<(), String>)
    ensures
        final(dest)@.len() == old(dest)@.len(),
        old(dest)@.len() == 0 ==> r is Ok,
{
    getrandom::fill(dest.as_mut_slice()).map_err(|e| e.to_string())
}

/// Decodes `bytes` as UTF-8.
///
/// Calls `String::from_utf8`, which std documents to succeed exactly on valid
/// UTF-8 and then to hold the decoded characters.
#[verifier::external_body]
pub(crate) fn string_from_utf8(bytes: Vec<u8>) -> (r: Option<String>)
    ensures
        r is Some <==> valid_utf8(bytes@),
        r matches Some(s) ==> s@ == decode_utf8(bytes@),
{
    String::from_utf8(bytes).ok()
}

/// The lowercase form of `s`.
///
/// Calls `str::to_lowercase`; its result is a function of `s` alone (std's
/// Unicode tables), which the contract names.
#[verifier::external_body]
pub(crate) fn to_lowercase(s: &str) -> (r: String)
    ensures
        r@ == unicode_lowercase(s@),
{
    s.to_lowercase()
}

} // verus!

verus! {

/// `n` bytes from the operating system's random source.
pub fn random_bytes(n: usize) -> (r: Result<Vec<u8>, String>)
    ensures
        r matches Ok(v) ==> v@.len() == n,
        n == 0 ==> r is Ok,
{
    let mut bytes: Vec<u8> = vec![0u8; n];
    fill_random(&mut bytes)?;
    Ok(bytes)
}

/// A fresh record identifier: sixteen random bytes in lowercase hexadecimal.
pub fn random_id() -> (r: Result<String, String>)
    ensures
        r matches Ok(id) ==> exists|b: Seq<u8>| b.len() == 16 && id@ == crate::text::hex_lower(b),
{
    let bytes = random_bytes(16)?;
    let id = crate::text::to_hex_lower(bytes.as_slice());
    Ok(id)
}

/// The first 32 bytes of `v` as an array.
pub fn to_array32(v: &[u8]) -> (r: [u8; 32])
    requires
        v@.len() == 32,
    ensures
        r@ == v@,
{
    let mut a = [0u8; 32];
    let mut i: usize = 0;
    while i < 32
        invariant
            v@.len() == 32,
            0 <= i <= 32,
            a@.len() == 32,
            forall|k: int| 0 <= k < i ==> a@[k] == v@[k],
        decreases 32 - i,
    {
        a[i] = v[i];
        i = i + 1;
    }
    assert(a@ =~= v@);
    a
}

} // verus!
