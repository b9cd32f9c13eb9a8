//! Field-level encryption of vault records: every stored field is sealed with
//! the vault's DEK under associated data naming the vault, table, record and
//! column, and framed as a version byte, the nonce and the ciphertext.

use vstd::prelude::*;
use vstd::string::*;
use vstd::utf8::*;

use crate::crypto::{
    random_bytes, xchacha20poly1305_open, xchacha20poly1305_seal, xchacha_open, xchacha_seal,
    AEAD_NONCE_LEN, AEAD_TAG_LEN,
};

verus! {

/// The version byte that starts every encrypted field.
pub const FIELD_VERSION: u8 = 2;

/// The shortest encrypted field: version byte, nonce and tag.
pub const MIN_SEALED_LEN: usize = 41;

/// The text of the associated data of a field.
pub open spec fn field_aad_chars(vault_id: Seq<char>, table: Seq<char>, record_id: Seq<char>, column: Seq<char>) -> Seq<char> {
    "passmanager|field-v2|"@ + vault_id + "|"@ + table + "|"@ + record_id + "|"@ + column
}

/// The associated data of a field, as bytes.
pub open spec fn field_aad_bytes(vault_id: Seq<char>, table: Seq<char>, record_id: Seq<char>, column: Seq<char>) -> Seq<u8> {
    encode_utf8(field_aad_chars(vault_id, table, record_id, column))
}

/// An encrypted field: the version byte, the nonce, then the ciphertext.
pub open spec fn sealed_field(dek: Seq<u8>, aad: Seq<u8>, nonce: Seq<u8>, plaintext: Seq<u8>) -> Seq<u8> {
    seq![FIELD_VERSION] + nonce + xchacha20poly1305_seal(dek, nonce, aad, plaintext)
}

/// What decrypting the encrypted field `enc` gives: its plaintext, or the error text.
pub open spec fn opened_field(dek: Seq<u8>, aad: Seq<u8>, enc: Seq<u8>) -> Result<Seq<u8>, Seq<char>> {
    if enc.len() < MIN_SEALED_LEN || enc[0] != FIELD_VERSION {
        Err("字段密文版本无效；旧版或损坏数据不可安全解锁"@)
    } else {
        match xchacha20poly1305_open(dek, enc.subrange(1, 25), aad, enc.subrange(25, enc.len() as int)) {
            Some(p) => Ok(p),
            None => Err("字段解密失败或数据已被篡改"@),
        }
    }
}

/// Framing keeps AEAD correctness: when the ciphertext of `plaintext` opens
/// to `plaintext`, the framed field opens to it as well.
pub proof fn lemma_sealed_field_opens(dek: Seq<u8>, aad: Seq<u8>, nonce: Seq<u8>, plaintext: Seq<u8>)
    requires
        nonce.len() == AEAD_NONCE_LEN,
        xchacha20poly1305_seal(dek, nonce, aad, plaintext).len() == plaintext.len() + AEAD_TAG_LEN,
        xchacha20poly1305_open(dek, nonce, aad, xchacha20poly1305_seal(dek, nonce, aad, plaintext)) == Some(plaintext),
    ensures
        sealed_field(dek, aad, nonce, plaintext).len() == MIN_SEALED_LEN + plaintext.len(),
        opened_field(dek, aad, sealed_field(dek, aad, nonce, plaintext)) == Ok::<Seq<u8>, Seq<char>>(plaintext),
{
    let c = xchacha20poly1305_seal(dek, nonce, aad, plaintext);
    let e = sealed_field(dek, aad, nonce, plaintext);
    assert(e.subrange(1, 25) =~= nonce);
    assert(e.subrange(25, e.len() as int) =~= c);
}

/// The associated data of field `column` of record `record_id` in `table` of vault `vault_id`.
pub fn field_aad(vault_id: &str, table: &str, record_id: &str, column: &str) -> (r: Vec<u8>)
    ensures
        r@ == field_aad_bytes(vault_id@, table@, record_id@, column@),
{
    let mut s = String::from_str("passmanager|field-v2|");
    s.append(vault_id);
    s.append("|");
    s.append(table);
    s.append("|");
    s.append(record_id);
    s.append("|");
    s.append(column);
    proof {
        assert(s@ =~= field_aad_chars(vault_id@, table@, record_id@, column@));
    }
    s.as_str().as_bytes_vec()
}

/// Encrypts `plaintext` as field `column` of record `record_id` with the given nonce.
pub fn seal_field(dek: &[u8; 32], vault_id: &str, table: &str, record_id: &str, column: &str, plaintext: &str, nonce: &[u8]) -> (r: Result<Vec<u8>, String>)
    requires
        nonce@.len() == AEAD_NONCE_LEN,
    ensures
        r is Ok <==> encode_utf8(plaintext@).len() / 64 < u32::MAX,
        match r {
            Ok(e) => {
                &&& e@ == sealed_field(dek@, field_aad_bytes(vault_id@, table@, record_id@, column@), nonce@, encode_utf8(plaintext@))
                &&& e@.len() == MIN_SEALED_LEN + encode_utf8(plaintext@).len()
                &&& opened_field(dek@, field_aad_bytes(vault_id@, table@, record_id@, column@), e@) == Ok::<Seq<u8>, Seq<char>>(encode_utf8(plaintext@))
            },
            Err(e) => e@ == "字段加密失败"@,
        },
{
    let aad = field_aad(vault_id, table, record_id, column);
    let msg = plaintext.as_bytes();
    match xchacha_seal(dek, nonce, aad.as_slice(), msg) {
        None => Err(String::from_str("字段加密失败")),
        Some(ciphertext) => {
            let mut encoded: Vec<u8> = Vec::new();
            encoded.push(FIELD_VERSION);
            encoded.extend_from_slice(nonce);
            encoded.extend_from_slice(ciphertext.as_slice());
            proof {
                assert(encoded@ =~= sealed_field(dek@, aad@, nonce@, msg@));
                lemma_sealed_field_opens(dek@, aad@, nonce@, msg@);
            }
            Ok(encoded)
        },
    }
}

/// Encrypts `plaintext` as field `column` of record `record_id` with a fresh random nonce.
pub fn encrypt_field(dek: &[u8; 32], vault_id: &str, table: &str, record_id: &str, column: &str, plaintext: &str) -> (r: Result<Vec<u8>, String>)
    ensures
        encode_utf8(plaintext@).len() / 64 >= u32::MAX ==> r is Err,
        r matches Ok(e) ==> {
            &&& exists|nonce: Seq<u8>| nonce.len() == AEAD_NONCE_LEN
                && e@ == sealed_field(dek@, field_aad_bytes(vault_id@, table@, record_id@, column@), nonce, encode_utf8(plaintext@))
            &&& e@.len() == MIN_SEALED_LEN + encode_utf8(plaintext@).len()
            &&& opened_field(dek@, field_aad_bytes(vault_id@, table@, record_id@, column@), e@) == Ok::<Seq<u8>, Seq<char>>(encode_utf8(plaintext@))
        },
{
    let nonce = random_bytes(AEAD_NONCE_LEN)?;
    seal_field(dek, vault_id, table, record_id, column, plaintext, nonce.as_slice())
}

/// Decrypts the encrypted field `encrypted` stored as `column` of record `record_id`.
pub fn decrypt_field(dek: &[u8; 32], vault_id: &str, table: &str, record_id: &str, column: &str, encrypted: &[u8]) -> (r: Result<Vec<u8>, String>)
    ensures
        match r {
            Ok(p) => opened_field(dek@, field_aad_bytes(vault_id@, table@, record_id@, column@), encrypted@) == Ok::<Seq<u8>, Seq<char>>(p@)
                && p@.len() == encrypted@.len() - MIN_SEALED_LEN,
            Err(e) => opened_field(dek@, field_aad_bytes(vault_id@, table@, record_id@, column@), encrypted@) == Err::<Seq<u8>, Seq<char>>(e@),
        },
{
    if encrypted.len() < MIN_SEALED_LEN || encrypted[0] != FIELD_VERSION {
        return Err(String::from_str("字段密文版本无效；旧版或损坏数据不可安全解锁"));
    }
    let aad = field_aad(vault_id, table, record_id, column);
    let nonce = slice_range(encrypted, 1, 25);
    let body = slice_range(encrypted, 25, encrypted.len());
    match xchacha_open(dek, nonce, aad.as_slice(), body) {
        Some(p) => Ok(p),
        None => Err(String::from_str("字段解密失败或数据已被篡改")),
    }
}

/// The bytes of `s` from `from` up to `to`.
fn slice_range(s: &[u8], from: usize, to: usize) -> (r: &[u8])
    requires
        from <= to <= s@.len(),
    ensures
        r@ == s@.subrange(from as int, to as int),
{
    &s[from..to]
}

} // verus!
