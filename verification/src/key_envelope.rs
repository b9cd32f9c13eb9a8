//! The key envelope of a vault: a random data-encryption key (DEK) wrapped with
//! XChaCha20-Poly1305 under a key-encryption key (KEK) that Argon2id derives
//! from the master password.

use vstd::prelude::*;
use vstd::string::*;
use vstd::utf8::*;

use crate::text::{same_text, trim, trim_chars};
use crate::crypto::{
    argon2_input_error, argon2_params_error, argon2id_hash, argon2id_v13, random_bytes, to_array32,
    xchacha20poly1305_open, xchacha20poly1305_seal, xchacha_open, xchacha_seal, Argon2Failure,
    AEAD_TAG_LEN,
};

verus! {

/// Length of the key-encryption key.
pub const KEK_LEN: usize = 32;

/// Length of the data-encryption key.
pub const DEK_LEN: usize = 32;

/// Length of the Argon2id salt.
pub const SALT_LEN: usize = 16;

/// Length of the XChaCha20-Poly1305 nonce.
pub const NONCE_LEN: usize = 24;

/// Memory cost, in KiB, of the key derivation of new envelopes.
pub const KDF_MEM_COST_KIB: u32 = 65_536;

/// Time cost (iterations) of the key derivation of new envelopes.
pub const KDF_TIME_COST: u32 = 3;

/// Lanes of the key derivation of new envelopes.
pub const KDF_PARALLELISM: u32 = 1;

/// How the KEK is derived from the master password.
pub struct KdfConfig {
    algorithm: String,
    salt: Vec<u8>,
    mem_cost_kib: u32,
    time_cost: u32,
    parallelism: u32,
}

/// The wrapped DEK: its nonce and its ciphertext.
pub struct KeyWrap {
    algorithm: String,
    nonce: Vec<u8>,
    ciphertext: Vec<u8>,
}

/// Everything needed to recover a vault's DEK from its master password.
pub struct KeyEnvelope {
    format_version: u16,
    vault_id: String,
    kdf: KdfConfig,
    key_wrap: KeyWrap,
}

/// The contents of a [`KdfConfig`].
pub struct KdfConfigView {
    pub algorithm: Seq<char>,
    pub salt: Seq<u8>,
    pub mem_cost_kib: u32,
    pub time_cost: u32,
    pub parallelism: u32,
}

/// The contents of a [`KeyWrap`].
pub struct KeyWrapView {
    pub algorithm: Seq<char>,
    pub nonce: Seq<u8>,
    pub ciphertext: Seq<u8>,
}

/// The contents of a [`KeyEnvelope`].
pub struct KeyEnvelopeView {
    pub format_version: u16,
    pub vault_id: Seq<char>,
    pub kdf: KdfConfigView,
    pub key_wrap: KeyWrapView,
}

impl View for KdfConfig {
    type V = KdfConfigView;

    closed spec fn view(&self) -> KdfConfigView {
        KdfConfigView {
            algorithm: self.algorithm@,
            salt: self.salt@,
            mem_cost_kib: self.mem_cost_kib,
            time_cost: self.time_cost,
            parallelism: self.parallelism,
        }
    }
}

impl View for KeyWrap {
    type V = KeyWrapView;

    closed spec fn view(&self) -> KeyWrapView {
        KeyWrapView { algorithm: self.algorithm@, nonce: self.nonce@, ciphertext: self.ciphertext@ }
    }
}

impl View for KeyEnvelope {
    type V = KeyEnvelopeView;

    closed spec fn view(&self) -> KeyEnvelopeView {
        KeyEnvelopeView {
            format_version: self.format_version,
            vault_id: self.vault_id@,
            kdf: self.kdf@,
            key_wrap: self.key_wrap@,
        }
    }
}

/// The key derivation that new envelopes use, with the given salt.
pub open spec fn standard_kdf(salt: Seq<u8>) -> KdfConfigView {
    KdfConfigView {
        algorithm: "argon2id"@,
        salt,
        mem_cost_kib: KDF_MEM_COST_KIB,
        time_cost: KDF_TIME_COST,
        parallelism: KDF_PARALLELISM,
    }
}

/// Whether deriving a KEK with `kdf` would overflow inside `argon2::Params::new`.
pub open spec fn kdf_overflows(kdf: KdfConfigView) -> bool {
    kdf.algorithm == "argon2id"@ && kdf.mem_cost_kib >= 8 && kdf.parallelism > u32::MAX / 8
}

/// The KEK that `kdf` derives from the password bytes, or the error text.
pub open spec fn derived_kek(kdf: KdfConfigView, password: Seq<u8>) -> Result<Seq<u8>, Seq<char>> {
    if kdf.algorithm != "argon2id"@ {
        Err("不支持的 KDF 算法"@)
    } else if let Some(e) = argon2_params_error(kdf.mem_cost_kib, kdf.time_cost, kdf.parallelism) {
        Err(e)
    } else if let Some(e) = argon2_input_error(password.len(), kdf.salt.len()) {
        Err(e)
    } else {
        Ok(argon2id_v13(password, kdf.salt, kdf.mem_cost_kib, kdf.time_cost, kdf.parallelism))
    }
}

/// The associated data that binds a wrapped DEK to its vault.
pub open spec fn envelope_aad(vault_id: Seq<char>) -> Seq<u8> {
    encode_utf8("private-vault|v1|"@ + vault_id + "|key-envelope"@)
}

/// What unwrapping the DEK of envelope `env` with `password` gives: the DEK,
/// or the error text.
pub open spec fn unwrapped_dek(env: KeyEnvelopeView, password: Seq<char>) -> Result<Seq<u8>, Seq<char>> {
    match derived_kek(env.kdf, encode_utf8(password)) {
        Err(e) => Err(e),
        Ok(kek) => {
            if env.key_wrap.nonce.len() != NONCE_LEN {
                Err("Nonce 长度错误"@)
            } else {
                match xchacha20poly1305_open(kek, env.key_wrap.nonce, envelope_aad(env.vault_id), env.key_wrap.ciphertext) {
                    None => Err("主密码错误或保险库信封已被篡改"@),
                    Some(dek) => if dek.len() != DEK_LEN {
                        Err("解开的 DEK 长度错误"@)
                    } else {
                        Ok(dek)
                    },
                }
            }
        },
    }
}

/// Whether `w` wraps `dek` under `kek` for vault `vault_id`.
pub open spec fn wraps(w: KeyWrapView, kek: Seq<u8>, dek: Seq<u8>, vault_id: Seq<char>) -> bool {
    &&& w.algorithm == "xchacha20poly1305"@
    &&& w.nonce.len() == NONCE_LEN
    &&& w.ciphertext == xchacha20poly1305_seal(kek, w.nonce, envelope_aad(vault_id), dek)
    &&& xchacha20poly1305_open(kek, w.nonce, envelope_aad(vault_id), w.ciphertext) == Some(dek)
}

/// The bytes of the associated data for vault `vault_id`.
fn key_envelope_aad(vault_id: &str) -> (r: Vec<u8>)
    ensures
        r@ == envelope_aad(vault_id@),
{
    let mut s = String::from_str("private-vault|v1|");
    s.append(vault_id);
    s.append("|key-envelope");
    s.as_str().as_bytes_vec()
}

/// Derives the KEK for `master_password` as `kdf` describes.
pub fn derive_kek(master_password: &str, kdf: &KdfConfig) -> (r: Result<[u8; 32], String>)
    requires
        !kdf_overflows(kdf@),
    ensures
        match r {
            Ok(kek) => derived_kek(kdf@, encode_utf8(master_password@)) == Ok::<Seq<u8>, Seq<char>>(kek@),
            Err(e) => derived_kek(kdf@, encode_utf8(master_password@)) == Err::<Seq<u8>, Seq<char>>(e@),
        },
{
    if !(kdf.algorithm == String::from_str("argon2id")) {
        return Err(String::from_str("不支持的 KDF 算法"));
    }
    match argon2id_hash(master_password.as_bytes(), kdf.salt.as_slice(), kdf.mem_cost_kib, kdf.time_cost, kdf.parallelism) {
        Ok(kek) => Ok(kek),
        Err(Argon2Failure::Params(e)) => Err(e),
        Err(Argon2Failure::Hash(e)) => Err(e),
    }
}

impl KdfConfig {
    /// The algorithm's name.
    pub fn algorithm(&self) -> (r: &str)
        ensures
            r@ == self@.algorithm,
    {
        self.algorithm.as_str()
    }

    /// The salt.
    pub fn salt(&self) -> (r: &[u8])
        ensures
            r@ == self@.salt,
    {
        self.salt.as_slice()
    }

    /// The memory cost in KiB.
    pub fn mem_cost_kib(&self) -> (r: u32)
        ensures
            r == self@.mem_cost_kib,
    {
        self.mem_cost_kib
    }

    /// The time cost.
    pub fn time_cost(&self) -> (r: u32)
        ensures
            r == self@.time_cost,
    {
        self.time_cost
    }

    /// The number of lanes.
    pub fn parallelism(&self) -> (r: u32)
        ensures
            r == self@.parallelism,
    {
        self.parallelism
    }

    /// The standard key derivation with a fresh random salt.
    pub fn new() -> (r: Result<Self, String>)
        ensures
            r matches Ok(k) ==> k@ == standard_kdf(k@.salt) && k@.salt.len() == SALT_LEN,
    {
        let salt = random_bytes(SALT_LEN)?;
        Ok(Self::from_salt(salt))
    }

    /// The standard key derivation with the given salt.
    pub fn from_salt(salt: Vec<u8>) -> (r: Self)
        ensures
            r@ == standard_kdf(salt@),
    {
        KdfConfig {
            algorithm: String::from_str("argon2id"),
            salt,
            mem_cost_kib: KDF_MEM_COST_KIB,
            time_cost: KDF_TIME_COST,
            parallelism: KDF_PARALLELISM,
        }
    }

    /// A key derivation with the given contents, as stored in a vault file.
    pub fn from_parts(algorithm: String, salt: Vec<u8>, mem_cost_kib: u32, time_cost: u32, parallelism: u32) -> (r: Self)
        ensures
            r@ == (KdfConfigView { algorithm: algorithm@, salt: salt@, mem_cost_kib, time_cost, parallelism }),
    {
        KdfConfig { algorithm, salt, mem_cost_kib, time_cost, parallelism }
    }
}

impl KeyWrap {
    /// Wraps `dek` under `kek` for vault `vault_id` with a fresh random nonce.
    pub fn new(kek: &[u8; 32], dek: &[u8; 32], vault_id: &str) -> (r: Result<Self, String>)
        ensures
            r matches Ok(w) ==> wraps(w@, kek@, dek@, vault_id@) && w@.ciphertext.len() == DEK_LEN + AEAD_TAG_LEN,
    {
        let nonce = random_bytes(NONCE_LEN)?;
        Ok(Self::seal(kek, dek, vault_id, nonce))
    }

    /// Wraps `dek` under `kek` for vault `vault_id` with the given nonce.
    pub fn seal(kek: &[u8; 32], dek: &[u8; 32], vault_id: &str, nonce: Vec<u8>) -> (r: Self)
        requires
            nonce@.len() == NONCE_LEN,
        ensures
            r@.nonce == nonce@,
            r@.ciphertext.len() == DEK_LEN + AEAD_TAG_LEN,
            wraps(r@, kek@, dek@, vault_id@),
    {
        let aad = key_envelope_aad(vault_id);
        let sealed = xchacha_seal(kek, nonce.as_slice(), aad.as_slice(), dek.as_slice());
        let ciphertext = match sealed {
            Some(c) => c,
            None => {
                proof {
                    assert(false);
                }
                Vec::new()
            },
        };
        KeyWrap { algorithm: String::from_str("xchacha20poly1305"), nonce, ciphertext }
    }

    /// A key wrap with the given contents, as stored in a vault file.
    pub fn from_parts(algorithm: String, nonce: Vec<u8>, ciphertext: Vec<u8>) -> (r: Self)
        ensures
            r@ == (KeyWrapView { algorithm: algorithm@, nonce: nonce@, ciphertext: ciphertext@ }),
    {
        KeyWrap { algorithm, nonce, ciphertext }
    }

    /// The algorithm's name.
    pub fn algorithm(&self) -> (r: &str)
        ensures
            r@ == self@.algorithm,
    {
        self.algorithm.as_str()
    }

    /// The nonce.
    pub fn nonce(&self) -> (r: &[u8])
        ensures
            r@ == self@.nonce,
    {
        self.nonce.as_slice()
    }

    /// The wrapped DEK.
    pub fn ciphertext(&self) -> (r: &[u8])
        ensures
            r@ == self@.ciphertext,
    {
        self.ciphertext.as_slice()
    }
}

impl KeyEnvelope {
    /// A new envelope for vault `vault_id`: a random salt and DEK, the DEK
    /// wrapped under the KEK that `master_password` derives. The envelope
    /// opens with that password and gives back its DEK.
    pub fn new(master_password: &str, vault_id: String) -> (r: Result<Self, String>)
        ensures
            r matches Ok(env) ==> {
                &&& env@.format_version == 1
                &&& env@.vault_id == vault_id@
                &&& env@.kdf == standard_kdf(env@.kdf.salt)
                &&& env@.kdf.salt.len() == SALT_LEN
                &&& exists|kek: Seq<u8>, dek: Seq<u8>| {
                    &&& derived_kek(env@.kdf, encode_utf8(master_password@)) == Ok::<Seq<u8>, Seq<char>>(kek)
                    &&& dek.len() == DEK_LEN
                    &&& wraps(env@.key_wrap, kek, dek, vault_id@)
                    &&& unwrapped_dek(env@, master_password@) == Ok::<Seq<u8>, Seq<char>>(dek)
                }
            },
            encode_utf8(master_password@).len() > 0xFFFF_FFFF ==> r is Err,
    {
        let kdf = KdfConfig::new()?;
        let kek = derive_kek(master_password, &kdf)?;
        let dek_bytes = random_bytes(DEK_LEN)?;
        let dek = to_array32(dek_bytes.as_slice());
        let key_wrap = KeyWrap::new(&kek, &dek, vault_id.as_str())?;
        let envelope = KeyEnvelope { format_version: 1, vault_id, kdf, key_wrap };
        proof {
            lemma_wrapped_unwraps(envelope@, master_password@, kek@, dek@);
        }
        Ok(envelope)
    }

    /// The envelope that [`KeyEnvelope::new`] builds when the random source
    /// gives `salt`, `dek` and `nonce`.
    pub fn from_randomness(master_password: &str, vault_id: String, salt: Vec<u8>, dek: &[u8; 32], nonce: Vec<u8>) -> (r: Result<Self, String>)
        requires
            salt@.len() == SALT_LEN,
            nonce@.len() == NONCE_LEN,
        ensures
            match r {
                Ok(env) => {
                    &&& env@.format_version == 1
                    &&& env@.vault_id == vault_id@
                    &&& env@.kdf == standard_kdf(salt@)
                    &&& env@.key_wrap.nonce == nonce@
                    &&& derived_kek(standard_kdf(salt@), encode_utf8(master_password@)) matches Ok(kek)
                        && wraps(env@.key_wrap, kek, dek@, vault_id@)
                    &&& unwrapped_dek(env@, master_password@) == Ok::<Seq<u8>, Seq<char>>(dek@)
                },
                Err(e) => derived_kek(standard_kdf(salt@), encode_utf8(master_password@)) == Err::<Seq<u8>, Seq<char>>(e@),
            },
            r is Err <==> encode_utf8(master_password@).len() > 0xFFFF_FFFF,
    {
        let kdf = KdfConfig::from_salt(salt);
        let kek = derive_kek(master_password, &kdf)?;
        let key_wrap = KeyWrap::seal(&kek, dek, vault_id.as_str(), nonce);
        let envelope = KeyEnvelope { format_version: 1, vault_id, kdf, key_wrap };
        proof {
            lemma_wrapped_unwraps(envelope@, master_password@, kek@, dek@);
        }
        Ok(envelope)
    }

    /// An envelope with the given contents, as stored in a vault file.
    pub fn from_parts(format_version: u16, vault_id: String, kdf: KdfConfig, key_wrap: KeyWrap) -> (r: Self)
        ensures
            r@ == (KeyEnvelopeView { format_version, vault_id: vault_id@, kdf: kdf@, key_wrap: key_wrap@ }),
    {
        KeyEnvelope { format_version, vault_id, kdf, key_wrap }
    }

    /// The envelope format's version.
    pub fn format_version(&self) -> (r: u16)
        ensures
            r == self@.format_version,
    {
        self.format_version
    }

    /// The vault this envelope belongs to.
    pub fn vault_id(&self) -> (r: &str)
        ensures
            r@ == self@.vault_id,
    {
        self.vault_id.as_str()
    }

    /// The key derivation.
    pub fn kdf(&self) -> (r: &KdfConfig)
        ensures
            r@ == self@.kdf,
    {
        &self.kdf
    }

    /// The wrapped DEK.
    pub fn key_wrap(&self) -> (r: &KeyWrap)
        ensures
            r@ == self@.key_wrap,
    {
        &self.key_wrap
    }

    /// Unwraps the DEK with `master_password`.
    pub fn get_dek(&self, master_password: &str) -> (r: Result<[u8; 32], String>)
        requires
            !kdf_overflows(self@.kdf),
        ensures
            match r {
                Ok(dek) => unwrapped_dek(self@, master_password@) == Ok::<Seq<u8>, Seq<char>>(dek@),
                Err(e) => unwrapped_dek(self@, master_password@) == Err::<Seq<u8>, Seq<char>>(e@),
            },
    {
        let kek = derive_kek(master_password, &self.kdf)?;
        let aad = key_envelope_aad(self.vault_id.as_str());
        if self.key_wrap.nonce.len() != NONCE_LEN {
            return Err(String::from_str("Nonce 长度错误"));
        }
        let opened = xchacha_open(&kek, self.key_wrap.nonce.as_slice(), aad.as_slice(), self.key_wrap.ciphertext.as_slice());
        match opened {
            None => Err(String::from_str("主密码错误或保险库信封已被篡改")),
            Some(dek) => {
                if dek.len() != DEK_LEN {
                    Err(String::from_str("解开的 DEK 长度错误"))
                } else {
                    Ok(to_array32(dek.as_slice()))
                }
            },
        }
    }
}

/// An envelope whose key wrap holds `dek` under the KEK its derivation gives
/// for `password` opens with `password` and gives back `dek`.
pub proof fn lemma_wrapped_unwraps(env: KeyEnvelopeView, password: Seq<char>, kek: Seq<u8>, dek: Seq<u8>)
    requires
        derived_kek(env.kdf, encode_utf8(password)) == Ok::<Seq<u8>, Seq<char>>(kek),
        wraps(env.key_wrap, kek, dek, env.vault_id),
        dek.len() == DEK_LEN,
    ensures
        unwrapped_dek(env, password) == Ok::<Seq<u8>, Seq<char>>(dek),
{
}

/// Whether a vault id may name a vault file: once trimmed it is not empty,
/// holds no path separator, and is not `.` or `..`.
pub open spec fn vault_id_valid(vault_id: Seq<char>) -> bool {
    let t = trim_chars(vault_id);
    &&& t.len() > 0
    &&& !t.contains('/')
    &&& !t.contains('\\')
    &&& t != "."@
    &&& t != ".."@
}

/// Accepts a vault id that may name a vault file.
pub fn validate_vault_id(vault_id: &str) -> (r: Result<(), String>)
    ensures
        match r {
            Ok(()) => vault_id_valid(vault_id@),
            Err(e) => !vault_id_valid(vault_id@) && e@ == "vault_id 无效"@,
        },
{
    let t = trim(vault_id);
    let n = t.unicode_len();
    if n == 0 || same_text(t, ".") || same_text(t, "..") {
        return Err(String::from_str("vault_id 无效"));
    }
    let mut i: usize = 0;
    while i < n
        invariant
            t@ == trim_chars(vault_id@),
            n == t@.len(),
            i <= n,
            forall|k: int| 0 <= k < i ==> t@[k] != '/' && t@[k] != '\\',
        decreases n - i,
    {
        let c = t.get_char(i);
        if c == '/' || c == '\\' {
            proof {
                assert(t@.contains(c));
            }
            return Err(String::from_str("vault_id 无效"));
        }
        i = i + 1;
    }
    Ok(())
}

/// Accepts a master password that is not empty.
pub fn check_master_password(master_password: &str) -> (r: Result<(), String>)
    ensures
        match r {
            Ok(()) => master_password@.len() > 0,
            Err(e) => master_password@.len() == 0 && e@ == "vault 主密码不能为空"@,
        },
{
    if master_password.is_empty() {
        Err(String::from_str("vault 主密码不能为空"))
    } else {
        Ok(())
    }
}

} // verus!
