use private_vault::key_envelope::{check_master_password, validate_vault_id};
use private_vault::key_envelope::{derive_kek, KdfConfig, KeyEnvelope, KeyWrap, DEK_LEN, NONCE_LEN, SALT_LEN};

const SALT: [u8; 16] = [1u8; 16];
const DEK: [u8; 32] = [0x42u8; 32];
const NONCE: [u8; 24] = [9u8; 24];

fn light_kdf() -> KdfConfig {
    KdfConfig::from_parts("argon2id".to_string(), SALT.to_vec(), 8, 1, 1)
}

fn light_envelope(password: &str, vault_id: &str) -> KeyEnvelope {
    let kdf = light_kdf();
    let kek = derive_kek(password, &kdf).unwrap();
    let wrap = KeyWrap::seal(&kek, &DEK, vault_id, NONCE.to_vec());
    KeyEnvelope::from_parts(1, vault_id.to_string(), kdf, wrap)
}

#[test]
fn envelope_opens_with_its_password() {
    let env = light_envelope("correct horse", "vault-a");
    assert_eq!(env.get_dek("correct horse").unwrap(), DEK);
}

#[test]
fn envelope_refuses_wrong_password() {
    let env = light_envelope("correct horse", "vault-a");
    assert_eq!(env.get_dek("wrong"), Err("主密码错误或保险库信封已被篡改".to_string()));
}

#[test]
fn envelope_is_bound_to_its_vault() {
    let env = light_envelope("pw", "vault-a");
    let kdf = light_kdf();
    let wrap = KeyWrap::from_parts(
        env.key_wrap().algorithm().to_string(),
        env.key_wrap().nonce().to_vec(),
        env.key_wrap().ciphertext().to_vec(),
    );
    let moved = KeyEnvelope::from_parts(1, "vault-b".to_string(), kdf, wrap);
    assert_eq!(moved.get_dek("pw"), Err("主密码错误或保险库信封已被篡改".to_string()));
}

#[test]
fn key_wrap_fields() {
    let kek = derive_kek("pw", &light_kdf()).unwrap();
    assert_ne!(kek.to_vec(), b"pw".to_vec());
    let wrap = KeyWrap::seal(&kek, &DEK, "v", NONCE.to_vec());
    assert_eq!(wrap.algorithm(), "xchacha20poly1305");
    assert_eq!(wrap.nonce(), &NONCE);
    assert_eq!(wrap.ciphertext().len(), DEK_LEN + 16);
    assert_ne!(&wrap.ciphertext()[..DEK_LEN], &DEK);
    let random = KeyWrap::new(&kek, &DEK, "v").unwrap();
    assert_eq!(random.nonce().len(), NONCE_LEN);
    assert_ne!(random.nonce(), wrap.nonce());
}

#[test]
fn kdf_parameters_are_checked() {
    let unsupported = KdfConfig::from_parts("scrypt".to_string(), SALT.to_vec(), 8, 1, 1);
    assert_eq!(derive_kek("pw", &unsupported), Err("不支持的 KDF 算法".to_string()));
    let short_salt = KdfConfig::from_parts("argon2id".to_string(), vec![1, 2, 3], 8, 1, 1);
    assert_eq!(derive_kek("pw", &short_salt), Err("salt is too short".to_string()));
    let no_time = KdfConfig::from_parts("argon2id".to_string(), SALT.to_vec(), 8, 0, 1);
    assert_eq!(derive_kek("pw", &no_time), Err("time cost is too small".to_string()));
    let no_memory = KdfConfig::from_parts("argon2id".to_string(), SALT.to_vec(), 7, 1, 1);
    assert_eq!(derive_kek("pw", &no_memory), Err("memory cost is too small".to_string()));
    let no_lanes = KdfConfig::from_parts("argon2id".to_string(), SALT.to_vec(), 8, 1, 0);
    assert_eq!(derive_kek("pw", &no_lanes), Err("not enough threads".to_string()));
    let too_many = KdfConfig::from_parts("argon2id".to_string(), SALT.to_vec(), 0x1000_0000, 1, 0x100_0000);
    assert_eq!(derive_kek("pw", &too_many), Err("too many threads".to_string()));
}

#[test]
fn kek_depends_on_password_and_salt() {
    let a = derive_kek("pw", &light_kdf()).unwrap();
    let b = derive_kek("pw2", &light_kdf()).unwrap();
    let other_salt = KdfConfig::from_parts("argon2id".to_string(), vec![2u8; 16], 8, 1, 1);
    let c = derive_kek("pw", &other_salt).unwrap();
    assert_eq!(a, derive_kek("pw", &light_kdf()).unwrap());
    assert_ne!(a, b);
    assert_ne!(a, c);
}

#[test]
fn unwrapping_checks_nonce_and_key_lengths() {
    let kdf = light_kdf();
    let kek = derive_kek("pw", &kdf).unwrap();
    let bad_nonce = KeyWrap::from_parts("xchacha20poly1305".to_string(), vec![0u8; 12], vec![0u8; 48]);
    let env = KeyEnvelope::from_parts(1, "v".to_string(), light_kdf(), bad_nonce);
    assert_eq!(env.get_dek("pw"), Err("Nonce 长度错误".to_string()));
    let _ = kek;
}

#[test]
fn standard_envelope_from_randomness() {
    let env = KeyEnvelope::from_randomness("master", "my-vault".to_string(), SALT.to_vec(), &DEK, NONCE.to_vec()).unwrap();
    assert_eq!(env.format_version(), 1);
    assert_eq!(env.vault_id(), "my-vault");
    assert_eq!(env.kdf().algorithm(), "argon2id");
    assert_eq!(env.kdf().salt(), &SALT);
    assert_eq!(env.kdf().mem_cost_kib(), 65_536);
    assert_eq!(env.kdf().time_cost(), 3);
    assert_eq!(env.kdf().parallelism(), 1);
    assert_eq!(env.key_wrap().nonce(), &NONCE);
    assert_eq!(env.get_dek("master").unwrap(), DEK);
}

#[test]
fn new_envelope_opens_with_its_password() {
    let env = KeyEnvelope::new("s3cret", "fresh".to_string()).unwrap();
    assert_eq!(env.format_version(), 1);
    assert_eq!(env.vault_id(), "fresh");
    assert_eq!(env.kdf().salt().len(), SALT_LEN);
    assert_eq!(env.key_wrap().nonce().len(), NONCE_LEN);
    assert_eq!(env.key_wrap().ciphertext().len(), DEK_LEN + 16);
    let dek = env.get_dek("s3cret").unwrap();
    assert_eq!(dek.len(), DEK_LEN);
}

#[test]
fn new_kdf_config_is_standard_with_random_salt() {
    let a = KdfConfig::new().unwrap();
    let b = KdfConfig::new().unwrap();
    assert_eq!(a.algorithm(), "argon2id");
    assert_eq!(a.salt().len(), SALT_LEN);
    assert_eq!(a.mem_cost_kib(), 65_536);
    assert_eq!(a.time_cost(), 3);
    assert_eq!(a.parallelism(), 1);
    assert_ne!(a.salt(), b.salt());
}

#[test]
fn vault_ids_and_master_passwords() {
    assert_eq!(validate_vault_id(" work "), Ok(()));
    for bad in ["", "  ", "a/b", "a\\b", ".", " .. "] {
        assert_eq!(validate_vault_id(bad), Err("vault_id 无效".to_string()), "{bad:?}");
    }
    assert_eq!(check_master_password(""), Err("vault 主密码不能为空".to_string()));
    assert_eq!(check_master_password(" "), Ok(()));
}
