use private_vault::field::{decrypt_field, encrypt_field, field_aad, seal_field, FIELD_VERSION, MIN_SEALED_LEN};

const DEK: [u8; 32] = [7u8; 32];

#[test]
fn field_aad_names_vault_table_record_and_column() {
    assert_eq!(
        field_aad("v1", "credentials", "r9", "enc_title"),
        b"passmanager|field-v2|v1|credentials|r9|enc_title".to_vec()
    );
}

#[test]
fn sealed_field_is_framed_and_opens() {
    let nonce = [3u8; 24];
    let enc = seal_field(&DEK, "v", "people", "p1", "enc_name", "张三", &nonce).unwrap();
    assert_eq!(enc.len(), MIN_SEALED_LEN + "张三".len());
    assert_eq!(enc[0], FIELD_VERSION);
    assert_eq!(&enc[1..25], &nonce);
    assert_ne!(&enc[25..25 + "张三".len()], "张三".as_bytes());
    let plain = decrypt_field(&DEK, "v", "people", "p1", "enc_name", &enc).unwrap();
    assert_eq!(plain, "张三".as_bytes());
}

#[test]
fn encrypt_then_decrypt_gives_back_the_text() {
    let enc = encrypt_field(&DEK, "vault", "credentials", "c1", "enc_password", "hunter2").unwrap();
    assert_eq!(enc.len(), 41 + 7);
    assert_eq!(decrypt_field(&DEK, "vault", "credentials", "c1", "enc_password", &enc).unwrap(), b"hunter2".to_vec());
    let again = encrypt_field(&DEK, "vault", "credentials", "c1", "enc_password", "hunter2").unwrap();
    assert_ne!(enc, again);
}

#[test]
fn field_bound_to_its_column() {
    let enc = encrypt_field(&DEK, "vault", "credentials", "c1", "enc_password", "x").unwrap();
    assert_eq!(
        decrypt_field(&DEK, "vault", "credentials", "c1", "enc_title", &enc),
        Err("字段解密失败或数据已被篡改".to_string())
    );
    assert_eq!(
        decrypt_field(&[8u8; 32], "vault", "credentials", "c1", "enc_password", &enc),
        Err("字段解密失败或数据已被篡改".to_string())
    );
}

#[test]
fn short_or_unversioned_fields_are_refused() {
    let msg = "字段密文版本无效；旧版或损坏数据不可安全解锁".to_string();
    assert_eq!(decrypt_field(&DEK, "v", "t", "r", "c", &[2u8; 40]), Err(msg.clone()));
    let mut enc = encrypt_field(&DEK, "v", "t", "r", "c", "abc").unwrap();
    enc[0] = 1;
    assert_eq!(decrypt_field(&DEK, "v", "t", "r", "c", &enc), Err(msg));
}

#[test]
fn tampered_field_is_refused() {
    let mut enc = encrypt_field(&DEK, "v", "t", "r", "c", "abc").unwrap();
    let last = enc.len() - 1;
    enc[last] ^= 1;
    assert_eq!(decrypt_field(&DEK, "v", "t", "r", "c", &enc), Err("字段解密失败或数据已被篡改".to_string()));
}

#[test]
fn random_bytes_of_requested_length() {
    assert_eq!(private_vault::crypto::random_bytes(0), Ok(Vec::new()));
    assert_eq!(private_vault::crypto::random_bytes(24).unwrap().len(), 24);
}

#[test]
fn decrypted_field_is_41_bytes_shorter() {
    let enc = encrypt_field(&DEK, "v", "t", "r", "c", "hello world").unwrap();
    let plain = decrypt_field(&DEK, "v", "t", "r", "c", &enc).unwrap();
    assert_eq!(plain.len(), enc.len() - MIN_SEALED_LEN);
}
