use private_vault::session::{
    add_account, check_registration_input,
    assign_missing_ids, check_quick_login, check_registration, check_remembered_session,
    check_reveal_seconds, confirm_dek, derive_account_hash, find_account_by_id,
    find_account_by_username, find_login_account, find_remembered, is_unlocked_vault,
    normalize_username, remember_account, required_session, verify_login, AccountRecord,
    RememberedAccount, RevealSettings,
};

fn remembered(id: &str, name: &str, at: u64, until: Option<u64>, valid: Option<bool>) -> RememberedAccount {
    RememberedAccount { account_id: id.to_string(), username: name.to_string(), last_signed_in_at: at, server_valid_until: until, server_session_valid: valid }
}

fn ids(list: &[RememberedAccount]) -> Vec<String> {
    list.iter().map(|a| a.account_id.clone()).collect()
}

fn account(id: &str, name: &str) -> AccountRecord {
    AccountRecord { account_id: id.to_string(), username: name.to_string(), salt: vec![1u8; 16], password_hash: vec![0u8; 32] }
}

#[test]
fn remembering_moves_account_to_front_once() {
    let list = vec![remembered("a", "alice", 1, None, None), remembered("b", "bob", 2, Some(99), Some(true)), remembered("c", "carol", 3, None, None)];
    let out = remember_account(&list, "b", "bobby", 50);
    assert_eq!(ids(&out), vec!["b", "a", "c"]);
    assert_eq!(out[0].username, "bobby");
    assert_eq!(out[0].last_signed_in_at, 50);
    assert_eq!(out[0].server_valid_until, Some(99));
    assert_eq!(out[0].server_session_valid, Some(true));
    let fresh = remember_account(&list, "d", "dave", 60);
    assert_eq!(ids(&fresh), vec!["d", "a", "b", "c"]);
    assert_eq!(fresh[0].server_valid_until, None);
}

#[test]
fn remembering_twice_is_remembering_once() {
    let list = vec![remembered("a", "alice", 1, None, Some(false)), remembered("b", "bob", 2, None, None)];
    let once = remember_account(&list, "a", "alice", 7);
    let twice = remember_account(&once, "a", "alice", 7);
    assert_eq!(ids(&once), ids(&twice));
    assert_eq!(twice[0].server_session_valid, Some(false));
    assert_eq!(twice[0].last_signed_in_at, 7);
}

#[test]
fn remembered_session_validity() {
    let list = vec![remembered("a", "x", 1, Some(100), None), remembered("b", "y", 1, None, Some(false)), remembered("a", "z", 1, None, Some(false))];
    assert_eq!(check_remembered_session(&list, "a", 99), Ok(()));
    assert_eq!(check_remembered_session(&list, "a", 100), Err("后端会话已过期，请重新验证账户".to_string()));
    assert_eq!(check_remembered_session(&list, "b", 0), Err("后端会话已失效，请重新验证账户".to_string()));
    assert_eq!(check_remembered_session(&list, "zzz", 0), Ok(()));
    assert_eq!(find_remembered(&list, "a"), Some(0));
}

#[test]
fn registration_rules() {
    let accounts = vec![account("1", "alice")];
    assert_eq!(normalize_username("  Alice "), "alice");
    assert_eq!(check_registration(&accounts, "bob", "12345678"), Ok(()));
    assert_eq!(check_registration(&accounts, "bob", "1234567"), Err("账户名不能为空，密码至少需要 8 个字符".to_string()));
    assert_eq!(check_registration(&accounts, "", "12345678"), Err("账户名不能为空，密码至少需要 8 个字符".to_string()));
    assert_eq!(check_registration(&accounts, "alice", "12345678"), Err("账户已存在，请直接登录".to_string()));
    assert_eq!(check_registration(&accounts, "bob", "密码密码密"), Ok(()));
}

#[test]
fn account_lookup() {
    let accounts = vec![account("1", "alice"), account("2", "bob"), account("3", "bob")];
    assert_eq!(find_account_by_username(&accounts, "bob"), Some(1));
    assert_eq!(find_account_by_id(&accounts, "3"), Some(2));
    assert_eq!(find_account_by_id(&accounts, "9"), None);
    assert_eq!(find_login_account(&accounts, "eve"), Err("账户不存在：请先注册或检查账户名".to_string()));
}

#[test]
fn quick_login_needs_account_and_local_session() {
    let accounts = vec![account("1", "alice"), account("2", "bob")];
    let local = vec![remembered("2", "bob", 1, None, None)];
    assert_eq!(check_quick_login(&accounts, &local, "2"), Ok(1));
    assert_eq!(check_quick_login(&accounts, &local, "1"), Err("该账户没有本地会话记录，请使用密码登录".to_string()));
    assert_eq!(check_quick_login(&accounts, &local, "7"), Err("快捷登录账户已不存在，请使用密码登录".to_string()));
}

#[test]
fn login_checks_password_hash_and_id() {
    let salt = vec![3u8; 16];
    let hash = derive_account_hash("password1", &salt).unwrap();
    assert_ne!(hash.to_vec(), b"password1".to_vec());
    let mut record = AccountRecord { account_id: "id1".to_string(), username: "alice".to_string(), salt, password_hash: hash.to_vec() };
    assert_eq!(verify_login(&record, "password1"), Ok(()));
    assert_eq!(verify_login(&record, "password2"), Err("密码错误：请重新输入".to_string()));
    record.account_id = String::new();
    assert_eq!(verify_login(&record, "password1"), Err("账户记录缺少 account_id；请重新注册".to_string()));
    assert_eq!(derive_account_hash("pw", &[1, 2]), Err("账户密码哈希失败: salt is too short".to_string()));
}

#[test]
fn missing_ids_are_filled() {
    let mut accounts = vec![account("keep", "a"), account("", "b")];
    assert_eq!(assign_missing_ids(&mut accounts), Ok(true));
    assert_eq!(accounts[0].account_id, "keep");
    assert_eq!(accounts[1].account_id.len(), 32);
    assert!(accounts[1].account_id.chars().all(|c| c.is_ascii_hexdigit() && !c.is_ascii_uppercase()));
    assert_eq!(accounts[1].username, "b");
    assert_eq!(assign_missing_ids(&mut accounts), Ok(false));
}

#[test]
fn session_requires_unlocked_vault() {
    let dek = [1u8; 32];
    let vault = Some("v".to_string());
    assert_eq!(required_session(&vault, Some(&dek)), Ok(("v", &dek)));
    assert_eq!(required_session(&None, Some(&dek)), Err("请先解锁 vault".to_string()));
    assert_eq!(required_session(&vault, None), Err("请先解锁 vault".to_string()));
    assert!(is_unlocked_vault(&vault, "v"));
    assert!(!is_unlocked_vault(&vault, "w"));
    assert!(!is_unlocked_vault(&None, "v"));
}

#[test]
fn master_password_confirmation() {
    assert_eq!(confirm_dek(&[1u8; 32], &[1u8; 32]), Ok(()));
    assert_eq!(confirm_dek(&[1u8; 32], &[2u8; 32]), Err("主密码验证失败".to_string()));
}

#[test]
fn reveal_seconds_read_back_and_default() {
    let mut settings = RevealSettings::new();
    assert_eq!(settings.reveal_seconds_for("a"), 10);
    assert_eq!(settings.set_reveal_seconds("a", 30), Ok(30));
    assert_eq!(settings.reveal_seconds_for("a"), 30);
    assert_eq!(settings.reveal_seconds_for("b"), 10);
    assert_eq!(settings.set_reveal_seconds("a", 5), Ok(5));
    assert_eq!(settings.reveal_seconds_for("a"), 5);
    assert_eq!(settings.entries().len(), 1);
    assert_eq!(settings.set_reveal_seconds("a", 61), Err("密码显示时间必须在 1 到 60 秒之间".to_string()));
    assert_eq!(settings.set_reveal_seconds("a", 0), Err("密码显示时间必须在 1 到 60 秒之间".to_string()));
    assert_eq!(settings.reveal_seconds_for("a"), 5);
    assert_eq!(check_reveal_seconds(60), Ok(60));
}

#[test]
fn reveal_settings_from_stored_entries() {
    let s = RevealSettings::from_entries(vec![("a".to_string(), 3), ("b".to_string(), 4), ("a".to_string(), 9)]);
    assert_eq!(s.reveal_seconds_for("a"), 9);
    assert_eq!(s.reveal_seconds_for("b"), 4);
}

#[test]
fn registration_input_is_checked_first() {
    assert_eq!(check_registration_input("bob", "12345678"), Ok(()));
    assert_eq!(check_registration_input("", "12345678"), Err("账户名不能为空，密码至少需要 8 个字符".to_string()));
    assert_eq!(check_registration_input("bob", "short"), Err("账户名不能为空，密码至少需要 8 个字符".to_string()));
}

#[test]
fn registered_account_signs_in() {
    let mut accounts = vec![account("1", "alice")];
    assert_eq!(add_account(&mut accounts, "alice".to_string(), "password1", "x".to_string(), vec![4u8; 16]), Err("账户已存在，请直接登录".to_string()));
    assert_eq!(accounts.len(), 1);
    assert_eq!(add_account(&mut accounts, "bob".to_string(), "password1", "id2".to_string(), vec![4u8; 16]), Ok(()));
    assert_eq!(accounts.len(), 2);
    assert_eq!(accounts[1].username, "bob");
    assert_eq!(accounts[1].account_id, "id2");
    assert_eq!(accounts[1].password_hash.len(), 32);
    let i = find_login_account(&accounts, &normalize_username(" BOB ")).unwrap();
    assert_eq!(i, 1);
    assert_eq!(verify_login(&accounts[i], "password1"), Ok(()));
}

#[test]
fn remembered_ids_stay_distinct() {
    let list = vec![remembered("a", "x", 1, None, None), remembered("b", "y", 1, None, None)];
    let again = remember_account(&list, "a", "x", 2);
    assert_eq!(again.len(), 2);
    let added = remember_account(&list, "c", "z", 2);
    assert_eq!(ids(&added), vec!["c", "a", "b"]);
}
