use private_vault::field::{decrypt_field, encrypt_field};
use private_vault::records::{
    contact_values, credential_values, decrypt_rows, encrypt_credential, introduction_is_empty,
    introduction_values, missing_reference_message, person_gender, person_values, plain_values,
    plan_person_references, relationship_values, search_pattern, seal_values, text,
    validate_credential, validate_person, ContactInput, CredentialInput, IntroductionInput,
    PersonInput, RelationshipInput, StoredRow, Table,
};

const DEK: [u8; 32] = [5u8; 32];

fn credential(title: &str, password: &str) -> CredentialInput {
    CredentialInput {
        title: title.to_string(),
        url: Some("https://example.com".to_string()),
        username: Some(String::new()),
        password: password.to_string(),
        totp_secret: None,
        note: Some("n".to_string()),
    }
}

fn empty_introduction() -> IntroductionInput {
    IntroductionInput { introduced_by_id: None, met_with_id: None, context: None, location: None, met_on: None, note: None }
}

fn person(name: &str) -> PersonInput {
    PersonInput {
        name: name.to_string(),
        gender: None,
        birthday: Some(String::new()),
        note: Some("friend".to_string()),
        contacts: vec![],
        introduction: empty_introduction(),
        relationships: vec![],
    }
}

fn contact(kind: &str, value: &str) -> ContactInput {
    ContactInput { kind: kind.to_string(), value: value.to_string(), label: None, is_primary: true }
}

fn relationship(id: &str, kind: &str) -> RelationshipInput {
    RelationshipInput { related_person_id: id.to_string(), relationship_type: kind.to_string(), direction: None, note: None }
}

#[test]
fn credential_needs_title_and_password() {
    assert_eq!(validate_credential(&credential("mail", "pw")), Ok(()));
    assert_eq!(validate_credential(&credential("  ", "pw")), Err("标题和密码不能为空".to_string()));
    assert_eq!(validate_credential(&credential("mail", "")), Err("标题和密码不能为空".to_string()));
    assert_eq!(validate_credential(&credential("mail", " ")), Ok(()));
}

#[test]
fn person_needs_name_and_complete_contacts() {
    assert_eq!(validate_person(&person("Ann")), Ok(()));
    assert_eq!(validate_person(&person(" \t")), Err("联系人姓名不能为空".to_string()));
    let mut p = person("Ann");
    p.contacts = vec![contact("phone", "123"), contact("email", " ")];
    assert_eq!(validate_person(&p), Err("联系方式的类型和值不能为空".to_string()));
    let mut blank_both = person(" ");
    blank_both.contacts = vec![contact(" ", " ")];
    assert_eq!(validate_person(&blank_both), Err("联系人姓名不能为空".to_string()));
}

#[test]
fn introduction_emptiness() {
    let mut i = empty_introduction();
    assert!(introduction_is_empty(&i));
    i.context = Some("  ".to_string());
    i.met_with_id = Some(String::new());
    assert!(introduction_is_empty(&i));
    i.introduced_by_id = Some(" ".to_string());
    assert!(!introduction_is_empty(&i));
    let mut j = empty_introduction();
    j.note = Some("met at work".to_string());
    assert!(!introduction_is_empty(&j));
}

#[test]
fn gender_defaults_when_missing() {
    assert_eq!(person_gender(&person("a")), "未设置");
    let mut p = person("a");
    p.gender = Some(String::new());
    assert_eq!(person_gender(&p), "未设置");
    p.gender = Some("女".to_string());
    assert_eq!(person_gender(&p), "女");
}

#[test]
fn stored_bytes_as_text() {
    assert_eq!(text(None), None);
    assert_eq!(text(Some("你好".as_bytes().to_vec())), Some("你好".to_string()));
    assert_eq!(text(Some(vec![0xff, 0xfe])), Some(String::new()));
}

#[test]
fn values_per_column() {
    assert_eq!(
        credential_values(&credential("mail", "pw")),
        vec![Some("mail".to_string()), Some("https://example.com".to_string()), None, Some("pw".to_string()), None, Some("n".to_string())]
    );
    assert_eq!(person_values(&person("Ann")), vec![Some("Ann".to_string()), Some("未设置".to_string()), None, Some("friend".to_string())]);
    assert_eq!(
        contact_values(&contact("phone", "1")),
        vec![Some("phone".to_string()), Some("1".to_string()), None, Some("1".to_string())]
    );
    let mut i = empty_introduction();
    i.context = Some(" ".to_string());
    assert_eq!(introduction_values(&i, true), vec![None, None, None, None]);
    assert_eq!(introduction_values(&i, false), vec![Some(" ".to_string()), None, None, None]);
    let mut r = relationship("p2", "sibling");
    r.note = Some(" ".to_string());
    assert_eq!(relationship_values(&r, true), vec![Some("sibling".to_string()), None, None]);
    assert_eq!(relationship_values(&r, false), vec![Some("sibling".to_string()), None, Some(" ".to_string())]);
    assert_eq!(plain_values(&vec![Some("ab".to_string()), None]), vec![Some(b"ab".to_vec()), None]);
}

#[test]
fn table_columns() {
    assert_eq!(Table::Credentials.name(), "credentials");
    assert_eq!(Table::ContactMethods.columns(), vec!["enc_type", "enc_value", "enc_label", "enc_is_primary"]);
    assert_eq!(Table::Relationships.columns().len(), 3);
}

#[test]
fn credential_encrypts_and_decrypts_per_column() {
    let input = credential("mail", "pw");
    let sealed = encrypt_credential(&input, &DEK, "v", "c1").unwrap();
    assert_eq!(sealed.len(), 6);
    assert!(sealed[2].is_none() && sealed[4].is_none());
    let title = decrypt_field(&DEK, "v", "credentials", "c1", "enc_title", sealed[0].as_ref().unwrap()).unwrap();
    assert_eq!(title, b"mail".to_vec());
    let rows = vec![StoredRow { id: "c1".to_string(), cells: sealed }];
    let opened = decrypt_rows(&DEK, "v", Table::Credentials, &rows).unwrap();
    assert_eq!(opened.len(), 1);
    assert_eq!(opened[0].id, "c1");
    assert_eq!(opened[0].cells, plain_values(&credential_values(&input)));
}

#[test]
fn decrypting_rows_stops_at_first_bad_cell() {
    let good = seal_values(&DEK, "v", Table::Relationships, "r1", &vec![Some("friend".to_string()), None, None]).unwrap();
    let wrong_record = encrypt_field(&DEK, "v", "relationships", "other", "enc_type", "x").unwrap();
    let rows = vec![
        StoredRow { id: "r1".to_string(), cells: good },
        StoredRow { id: "r2".to_string(), cells: vec![Some(vec![1u8; 3]), Some(wrong_record), None] },
    ];
    assert_eq!(
        decrypt_rows(&DEK, "v", Table::Relationships, &rows).err(),
        Some("字段密文版本无效；旧版或损坏数据不可安全解锁".to_string())
    );
}

#[test]
fn reference_plan_checks_links_then_refuses() {
    let mut p = person("Ann");
    p.introduction.introduced_by_id = Some("p2".to_string());
    p.introduction.met_with_id = Some("p1".to_string());
    let plan = plan_person_references("p1", &p);
    assert_eq!(plan.checks.len(), 1);
    assert_eq!(plan.checks[0].field, "推荐人");
    assert_eq!(plan.checks[0].person_id, "p2");
    assert_eq!(plan.outcome, Err("认识对象 不能是联系人本人".to_string()));
}

#[test]
fn reference_plan_for_relationships() {
    let mut p = person("Ann");
    p.relationships = vec![relationship("p3", "friend"), relationship("", "x"), relationship("p4", "y")];
    let plan = plan_person_references("p1", &p);
    assert_eq!(plan.checks.len(), 1);
    assert_eq!(plan.checks[0].field, "关联人");
    assert_eq!(plan.checks[0].person_id, "p3");
    assert_eq!(plan.outcome, Err("关联人和关系类型不能为空".to_string()));
    p.relationships = vec![relationship("p1", "self")];
    assert_eq!(plan_person_references("p1", &p).outcome, Err("关联人不能是联系人本人".to_string()));
    p.relationships = vec![relationship("p5", "colleague")];
    let ok = plan_person_references("p1", &p);
    assert_eq!(ok.outcome, Ok(()));
    assert_eq!(ok.checks.len(), 1);
    assert_eq!(missing_reference_message("关联人"), "关联人 必须是当前 vault 中存在的联系人");
}

#[test]
fn search_pattern_wraps_trimmed_query() {
    assert_eq!(search_pattern("  bank "), "%bank%");
    assert_eq!(search_pattern(""), "%%");
}

#[test]
fn sealing_no_texts_gives_empty_cells() {
    assert_eq!(seal_values(&DEK, "v", Table::Introductions, "i1", &vec![None, None, None, None]), Ok(vec![None, None, None, None]));
}
