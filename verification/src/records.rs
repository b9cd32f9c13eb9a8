//! The vault's records (credentials and people with their contacts,
//! introductions and relationships): validation, the texts each record stores
//! per column, and their encryption and decryption.

use vstd::prelude::*;
use vstd::string::*;
use vstd::utf8::*;

use crate::crypto::string_from_utf8;
use crate::field::{decrypt_field, encrypt_field, field_aad_bytes, opened_field, MIN_SEALED_LEN};
use crate::text::{
    filled, filled_chars, is_blank, is_blank_chars, nonempty, opt_chars, present, present_chars,
    same_text,
};

verus! {

/// A credential as entered.
pub struct CredentialInput {
    pub title: String,
    pub url: Option<String>,
    pub username: Option<String>,
    pub password: String,
    pub totp_secret: Option<String>,
    pub note: Option<String>,
}

/// A contact method of a person as entered.
pub struct ContactInput {
    pub kind: String,
    pub value: String,
    pub label: Option<String>,
    pub is_primary: bool,
}

/// How a person was met, as entered.
pub struct IntroductionInput {
    pub introduced_by_id: Option<String>,
    pub met_with_id: Option<String>,
    pub context: Option<String>,
    pub location: Option<String>,
    pub met_on: Option<String>,
    pub note: Option<String>,
}

/// A relationship of a person to another, as entered.
pub struct RelationshipInput {
    pub related_person_id: String,
    pub relationship_type: String,
    pub direction: Option<String>,
    pub note: Option<String>,
}

/// A person as entered.
pub struct PersonInput {
    pub name: String,
    pub gender: Option<String>,
    pub birthday: Option<String>,
    pub note: Option<String>,
    pub contacts: Vec<ContactInput>,
    pub introduction: IntroductionInput,
    pub relationships: Vec<RelationshipInput>,
}

/// Whether a contact method lacks its kind or its value.
pub open spec fn contact_incomplete(c: ContactInput) -> bool {
    is_blank_chars(c.kind@) || is_blank_chars(c.value@)
}

/// Accepts a credential with a title that is not blank and a password that is not empty.
pub fn validate_credential(input: &CredentialInput) -> (r: Result<(), String>)
    ensures
        match r {
            Ok(()) => !is_blank_chars(input.title@) && input.password@.len() > 0,
            Err(e) => (is_blank_chars(input.title@) || input.password@.len() == 0) && e@ == "标题和密码不能为空"@,
        },
{
    if is_blank(input.title.as_str()) || input.password.as_str().is_empty() {
        Err(String::from_str("标题和密码不能为空"))
    } else {
        Ok(())
    }
}

/// Accepts a person with a name that is not blank and contact methods that
/// all have a kind and a value.
pub fn validate_person(input: &PersonInput) -> (r: Result<(), String>)
    ensures
        match r {
            Ok(()) => person_check(*input) == Ok::<(), Seq<char>>(()),
            Err(e) => person_check(*input) == Err::<(), Seq<char>>(e@),
        },
        r is Ok ==> forall|i: int| 0 <= i < input.contacts@.len() ==> !is_blank_chars((#[trigger] input.contacts@[i]).kind@) && !is_blank_chars(input.contacts@[i].value@),
        match r {
            Ok(()) => !is_blank_chars(input.name@) && forall|i: int| 0 <= i < input.contacts@.len() ==> !contact_incomplete(#[trigger] input.contacts@[i]),
            Err(e) => if is_blank_chars(input.name@) {
                e@ == "联系人姓名不能为空"@
            } else {
                (exists|i: int| 0 <= i < input.contacts@.len() && contact_incomplete(#[trigger] input.contacts@[i])) && e@ == "联系方式的类型和值不能为空"@
            },
        },
{
    if is_blank(input.name.as_str()) {
        return Err(String::from_str("联系人姓名不能为空"));
    }
    let mut i: usize = 0;
    while i < input.contacts.len()
        invariant
            !is_blank_chars(input.name@),
            i <= input.contacts@.len(),
            forall|k: int| 0 <= k < i ==> !contact_incomplete(#[trigger] input.contacts@[k]),
        decreases input.contacts@.len() - i,
    {
        let c = &input.contacts[i];
        if is_blank(c.kind.as_str()) || is_blank(c.value.as_str()) {
            assert(contact_incomplete(input.contacts@[i as int]));
            return Err(String::from_str("联系方式的类型和值不能为空"));
        }
        i = i + 1;
    }
    Ok(())
}

/// Whether an introduction records nothing: no linked person and no text.
pub open spec fn introduction_empty(input: IntroductionInput) -> bool {
    &&& filled_chars(input.introduced_by_id) is None
    &&& filled_chars(input.met_with_id) is None
    &&& present_chars(input.context) is None
    &&& present_chars(input.location) is None
    &&& present_chars(input.met_on) is None
    &&& present_chars(input.note) is None
}

/// Whether an introduction records nothing and is not stored.
pub fn introduction_is_empty(input: &IntroductionInput) -> (r: bool)
    ensures
        r == introduction_empty(*input),
{
    filled(&input.introduced_by_id).is_none() && filled(&input.met_with_id).is_none() && nonempty(
        &input.context,
    ).is_none() && nonempty(&input.location).is_none() && nonempty(&input.met_on).is_none()
        && nonempty(&input.note).is_none()
}

/// The gender stored for a person: the one entered, or "未设置" when none was.
pub open spec fn gender_of(input: PersonInput) -> Seq<char> {
    match filled_chars(input.gender) {
        Some(g) => g,
        None => "未设置"@,
    }
}

/// The gender stored for a person.
pub fn person_gender(input: &PersonInput) -> (r: String)
    ensures
        r@ == gender_of(*input),
{
    match filled(&input.gender) {
        Some(g) => g,
        None => String::from_str("未设置"),
    }
}

/// Stored bytes read back as text: the UTF-8 text, or empty text when the
/// bytes are not valid UTF-8.
pub fn text(value: Option<Vec<u8>>) -> (r: Option<String>)
    ensures
        match value {
            None => r is None,
            Some(v) => r matches Some(s) && s@ == (if valid_utf8(v@) {
                decode_utf8(v@)
            } else {
                Seq::<char>::empty()
            }),
        },
{
    match value {
        None => None,
        Some(v) => match string_from_utf8(v) {
            Some(s) => Some(s),
            None => Some(String::new()),
        },
    }
}

/// The tables whose fields are encrypted.
#[derive(Clone, Copy, Debug, PartialEq, Eq)]
pub enum Table {
    Credentials,
    People,
    ContactMethods,
    Introductions,
    Relationships,
}

/// The name of a table.
pub open spec fn table_name(t: Table) -> Seq<char> {
    match t {
        Table::Credentials => "credentials"@,
        Table::People => "people"@,
        Table::ContactMethods => "contact_methods"@,
        Table::Introductions => "introductions"@,
        Table::Relationships => "relationships"@,
    }
}

/// The encrypted columns of a table, in the order their values are listed.
pub open spec fn table_columns(t: Table) -> Seq<Seq<char>> {
    match t {
        Table::Credentials => seq!["enc_title"@, "enc_url"@, "enc_username"@, "enc_password"@, "enc_totp_secret"@, "enc_note"@],
        Table::People => seq!["enc_name"@, "enc_gender"@, "enc_birthday"@, "enc_note"@],
        Table::ContactMethods => seq!["enc_type"@, "enc_value"@, "enc_label"@, "enc_is_primary"@],
        Table::Introductions => seq!["enc_context"@, "enc_location"@, "enc_met_on"@, "enc_note"@],
        Table::Relationships => seq!["enc_type"@, "enc_direction"@, "enc_note"@],
    }
}

impl Table {
    /// The table's name.
    pub fn name(&self) -> (r: &'static str)
        ensures
            r@ == table_name(*self),
    {
        match self {
            Table::Credentials => "credentials",
            Table::People => "people",
            Table::ContactMethods => "contact_methods",
            Table::Introductions => "introductions",
            Table::Relationships => "relationships",
        }
    }

    /// The table's encrypted columns.
    pub fn columns(&self) -> (r: Vec<&'static str>)
        ensures
            r@.len() == table_columns(*self).len(),
            forall|i: int| 0 <= i < r@.len() ==> (#[trigger] r@[i])@ == table_columns(*self)[i],
    {
        let mut v: Vec<&'static str> = Vec::new();
        match self {
            Table::Credentials => {
                v.push("enc_title");
                v.push("enc_url");
                v.push("enc_username");
                v.push("enc_password");
                v.push("enc_totp_secret");
                v.push("enc_note");
            },
            Table::People => {
                v.push("enc_name");
                v.push("enc_gender");
                v.push("enc_birthday");
                v.push("enc_note");
            },
            Table::ContactMethods => {
                v.push("enc_type");
                v.push("enc_value");
                v.push("enc_label");
                v.push("enc_is_primary");
            },
            Table::Introductions => {
                v.push("enc_context");
                v.push("enc_location");
                v.push("enc_met_on");
                v.push("enc_note");
            },
            Table::Relationships => {
                v.push("enc_type");
                v.push("enc_direction");
                v.push("enc_note");
            },
        }
        v
    }
}

/// The characters of each optional text.
pub open spec fn texts_view(s: Seq<Option<String>>) -> Seq<Option<Seq<char>>> {
    Seq::new(s.len(), |i: int| opt_chars(s[i]))
}

/// The bytes of an optional byte string.
pub open spec fn opt_bytes(o: Option<Vec<u8>>) -> Option<Seq<u8>> {
    match o {
        Some(v) => Some(v@),
        None => None,
    }
}

/// The texts a credential stores, by column of its table.
pub open spec fn credential_texts(c: CredentialInput) -> Seq<Option<Seq<char>>> {
    seq![Some(c.title@), filled_chars(c.url), filled_chars(c.username), Some(c.password@), filled_chars(c.totp_secret), filled_chars(c.note)]
}

/// The texts a person stores, by column of its table.
pub open spec fn person_texts(p: PersonInput) -> Seq<Option<Seq<char>>> {
    seq![Some(p.name@), Some(gender_of(p)), filled_chars(p.birthday), filled_chars(p.note)]
}

/// The texts a contact method stores, by column of its table.
pub open spec fn contact_texts(c: ContactInput) -> Seq<Option<Seq<char>>> {
    seq![Some(c.kind@), Some(c.value@), filled_chars(c.label), Some(if c.is_primary { "1"@ } else { "0"@ })]
}

/// The texts an introduction stores, by column of its table. Encrypted
/// storage leaves out blank texts; the decrypted copy leaves out empty ones.
pub open spec fn introduction_texts(i: IntroductionInput, encrypted: bool) -> Seq<Option<Seq<char>>> {
    if encrypted {
        seq![present_chars(i.context), present_chars(i.location), present_chars(i.met_on), present_chars(i.note)]
    } else {
        seq![filled_chars(i.context), filled_chars(i.location), filled_chars(i.met_on), filled_chars(i.note)]
    }
}

/// The texts a relationship stores, by column of its table. Encrypted
/// storage leaves out blank texts; the decrypted copy leaves out empty ones.
pub open spec fn relationship_texts(r: RelationshipInput, encrypted: bool) -> Seq<Option<Seq<char>>> {
    if encrypted {
        seq![Some(r.relationship_type@), present_chars(r.direction), present_chars(r.note)]
    } else {
        seq![Some(r.relationship_type@), filled_chars(r.direction), filled_chars(r.note)]
    }
}

/// The texts a credential stores.
pub fn credential_values(input: &CredentialInput) -> (r: Vec<Option<String>>)
    ensures
        texts_view(r@) == credential_texts(*input),
        r@.len() == 6,
        opt_chars(r@[0]) == Some(input.title@),
        opt_chars(r@[1]) == filled_chars(input.url),
        opt_chars(r@[2]) == filled_chars(input.username),
        opt_chars(r@[3]) == Some(input.password@),
        opt_chars(r@[4]) == filled_chars(input.totp_secret),
        opt_chars(r@[5]) == filled_chars(input.note),
{
    let mut v: Vec<Option<String>> = Vec::new();
    v.push(Some(input.title.clone()));
    v.push(filled(&input.url));
    v.push(filled(&input.username));
    v.push(Some(input.password.clone()));
    v.push(filled(&input.totp_secret));
    v.push(filled(&input.note));
    assert(texts_view(v@) =~= credential_texts(*input));
    v
}

/// The texts a person stores.
pub fn person_values(input: &PersonInput) -> (r: Vec<Option<String>>)
    ensures
        texts_view(r@) == person_texts(*input),
{
    let mut v: Vec<Option<String>> = Vec::new();
    v.push(Some(input.name.clone()));
    v.push(Some(person_gender(input)));
    v.push(filled(&input.birthday));
    v.push(filled(&input.note));
    assert(texts_view(v@) =~= person_texts(*input));
    v
}

/// The texts a contact method stores.
pub fn contact_values(contact: &ContactInput) -> (r: Vec<Option<String>>)
    ensures
        texts_view(r@) == contact_texts(*contact),
        r@.len() == 4,
        opt_chars(r@[0]) == Some(contact.kind@),
        opt_chars(r@[1]) == Some(contact.value@),
        opt_chars(r@[2]) == filled_chars(contact.label),
        opt_chars(r@[3]) == Some(if contact.is_primary { "1"@ } else { "0"@ }),
{
    let mut v: Vec<Option<String>> = Vec::new();
    v.push(Some(contact.kind.clone()));
    v.push(Some(contact.value.clone()));
    v.push(filled(&contact.label));
    if contact.is_primary {
        v.push(Some(String::from_str("1")));
    } else {
        v.push(Some(String::from_str("0")));
    }
    assert(texts_view(v@) =~= contact_texts(*contact));
    v
}

/// The texts an introduction stores, encrypted or in the decrypted copy.
pub fn introduction_values(input: &IntroductionInput, encrypted: bool) -> (r: Vec<Option<String>>)
    ensures
        texts_view(r@) == introduction_texts(*input, encrypted),
{
    let mut v: Vec<Option<String>> = Vec::new();
    if encrypted {
        v.push(present(&input.context));
        v.push(present(&input.location));
        v.push(present(&input.met_on));
        v.push(present(&input.note));
    } else {
        v.push(filled(&input.context));
        v.push(filled(&input.location));
        v.push(filled(&input.met_on));
        v.push(filled(&input.note));
    }
    assert(texts_view(v@) =~= introduction_texts(*input, encrypted));
    v
}

/// The texts a relationship stores, encrypted or in the decrypted copy.
pub fn relationship_values(input: &RelationshipInput, encrypted: bool) -> (r: Vec<Option<String>>)
    ensures
        texts_view(r@) == relationship_texts(*input, encrypted),
{
    let mut v: Vec<Option<String>> = Vec::new();
    v.push(Some(input.relationship_type.clone()));
    if encrypted {
        v.push(present(&input.direction));
        v.push(present(&input.note));
    } else {
        v.push(filled(&input.direction));
        v.push(filled(&input.note));
    }
    assert(texts_view(v@) =~= relationship_texts(*input, encrypted));
    v
}

/// Whether `cell` stores `text` encrypted as column `column` of record `id`
/// in table `t` of vault `vault_id`: nothing for no text, otherwise a sealed
/// field that decrypts back to the text's bytes.
pub open spec fn seals(dek: Seq<u8>, vault_id: Seq<char>, t: Table, id: Seq<char>, column: Seq<char>, text: Option<Seq<char>>, cell: Option<Vec<u8>>) -> bool {
    match text {
        None => cell is None,
        Some(s) => cell matches Some(e) && e@.len() == MIN_SEALED_LEN + encode_utf8(s).len()
            && opened_field(dek, field_aad_bytes(vault_id, table_name(t), id, column), e@) == Ok::<Seq<u8>, Seq<char>>(encode_utf8(s)),
    }
}

/// Encrypts the texts of record `record_id` of table `table`, one per column.
pub fn seal_values(dek: &[u8; 32], vault_id: &str, table: Table, record_id: &str, values: &Vec<Option<String>>) -> (r: Result<Vec<Option<Vec<u8>>>, String>)
    requires
        values@.len() == table_columns(table).len(),
    ensures
        (forall|i: int| 0 <= i < values@.len() ==> (#[trigger] values@[i]) is None) ==> r is Ok,
        r matches Ok(out) ==> {
            &&& out@.len() == values@.len()
            &&& forall|i: int| 0 <= i < out@.len() ==> seals(dek@, vault_id@, table, record_id@, table_columns(table)[i], opt_chars(values@[i]), #[trigger] out@[i])
        },
{
    let columns = table.columns();
    let name = table.name();
    let mut out: Vec<Option<Vec<u8>>> = Vec::new();
    let mut i: usize = 0;
    while i < values.len()
        invariant
            values@.len() == table_columns(table).len(),
            columns@.len() == table_columns(table).len(),
            forall|k: int| 0 <= k < columns@.len() ==> (#[trigger] columns@[k])@ == table_columns(table)[k],
            name@ == table_name(table),
            i <= values@.len(),
            out@.len() == i,
            forall|k: int| 0 <= k < i ==> seals(dek@, vault_id@, table, record_id@, table_columns(table)[k], opt_chars(values@[k]), #[trigger] out@[k]),
        decreases values@.len() - i,
    {
        match &values[i] {
            None => out.push(None),
            Some(v) => {
                let e = encrypt_field(dek, vault_id, name, record_id, columns[i], v.as_str())?;
                out.push(Some(e));
            },
        }
        i = i + 1;
    }
    Ok(out)
}

/// The bytes of the texts of a record, one per column, as kept in the decrypted copy.
pub fn plain_values(values: &Vec<Option<String>>) -> (r: Vec<Option<Vec<u8>>>)
    ensures
        r@.len() == values@.len(),
        forall|i: int| 0 <= i < r@.len() ==> opt_bytes(#[trigger] r@[i]) == (match opt_chars(values@[i]) {
            Some(s) => Some(encode_utf8(s)),
            None => None,
        }),
{
    let mut out: Vec<Option<Vec<u8>>> = Vec::new();
    let mut i: usize = 0;
    while i < values.len()
        invariant
            i <= values@.len(),
            out@.len() == i,
            forall|k: int| 0 <= k < i ==> opt_bytes(#[trigger] out@[k]) == (match opt_chars(values@[k]) {
                Some(s) => Some(encode_utf8(s)),
                None => None,
            }),
        decreases values@.len() - i,
    {
        match &values[i] {
            None => out.push(None),
            Some(v) => out.push(Some(v.as_str().as_bytes_vec())),
        }
        i = i + 1;
    }
    out
}

/// Encrypts the fields of credential `id`.
pub fn encrypt_credential(input: &CredentialInput, dek: &[u8; 32], vault_id: &str, id: &str) -> (r: Result<Vec<Option<Vec<u8>>>, String>)
    ensures
        r matches Ok(out) ==> {
            &&& out@.len() == 6
            &&& forall|i: int| 0 <= i < 6 ==> seals(dek@, vault_id@, Table::Credentials, id@, table_columns(Table::Credentials)[i], credential_texts(*input)[i], #[trigger] out@[i])
            &&& seals(dek@, vault_id@, Table::Credentials, id@, "enc_title"@, Some(input.title@), out@[0])
            &&& seals(dek@, vault_id@, Table::Credentials, id@, "enc_url"@, filled_chars(input.url), out@[1])
            &&& seals(dek@, vault_id@, Table::Credentials, id@, "enc_username"@, filled_chars(input.username), out@[2])
            &&& seals(dek@, vault_id@, Table::Credentials, id@, "enc_password"@, Some(input.password@), out@[3])
            &&& seals(dek@, vault_id@, Table::Credentials, id@, "enc_totp_secret"@, filled_chars(input.totp_secret), out@[4])
            &&& seals(dek@, vault_id@, Table::Credentials, id@, "enc_note"@, filled_chars(input.note), out@[5])
        },
{
    let values = credential_values(input);
    proof {
        assert(values@.len() == texts_view(values@).len());
    }
    let out = seal_values(dek, vault_id, Table::Credentials, id, &values)?;
    proof {
        lemma_credential_columns(*input);
        assert(seals(dek@, vault_id@, Table::Credentials, id@, table_columns(Table::Credentials)[0], opt_chars(values@[0]), out@[0]));
        assert(seals(dek@, vault_id@, Table::Credentials, id@, table_columns(Table::Credentials)[1], opt_chars(values@[1]), out@[1]));
        assert(seals(dek@, vault_id@, Table::Credentials, id@, table_columns(Table::Credentials)[2], opt_chars(values@[2]), out@[2]));
        assert(seals(dek@, vault_id@, Table::Credentials, id@, table_columns(Table::Credentials)[3], opt_chars(values@[3]), out@[3]));
        assert(seals(dek@, vault_id@, Table::Credentials, id@, table_columns(Table::Credentials)[4], opt_chars(values@[4]), out@[4]));
        assert(seals(dek@, vault_id@, Table::Credentials, id@, table_columns(Table::Credentials)[5], opt_chars(values@[5]), out@[5]));
        assert forall|i: int| 0 <= i < 6 implies opt_chars(values@[i]) == credential_texts(*input)[i] by {
            assert(texts_view(values@)[i] == opt_chars(values@[i]));
        }
    }
    Ok(out)
}

/// A stored record: its identifier and one optional byte string per column.
pub struct StoredRow {
    pub id: String,
    pub cells: Vec<Option<Vec<u8>>>,
}

/// What decrypting one stored cell gives: nothing for an empty cell,
/// otherwise the field's plaintext, or the error text.
pub open spec fn opened_cell(dek: Seq<u8>, vault_id: Seq<char>, t: Table, id: Seq<char>, column: Seq<char>, cell: Option<Seq<u8>>) -> Result<Option<Seq<u8>>, Seq<char>> {
    match cell {
        None => Ok(None),
        Some(b) => match opened_field(dek, field_aad_bytes(vault_id, table_name(t), id, column), b) {
            Ok(p) => Ok(Some(p)),
            Err(e) => Err(e),
        },
    }
}

/// What decrypting cell `i` of `row` gives.
pub open spec fn row_cell(dek: Seq<u8>, vault_id: Seq<char>, t: Table, row: StoredRow, i: int) -> Result<Option<Seq<u8>>, Seq<char>> {
    opened_cell(dek, vault_id, t, row.id@, table_columns(t)[i], opt_bytes(row.cells@[i]))
}

/// Whether every cell of `row` decrypts.
pub open spec fn row_opens(dek: Seq<u8>, vault_id: Seq<char>, t: Table, row: StoredRow) -> bool {
    forall|i: int| 0 <= i < row.cells@.len() ==> (#[trigger] row_cell(dek, vault_id, t, row, i)) is Ok
}

/// Whether `e` is the error of the first cell of `row` that does not decrypt.
pub open spec fn row_fails_with(dek: Seq<u8>, vault_id: Seq<char>, t: Table, row: StoredRow, e: Seq<char>) -> bool {
    exists|i: int| {
        &&& 0 <= i < row.cells@.len()
        &&& #[trigger] row_cell(dek, vault_id, t, row, i) == Err::<Option<Seq<u8>>, Seq<char>>(e)
        &&& forall|j: int| 0 <= j < i ==> (#[trigger] row_cell(dek, vault_id, t, row, j)) is Ok
    }
}

/// Whether `out` is `row` with every cell decrypted.
pub open spec fn row_opened_to(dek: Seq<u8>, vault_id: Seq<char>, t: Table, row: StoredRow, out: StoredRow) -> bool {
    &&& out.id@ == row.id@
    &&& out.cells@.len() == row.cells@.len()
    &&& forall|i: int| 0 <= i < row.cells@.len() ==> #[trigger] row_cell(dek, vault_id, t, row, i) == Ok::<Option<Seq<u8>>, Seq<char>>(opt_bytes(out.cells@[i]))
}

/// Decrypts every cell of a stored row of `table`, stopping at the first that fails.
pub fn decrypt_row(dek: &[u8; 32], vault_id: &str, table: Table, row: &StoredRow) -> (r: Result<StoredRow, String>)
    requires
        row.cells@.len() == table_columns(table).len(),
    ensures
        match r {
            Ok(out) => row_opened_to(dek@, vault_id@, table, *row, out),
            Err(e) => row_fails_with(dek@, vault_id@, table, *row, e@),
        },
{
    let columns = table.columns();
    let name = table.name();
    let mut cells: Vec<Option<Vec<u8>>> = Vec::new();
    let mut i: usize = 0;
    while i < row.cells.len()
        invariant
            row.cells@.len() == table_columns(table).len(),
            columns@.len() == table_columns(table).len(),
            forall|k: int| 0 <= k < columns@.len() ==> (#[trigger] columns@[k])@ == table_columns(table)[k],
            name@ == table_name(table),
            i <= row.cells@.len(),
            cells@.len() == i,
            forall|k: int| 0 <= k < i ==> #[trigger] row_cell(dek@, vault_id@, table, *row, k) == Ok::<Option<Seq<u8>>, Seq<char>>(opt_bytes(cells@[k])),
        decreases row.cells@.len() - i,
    {
        match &row.cells[i] {
            None => cells.push(None),
            Some(b) => {
                match decrypt_field(dek, vault_id, name, row.id.as_str(), columns[i], b.as_slice()) {
                    Ok(p) => cells.push(Some(p)),
                    Err(e) => {
                        proof {
                            assert(row_cell(dek@, vault_id@, table, *row, i as int) == Err::<Option<Seq<u8>>, Seq<char>>(e@));
                            assert forall|j: int| 0 <= j < i implies (#[trigger] row_cell(dek@, vault_id@, table, *row, j)) is Ok by {
                                assert(row_cell(dek@, vault_id@, table, *row, j) == Ok::<Option<Seq<u8>>, Seq<char>>(opt_bytes(cells@[j])));
                            }
                        }
                        return Err(e);
                    },
                }
            },
        }
        i = i + 1;
    }
    Ok(StoredRow { id: row.id.clone(), cells })
}

/// Decrypts every stored row of `table` of vault `vault_id`: all of them, or
/// the error of the first cell, in row order, that does not decrypt.
pub fn decrypt_rows(dek: &[u8; 32], vault_id: &str, table: Table, rows: &Vec<StoredRow>) -> (r: Result<Vec<StoredRow>, String>)
    requires
        forall|k: int| 0 <= k < rows@.len() ==> (#[trigger] rows@[k]).cells@.len() == table_columns(table).len(),
    ensures
        match r {
            Ok(out) => out@.len() == rows@.len() && forall|k: int| 0 <= k < rows@.len() ==> row_opened_to(dek@, vault_id@, table, #[trigger] rows@[k], out@[k]),
            Err(e) => exists|k: int| {
                &&& 0 <= k < rows@.len()
                &&& row_fails_with(dek@, vault_id@, table, #[trigger] rows@[k], e@)
                &&& forall|j: int| 0 <= j < k ==> row_opens(dek@, vault_id@, table, #[trigger] rows@[j])
            },
        },
{
    let mut out: Vec<StoredRow> = Vec::new();
    let mut k: usize = 0;
    while k < rows.len()
        invariant
            forall|m: int| 0 <= m < rows@.len() ==> (#[trigger] rows@[m]).cells@.len() == table_columns(table).len(),
            k <= rows@.len(),
            out@.len() == k,
            forall|m: int| 0 <= m < k ==> row_opened_to(dek@, vault_id@, table, #[trigger] rows@[m], out@[m]),
        decreases rows@.len() - k,
    {
        match decrypt_row(dek, vault_id, table, &rows[k]) {
            Ok(row) => out.push(row),
            Err(e) => {
                proof {
                    assert forall|j: int| 0 <= j < k implies row_opens(dek@, vault_id@, table, #[trigger] rows@[j]) by {
                        assert(row_opened_to(dek@, vault_id@, table, rows@[j], out@[j]));
                        assert forall|i: int| 0 <= i < rows@[j].cells@.len() implies (#[trigger] row_cell(dek@, vault_id@, table, rows@[j], i)) is Ok by {
                            assert(row_cell(dek@, vault_id@, table, rows@[j], i) == Ok::<Option<Seq<u8>>, Seq<char>>(opt_bytes(out@[j].cells@[i])));
                        }
                    }
                    assert(row_fails_with(dek@, vault_id@, table, rows@[k as int], e@));
                }
                return Err(e);
            },
        }
        k = k + 1;
    }
    Ok(out)
}

/// One step of checking the people a person refers to: a lookup of a person
/// in the vault (with the field that names it), or a refusal.
pub enum ReferenceStep {
    Check(Seq<char>, Seq<char>),
    Fail(Seq<char>),
}

/// The step for an introducing or met person named by `id` in `field`.
pub open spec fn link_steps(person_id: Seq<char>, field: Seq<char>, id: Option<String>) -> Seq<ReferenceStep> {
    match filled_chars(id) {
        None => Seq::empty(),
        Some(v) => if v == person_id {
            seq![ReferenceStep::Fail(field + " 不能是联系人本人"@)]
        } else {
            seq![ReferenceStep::Check(field, v)]
        },
    }
}

/// The step for a relationship of person `person_id`.
pub open spec fn relationship_step(person_id: Seq<char>, r: RelationshipInput) -> ReferenceStep {
    if r.related_person_id@.len() == 0 || is_blank_chars(r.relationship_type@) {
        ReferenceStep::Fail("关联人和关系类型不能为空"@)
    } else if r.related_person_id@ == person_id {
        ReferenceStep::Fail("关联人不能是联系人本人"@)
    } else {
        ReferenceStep::Check("关联人"@, r.related_person_id@)
    }
}

/// The steps of checking the references of person `person_id`, in order:
/// who introduced them, whom they were met with, then each relationship.
pub open spec fn reference_steps(person_id: Seq<char>, input: PersonInput) -> Seq<ReferenceStep> {
    link_steps(person_id, "推荐人"@, input.introduction.introduced_by_id)
        + link_steps(person_id, "认识对象"@, input.introduction.met_with_id)
        + input.relationships@.map_values(|r: RelationshipInput| relationship_step(person_id, r))
}

/// The lookups to make, as (field, person) pairs, before the first refusal,
/// and that refusal if there is one.
pub open spec fn planned(steps: Seq<ReferenceStep>) -> (Seq<(Seq<char>, Seq<char>)>, Option<Seq<char>>)
    decreases steps.len(),
{
    if steps.len() == 0 {
        (Seq::empty(), None)
    } else {
        let (checks, fail) = planned(steps.drop_last());
        if fail is Some {
            (checks, fail)
        } else {
            match steps.last() {
                ReferenceStep::Check(field, id) => (checks.push((field, id)), None),
                ReferenceStep::Fail(msg) => (checks, Some(msg)),
            }
        }
    }
}

/// A lookup of a referenced person.
pub struct ReferenceCheck {
    pub field: String,
    pub person_id: String,
}

/// The lookups to make for a person's references, in order, and what follows
/// once they all find their person.
pub struct ReferencePlan {
    pub checks: Vec<ReferenceCheck>,
    pub outcome: Result<(), String>,
}

/// The (field, person) pairs of a list of lookups.
pub open spec fn checks_view(c: Seq<ReferenceCheck>) -> Seq<(Seq<char>, Seq<char>)> {
    Seq::new(c.len(), |i: int| (c[i].field@, c[i].person_id@))
}

/// The refusal of an outcome, if any.
pub open spec fn outcome_view(o: Result<(), String>) -> Option<Seq<char>> {
    match o {
        Ok(()) => None,
        Err(e) => Some(e@),
    }
}

/// Applies one step to the lookups gathered so far.
fn apply_step(checks: &mut Vec<ReferenceCheck>, fail: &mut Option<String>, step_check: Option<(String, String)>, step_fail: Option<String>, Ghost(steps): Ghost<Seq<ReferenceStep>>, Ghost(step): Ghost<ReferenceStep>)
    requires
        (checks_view(old(checks)@), opt_chars(*old(fail))) == planned(steps),
        match step {
            ReferenceStep::Check(f, id) => step_check matches Some(c) && c.0@ == f && c.1@ == id && step_fail is None,
            ReferenceStep::Fail(m) => step_fail matches Some(e) && e@ == m && step_check is None,
        },
    ensures
        (checks_view(final(checks)@), opt_chars(*final(fail))) == planned(steps.push(step)),
{
    assert(steps.push(step).drop_last() =~= steps);
    if fail.is_none() {
        match step_check {
            Some(c) => {
                checks.push(ReferenceCheck { field: c.0, person_id: c.1 });
                assert(checks_view(checks@) =~= checks_view(old(checks)@).push((c.0@, c.1@)));
            },
            None => {
                *fail = step_fail;
            },
        }
    }
}

/// Plans the checks of the people that person `person_id` refers to.
pub fn plan_person_references(person_id: &str, input: &PersonInput) -> (r: ReferencePlan)
    ensures
        (checks_view(r.checks@), outcome_view(r.outcome)) == planned(reference_steps(person_id@, *input)),
        r.outcome is Ok ==> forall|k: int| 0 <= k < input.relationships@.len() ==> relationship_acceptable(person_id@, #[trigger] input.relationships@[k]),
{
    proof {
        lemma_plan_accepts_only_typed_relationships(person_id@, *input);
    }
    let mut checks: Vec<ReferenceCheck> = Vec::new();
    let mut fail: Option<String> = None;
    let ghost mut done: Seq<ReferenceStep> = Seq::empty();
    proof {
        assert(checks_view(checks@) =~= Seq::empty());
    }
    let ghost first = link_steps(person_id@, "推荐人"@, input.introduction.introduced_by_id);
    let ghost second = link_steps(person_id@, "认识对象"@, input.introduction.met_with_id);
    link_step(&mut checks, &mut fail, person_id, "推荐人", &input.introduction.introduced_by_id, Ghost(done));
    proof {
        done = done + first;
    }
    link_step(&mut checks, &mut fail, person_id, "认识对象", &input.introduction.met_with_id, Ghost(done));
    proof {
        done = done + second;
    }
    let ghost rel_steps = input.relationships@.map_values(|r: RelationshipInput| relationship_step(person_id@, r));
    let mut i: usize = 0;
    while i < input.relationships.len()
        invariant
            i <= input.relationships@.len(),
            rel_steps == input.relationships@.map_values(|r: RelationshipInput| relationship_step(person_id@, r)),
            done == first + second + rel_steps.take(i as int),
            (checks_view(checks@), opt_chars(fail)) == planned(done),
        decreases input.relationships@.len() - i,
    {
        let rel = &input.relationships[i];
        let ghost step = relationship_step(person_id@, *rel);
        if rel.related_person_id.as_str().is_empty() || is_blank(rel.relationship_type.as_str()) {
            apply_step(&mut checks, &mut fail, None, Some(String::from_str("关联人和关系类型不能为空")), Ghost(done), Ghost(step));
        } else if same_text(rel.related_person_id.as_str(), person_id) {
            apply_step(&mut checks, &mut fail, None, Some(String::from_str("关联人不能是联系人本人")), Ghost(done), Ghost(step));
        } else {
            apply_step(&mut checks, &mut fail, Some((String::from_str("关联人"), rel.related_person_id.clone())), None, Ghost(done), Ghost(step));
        }
        proof {
            assert(rel_steps.take(i + 1) =~= rel_steps.take(i as int).push(step));
            assert(first + second + rel_steps.take(i + 1) =~= done.push(step));
            done = done.push(step);
        }
        i = i + 1;
    }
    proof {
        assert(rel_steps.take(i as int) =~= rel_steps);
        assert(done =~= reference_steps(person_id@, *input));
    }
    let outcome = match fail {
        Some(e) => Err(e),
        None => Ok(()),
    };
    ReferencePlan { checks, outcome }
}

/// Applies the step of an introducing or met person.
fn link_step(checks: &mut Vec<ReferenceCheck>, fail: &mut Option<String>, person_id: &str, field: &str, id: &Option<String>, Ghost(steps): Ghost<Seq<ReferenceStep>>)
    requires
        (checks_view(old(checks)@), opt_chars(*old(fail))) == planned(steps),
    ensures
        (checks_view(final(checks)@), opt_chars(*final(fail))) == planned(steps + link_steps(person_id@, field@, *id)),
{
    match filled(id) {
        None => {
            assert(steps + link_steps(person_id@, field@, *id) =~= steps);
        },
        Some(v) => {
            if same_text(v.as_str(), person_id) {
                let mut msg = String::from_str(field);
                msg.append(" 不能是联系人本人");
                let ghost step = ReferenceStep::Fail(field@ + " 不能是联系人本人"@);
                assert(steps + link_steps(person_id@, field@, *id) =~= steps.push(step));
                apply_step(checks, fail, None, Some(msg), Ghost(steps), Ghost(step));
            } else {
                let ghost step = ReferenceStep::Check(field@, v@);
                assert(steps + link_steps(person_id@, field@, *id) =~= steps.push(step));
                apply_step(checks, fail, Some((String::from_str(field), v)), None, Ghost(steps), Ghost(step));
            }
        },
    }
}

/// The refusal when a referenced person is not in the vault.
pub fn missing_reference_message(field: &str) -> (r: String)
    ensures
        r@ == field@ + " 必须是当前 vault 中存在的联系人"@,
{
    let mut msg = String::from_str(field);
    msg.append(" 必须是当前 vault 中存在的联系人");
    msg
}

/// The LIKE pattern that a search for `query` uses: the trimmed query
/// between two `%` wildcards.
pub fn search_pattern(query: &str) -> (r: String)
    ensures
        r@ == "%"@ + crate::text::trim_chars(query@) + "%"@,
{
    let mut p = String::from_str("%");
    p.append(crate::text::trim(query));
    p.append("%");
    p
}

/// A row whose cells were sealed from some texts decrypts to the bytes of
/// those texts, column by column: what a write stores, a read gives back.
pub proof fn lemma_sealed_row_opens(dek: Seq<u8>, vault_id: Seq<char>, t: Table, row: StoredRow, texts: Seq<Option<Seq<char>>>)
    requires
        row.cells@.len() == texts.len(),
        forall|i: int| 0 <= i < texts.len() ==> seals(dek, vault_id, t, row.id@, table_columns(t)[i], texts[i], #[trigger] row.cells@[i]),
    ensures
        row_opens(dek, vault_id, t, row),
        forall|i: int| 0 <= i < texts.len() ==> #[trigger] row_cell(dek, vault_id, t, row, i) == Ok::<Option<Seq<u8>>, Seq<char>>(match texts[i] {
            Some(s) => Some(encode_utf8(s)),
            None => None,
        }),
{
    assert forall|i: int| 0 <= i < texts.len() implies #[trigger] row_cell(dek, vault_id, t, row, i) == Ok::<Option<Seq<u8>>, Seq<char>>(match texts[i] {
        Some(s) => Some(encode_utf8(s)),
        None => None,
    }) by {
        assert(seals(dek, vault_id, t, row.id@, table_columns(t)[i], texts[i], row.cells@[i]));
    }
}

/// What validating a person answers: refused for a blank name, then for a
/// contact method that lacks its kind or its value.
pub open spec fn person_check(input: PersonInput) -> Result<(), Seq<char>> {
    if is_blank_chars(input.name@) {
        Err("联系人姓名不能为空"@)
    } else if exists|i: int| 0 <= i < input.contacts@.len() && contact_incomplete(#[trigger] input.contacts@[i]) {
        Err("联系方式的类型和值不能为空"@)
    } else {
        Ok(())
    }
}

/// A person is accepted only with a name that is not blank and with every
/// contact method's kind and value not blank; a person with a good name and
/// some contact method whose kind or value is blank is refused for it.
pub proof fn lemma_person_validation(input: PersonInput, k: int)
    ensures
        person_check(input) is Ok ==> !is_blank_chars(input.name@) && forall|i: int| 0 <= i < input.contacts@.len()
            ==> !is_blank_chars((#[trigger] input.contacts@[i]).kind@) && !is_blank_chars(input.contacts@[i].value@),
        !is_blank_chars(input.name@) && 0 <= k < input.contacts@.len()
            && (is_blank_chars(input.contacts@[k].kind@) || is_blank_chars(input.contacts@[k].value@))
            ==> person_check(input) == Err::<(), Seq<char>>("联系方式的类型和值不能为空"@),
        is_blank_chars(input.name@) ==> person_check(input) == Err::<(), Seq<char>>("联系人姓名不能为空"@),
{
    if !is_blank_chars(input.name@) && 0 <= k < input.contacts@.len()
        && (is_blank_chars(input.contacts@[k].kind@) || is_blank_chars(input.contacts@[k].value@)) {
        assert(contact_incomplete(input.contacts@[k]));
    }
}

/// Each cell of a stored credential holds the input field its column names:
/// title, URL, username, password, one-time-password secret and note, with
/// empty optional fields left out.
pub proof fn lemma_credential_columns(c: CredentialInput)
    ensures
        table_columns(Table::Credentials).len() == 6,
        credential_texts(c).len() == 6,
        table_columns(Table::Credentials)[0] == "enc_title"@ && credential_texts(c)[0] == Some(c.title@),
        table_columns(Table::Credentials)[1] == "enc_url"@ && credential_texts(c)[1] == filled_chars(c.url),
        table_columns(Table::Credentials)[2] == "enc_username"@ && credential_texts(c)[2] == filled_chars(c.username),
        table_columns(Table::Credentials)[3] == "enc_password"@ && credential_texts(c)[3] == Some(c.password@),
        table_columns(Table::Credentials)[4] == "enc_totp_secret"@ && credential_texts(c)[4] == filled_chars(c.totp_secret),
        table_columns(Table::Credentials)[5] == "enc_note"@ && credential_texts(c)[5] == filled_chars(c.note),
        c.username is Some && c.username->0@.len() > 0 ==> credential_texts(c)[2] == Some(c.username->0@),
        c.totp_secret is Some && c.totp_secret->0@.len() > 0 ==> credential_texts(c)[4] == Some(c.totp_secret->0@),
{
}

/// A contact method stores its kind, value, label (kept whenever it is not
/// empty) and primary flag under the columns that name them.
pub proof fn lemma_contact_columns(c: ContactInput)
    ensures
        table_columns(Table::ContactMethods).len() == 4,
        contact_texts(c).len() == 4,
        table_columns(Table::ContactMethods)[0] == "enc_type"@ && contact_texts(c)[0] == Some(c.kind@),
        table_columns(Table::ContactMethods)[1] == "enc_value"@ && contact_texts(c)[1] == Some(c.value@),
        table_columns(Table::ContactMethods)[2] == "enc_label"@ && contact_texts(c)[2] == filled_chars(c.label),
        table_columns(Table::ContactMethods)[3] == "enc_is_primary"@,
        contact_texts(c)[3] == Some(if c.is_primary { "1"@ } else { "0"@ }),
        c.label is Some && c.label->0@.len() > 0 ==> contact_texts(c)[2] == Some(c.label->0@),
{
}

proof fn lemma_planned_all_checks(steps: Seq<ReferenceStep>)
    requires
        forall|i: int| 0 <= i < steps.len() ==> (#[trigger] steps[i]) is Check,
    ensures
        planned(steps).1 is None,
        planned(steps).0.len() == steps.len(),
    decreases steps.len(),
{
    if steps.len() > 0 {
        lemma_planned_all_checks(steps.drop_last());
        assert(steps.last() == steps[steps.len() - 1]);
    }
}

proof fn lemma_planned_ok_only_checks(steps: Seq<ReferenceStep>)
    requires
        planned(steps).1 is None,
    ensures
        forall|i: int| 0 <= i < steps.len() ==> (#[trigger] steps[i]) is Check,
    decreases steps.len(),
{
    if steps.len() > 0 {
        let d = steps.drop_last();
        if planned(d).1 is Some {
            assert(false);
        }
        lemma_planned_ok_only_checks(d);
        assert forall|i: int| 0 <= i < steps.len() implies (#[trigger] steps[i]) is Check by {
            if i < steps.len() - 1 {
                assert(steps[i] == d[i]);
            } else {
                assert(steps[i] == steps.last());
            }
        }
    }
}

proof fn lemma_planned_first_fail(steps: Seq<ReferenceStep>, m: int, msg: Seq<char>)
    requires
        0 <= m < steps.len(),
        forall|i: int| 0 <= i < m ==> (#[trigger] steps[i]) is Check,
        steps[m] == ReferenceStep::Fail(msg),
    ensures
        planned(steps).1 == Some(msg),
        planned(steps).0.len() == m,
    decreases steps.len(),
{
    let d = steps.drop_last();
    if steps.len() == m + 1 {
        assert forall|i: int| 0 <= i < d.len() implies (#[trigger] d[i]) is Check by {
            assert(d[i] == steps[i]);
        }
        lemma_planned_all_checks(d);
        assert(steps.last() == steps[m]);
    } else {
        assert forall|i: int| 0 <= i < m implies (#[trigger] d[i]) is Check by {
            assert(d[i] == steps[i]);
        }
        assert(d[m] == steps[m]);
        lemma_planned_first_fail(d, m, msg);
    }
}

/// Whether relationship `r` of person `person_id` passes the checks made
/// before its related person is looked up.
pub open spec fn relationship_acceptable(person_id: Seq<char>, r: RelationshipInput) -> bool {
    r.related_person_id@.len() > 0 && !is_blank_chars(r.relationship_type@) && r.related_person_id@ != person_id
}

/// A plan with no refusal accepts only relationships that name another
/// person and have a type that is not blank, and it looks each of them up.
pub proof fn lemma_plan_accepts_only_typed_relationships(person_id: Seq<char>, input: PersonInput)
    ensures
        planned(reference_steps(person_id, input)).1 is None ==> forall|k: int| 0 <= k < input.relationships@.len()
            ==> relationship_acceptable(person_id, #[trigger] input.relationships@[k]),
{
    let steps = reference_steps(person_id, input);
    if planned(steps).1 is None {
        lemma_planned_ok_only_checks(steps);
        let a = link_steps(person_id, "推荐人"@, input.introduction.introduced_by_id);
        let b = link_steps(person_id, "认识对象"@, input.introduction.met_with_id);
        assert forall|k: int| 0 <= k < input.relationships@.len() implies relationship_acceptable(person_id, #[trigger] input.relationships@[k]) by {
            let idx = a.len() + b.len() + k;
            assert(steps[idx] == relationship_step(person_id, input.relationships@[k]));
            assert(steps[idx] is Check);
        }
    }
}

/// When the introduction refers to no one and every earlier relationship is
/// acceptable, a relationship without a related person or with a blank type
/// refuses the plan, with only the earlier relationships looked up.
pub proof fn lemma_plan_refuses_untyped_relationship(person_id: Seq<char>, input: PersonInput, k: int)
    requires
        filled_chars(input.introduction.introduced_by_id) is None,
        filled_chars(input.introduction.met_with_id) is None,
        0 <= k < input.relationships@.len(),
        forall|j: int| 0 <= j < k ==> relationship_acceptable(person_id, #[trigger] input.relationships@[j]),
        input.relationships@[k].related_person_id@.len() == 0 || is_blank_chars(input.relationships@[k].relationship_type@),
    ensures
        planned(reference_steps(person_id, input)).1 == Some("关联人和关系类型不能为空"@),
        planned(reference_steps(person_id, input)).0.len() == k,
{
    let steps = reference_steps(person_id, input);
    let rel = input.relationships@.map_values(|r: RelationshipInput| relationship_step(person_id, r));
    assert(link_steps(person_id, "推荐人"@, input.introduction.introduced_by_id) =~= Seq::<ReferenceStep>::empty());
    assert(link_steps(person_id, "认识对象"@, input.introduction.met_with_id) =~= Seq::<ReferenceStep>::empty());
    assert(steps =~= rel);
    assert forall|i: int| 0 <= i < k implies (#[trigger] steps[i]) is Check by {
        assert(steps[i] == relationship_step(person_id, input.relationships@[i]));
        assert(relationship_acceptable(person_id, input.relationships@[i]));
    }
    assert(steps[k] == relationship_step(person_id, input.relationships@[k]));
    lemma_planned_first_fail(steps, k, "关联人和关系类型不能为空"@);
}

} // verus!
