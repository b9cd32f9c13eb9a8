//! Local accounts and sessions: the remembered-account list, account
//! registration and login checks, the unlocked-vault session, and the
//! per-account password reveal setting.

use vstd::prelude::*;
use vstd::string::*;
use vstd::utf8::*;

use crate::crypto::{argon2id_hash, argon2id_v13, argon2_input_error, random_id, to_lowercase, unicode_lowercase, Argon2Failure};
use crate::text::{hex_lower, same_text, trim, trim_chars};

verus! {

/// An account remembered on this device for quick sign-in.
pub struct RememberedAccount {
    pub account_id: String,
    pub username: String,
    pub last_signed_in_at: u64,
    pub server_valid_until: Option<u64>,
    pub server_session_valid: Option<bool>,
}

/// The index of the first remembered account with id `id`, if any.
pub open spec fn first_remembered(accounts: Seq<RememberedAccount>, id: Seq<char>) -> Option<int>
    decreases accounts.len(),
{
    if accounts.len() == 0 {
        None
    } else if accounts[0].account_id@ == id {
        Some(0)
    } else {
        match first_remembered(accounts.drop_first(), id) {
            Some(i) => Some(i + 1),
            None => None,
        }
    }
}

proof fn lemma_first_remembered(accounts: Seq<RememberedAccount>, id: Seq<char>)
    ensures
        match first_remembered(accounts, id) {
            Some(i) => 0 <= i < accounts.len() && accounts[i].account_id@ == id
                && forall|j: int| 0 <= j < i ==> (#[trigger] accounts[j]).account_id@ != id,
            None => forall|j: int| 0 <= j < accounts.len() ==> (#[trigger] accounts[j]).account_id@ != id,
        },
    decreases accounts.len(),
{
    if accounts.len() > 0 {
        lemma_first_remembered(accounts.drop_first(), id);
        if accounts[0].account_id@ != id {
            assert forall|j: int| 0 < j < accounts.len() implies accounts[j] == accounts.drop_first()[j - 1] by {}
        }
    }
}

/// Finds the first remembered account with id `account_id`.
pub fn find_remembered(accounts: &Vec<RememberedAccount>, account_id: &str) -> (r: Option<usize>)
    ensures
        match r {
            Some(i) => first_remembered(accounts@, account_id@) == Some(i as int) && i < accounts@.len()
                && accounts@[i as int].account_id@ == account_id@,
            None => first_remembered(accounts@, account_id@) is None,
        },
{
    proof {
        lemma_first_remembered(accounts@, account_id@);
    }
    let mut i: usize = 0;
    while i < accounts.len()
        invariant
            i <= accounts@.len(),
            forall|j: int| 0 <= j < i ==> (#[trigger] accounts@[j]).account_id@ != account_id@,
            match first_remembered(accounts@, account_id@) {
                Some(f) => 0 <= f < accounts@.len() && accounts@[f].account_id@ == account_id@
                    && forall|j: int| 0 <= j < f ==> (#[trigger] accounts@[j]).account_id@ != account_id@,
                None => forall|j: int| 0 <= j < accounts@.len() ==> (#[trigger] accounts@[j]).account_id@ != account_id@,
            },
        decreases accounts@.len() - i,
    {
        if same_text(accounts[i].account_id.as_str(), account_id) {
            return Some(i);
        }
        i = i + 1;
    }
    None
}

/// What checking the remembered session of account `id` at time `now` gives:
/// refused when the server marked it invalid or its validity has run out.
pub open spec fn remembered_session_result(accounts: Seq<RememberedAccount>, id: Seq<char>, now: u64) -> Result<(), Seq<char>> {
    match first_remembered(accounts, id) {
        None => Ok(()),
        Some(i) => {
            let a = accounts[i];
            if a.server_session_valid == Some(false) {
                Err("后端会话已失效，请重新验证账户"@)
            } else if a.server_valid_until matches Some(t) && t <= now {
                Err("后端会话已过期，请重新验证账户"@)
            } else {
                Ok(())
            }
        },
    }
}

/// Checks the remembered session of account `account_id` at time `now`.
pub fn check_remembered_session(accounts: &Vec<RememberedAccount>, account_id: &str, now: u64) -> (r: Result<(), String>)
    ensures
        match r {
            Ok(()) => remembered_session_result(accounts@, account_id@, now) == Ok::<(), Seq<char>>(()),
            Err(e) => remembered_session_result(accounts@, account_id@, now) == Err::<(), Seq<char>>(e@),
        },
{
    match find_remembered(accounts, account_id) {
        None => Ok(()),
        Some(i) => {
            let a = &accounts[i];
            if a.server_session_valid == Some(false) {
                return Err(String::from_str("后端会话已失效，请重新验证账户"));
            }
            match a.server_valid_until {
                Some(t) => if t <= now {
                    Err(String::from_str("后端会话已过期，请重新验证账户"))
                } else {
                    Ok(())
                },
                None => Ok(()),
            }
        },
    }
}

/// Whether `a` is not the account with id `id`.
pub open spec fn other_account(id: Seq<char>) -> spec_fn(RememberedAccount) -> bool {
    |a: RememberedAccount| a.account_id@ != id
}

/// The fields of a remembered account.
pub open spec fn remembered_view(a: RememberedAccount) -> (Seq<char>, Seq<char>, u64, Option<u64>, Option<bool>) {
    (a.account_id@, a.username@, a.last_signed_in_at, a.server_valid_until, a.server_session_valid)
}

/// The fields of each remembered account.
pub open spec fn remembered_list(s: Seq<RememberedAccount>) -> Seq<(Seq<char>, Seq<char>, u64, Option<u64>, Option<bool>)> {
    s.map_values(|a: RememberedAccount| remembered_view(a))
}

/// The list after remembering account `id` (named `username`) at time `now`:
/// that account first, signed in at `now`, keeping the server's validity of
/// its earlier entry; then every other account in its former order.
pub open spec fn remembered(accounts: Seq<RememberedAccount>, id: Seq<char>, username: Seq<char>, now: u64) -> Seq<(Seq<char>, Seq<char>, u64, Option<u64>, Option<bool>)> {
    let prev = first_remembered(accounts, id);
    let until = match prev { Some(i) => accounts[i].server_valid_until, None => None };
    let valid = match prev { Some(i) => accounts[i].server_session_valid, None => None };
    seq![(id, username, now, until, valid)] + remembered_list(accounts.filter(other_account(id)))
}

/// A copy of a remembered account.
fn copy_remembered(a: &RememberedAccount) -> (r: RememberedAccount)
    ensures
        remembered_view(r) == remembered_view(*a),
{
    RememberedAccount {
        account_id: a.account_id.clone(),
        username: a.username.clone(),
        last_signed_in_at: a.last_signed_in_at,
        server_valid_until: a.server_valid_until,
        server_session_valid: a.server_session_valid,
    }
}

/// Remembers account `account_id` as signed in at `now`: it moves to the
/// front of the list, once, and the other accounts keep their order.
pub fn remember_account(accounts: &Vec<RememberedAccount>, account_id: &str, username: &str, now: u64) -> (r: Vec<RememberedAccount>)
    ensures
        remembered_list(r@) == remembered(accounts@, account_id@, username@, now),
{
    let prev = find_remembered(accounts, account_id);
    let (until, valid) = match prev {
        Some(i) => (accounts[i].server_valid_until, accounts[i].server_session_valid),
        None => (None, None),
    };
    let mut out: Vec<RememberedAccount> = Vec::new();
    out.push(RememberedAccount {
        account_id: String::from_str(account_id),
        username: String::from_str(username),
        last_signed_in_at: now,
        server_valid_until: until,
        server_session_valid: valid,
    });
    let ghost head = out@;
    let ghost pred = other_account(account_id@);
    let mut i: usize = 0;
    while i < accounts.len()
        invariant
            i <= accounts@.len(),
            pred == other_account(account_id@),
            head.len() == 1,
            out@.len() >= 1,
            out@[0] == head[0],
            remembered_list(out@.drop_first()) == remembered_list(accounts@.take(i as int).filter(pred)),
        decreases accounts@.len() - i,
    {
        let ghost before = out@;
        proof {
            reveal(Seq::filter);
            assert(accounts@.take(i + 1).drop_last() =~= accounts@.take(i as int));
        }
        if !same_text(accounts[i].account_id.as_str(), account_id) {
            out.push(copy_remembered(&accounts[i]));
            proof {
                assert(out@.drop_first() =~= before.drop_first().push(out@.last()));
                assert(remembered_list(out@.drop_first()) =~= remembered_list(before.drop_first()).push(remembered_view(accounts@[i as int])));
                assert(remembered_list(accounts@.take(i + 1).filter(pred)) =~= remembered_list(accounts@.take(i as int).filter(pred)).push(remembered_view(accounts@[i as int])));
            }
        } else {
            proof {
                assert(accounts@.take(i + 1).filter(pred) == accounts@.take(i as int).filter(pred));
            }
        }
        i = i + 1;
    }
    proof {
        assert(accounts@.take(accounts@.len() as int) =~= accounts@);
        assert(remembered_list(out@) =~= seq![remembered_view(out@[0])] + remembered_list(out@.drop_first()));
    }
    out
}

proof fn lemma_filter_keeps_all(s: Seq<RememberedAccount>, pred: spec_fn(RememberedAccount) -> bool)
    requires
        forall|i: int| 0 <= i < s.len() ==> pred(#[trigger] s[i]),
    ensures
        s.filter(pred) == s,
    decreases s.len(),
{
    reveal(Seq::filter);
    if s.len() > 0 {
        lemma_filter_keeps_all(s.drop_last(), pred);
        assert(s.drop_last().push(s.last()) =~= s);
    }
}

proof fn lemma_filter_skips_first(s: Seq<RememberedAccount>, pred: spec_fn(RememberedAccount) -> bool)
    requires
        s.len() > 0,
        !pred(s[0]),
    ensures
        s.filter(pred) == s.drop_first().filter(pred),
{
    let head = seq![s[0]];
    assert(head + s.drop_first() =~= s);
    Seq::filter_distributes_over_add(head, s.drop_first(), pred);
    reveal_with_fuel(Seq::filter, 2);
    assert(head.drop_last() =~= Seq::<RememberedAccount>::empty());
    assert(head.filter(pred) =~= Seq::<RememberedAccount>::empty());
    assert(Seq::<RememberedAccount>::empty() + s.drop_first().filter(pred) =~= s.drop_first().filter(pred));
}

/// Remembering an account puts it first, lists it once, and keeps every
/// other account in its former order.
pub proof fn lemma_remembered_shape(accounts: Seq<RememberedAccount>, id: Seq<char>, username: Seq<char>, now: u64)
    ensures
        ({
            let r = remembered(accounts, id, username, now);
            &&& r.len() == 1 + accounts.filter(other_account(id)).len()
            &&& r[0].0 == id && r[0].1 == username && r[0].2 == now
            &&& forall|i: int| 1 <= i < r.len() ==> (#[trigger] r[i]).0 != id
            &&& r.drop_first() == remembered_list(accounts.filter(other_account(id)))
        }),
{
    let pred = other_account(id);
    let f = accounts.filter(pred);
    let r = remembered(accounts, id, username, now);
    assert forall|i: int| 1 <= i < r.len() implies (#[trigger] r[i]).0 != id by {
        assert(r[i] == remembered_view(f[i - 1]));
        accounts.lemma_filter_pred(pred, i - 1);
    }
    assert(r.drop_first() =~= remembered_list(f));
}

/// Whether no two remembered accounts share an id.
pub open spec fn distinct_remembered(s: Seq<RememberedAccount>) -> bool {
    forall|i: int, j: int| 0 <= i < j < s.len() ==> (#[trigger] s[i]).account_id@ != (#[trigger] s[j]).account_id@
}

/// Whether no two entries of a remembered list share an id.
pub open spec fn distinct_ids(r: Seq<(Seq<char>, Seq<char>, u64, Option<u64>, Option<bool>)>) -> bool {
    forall|i: int, j: int| 0 <= i < j < r.len() ==> (#[trigger] r[i]).0 != (#[trigger] r[j]).0
}

proof fn lemma_filter_distinct(s: Seq<RememberedAccount>, id: Seq<char>)
    requires
        distinct_remembered(s),
    ensures
        distinct_remembered(s.filter(other_account(id))),
        forall|i: int| 0 <= i < s.filter(other_account(id)).len() ==> exists|j: int| 0 <= j < s.len() && s[j] == #[trigger] s.filter(other_account(id))[i],
        s.filter(other_account(id)).len() == s.len() - (if first_remembered(s, id) is Some { 1int } else { 0int }),
    decreases s.len(),
{
    reveal(Seq::filter);
    lemma_first_remembered(s, id);
    let pred = other_account(id);
    if s.len() > 0 {
        let d = s.drop_last();
        assert(distinct_remembered(d)) by {
            assert forall|i: int, j: int| 0 <= i < j < d.len() implies (#[trigger] d[i]).account_id@ != (#[trigger] d[j]).account_id@ by {
                assert(d[i] == s[i] && d[j] == s[j]);
            }
        }
        lemma_filter_distinct(d, id);
        lemma_first_remembered(d, id);
        let fd = d.filter(pred);
        let f = s.filter(pred);
        let last = s.last();
        assert(forall|j: int| 0 <= j < d.len() ==> d[j] == s[j]);
        if last.account_id@ == id {
            assert(f == fd);
            assert(first_remembered(d, id) is None) by {
                if let Some(k) = first_remembered(d, id) {
                    assert(s[k].account_id@ == s[s.len() - 1].account_id@);
                }
            }
            assert(first_remembered(s, id) is Some);
        } else {
            assert(f == fd.push(last));
            assert((first_remembered(s, id) is Some) == (first_remembered(d, id) is Some)) by {
                if let Some(k) = first_remembered(s, id) {
                    assert(k < s.len() - 1);
                    assert(d[k].account_id@ == id);
                }
            }
            assert forall|i: int| 0 <= i < f.len() implies exists|j: int| 0 <= j < s.len() && s[j] == #[trigger] f[i] by {
                if i < fd.len() {
                    assert(f[i] == fd[i]);
                    let j = choose|j: int| 0 <= j < d.len() && d[j] == fd[i];
                    assert(s[j] == f[i]);
                } else {
                    assert(s[s.len() - 1] == f[i]);
                }
            }
            assert forall|i: int, j: int| 0 <= i < j < f.len() implies (#[trigger] f[i]).account_id@ != (#[trigger] f[j]).account_id@ by {
                if j < fd.len() {
                    assert(f[i] == fd[i] && f[j] == fd[j]);
                } else {
                    assert(f[i] == fd[i]);
                    let k = choose|k: int| 0 <= k < d.len() && d[k] == fd[i];
                    assert(s[k] == f[i]);
                    assert(f[j] == s[s.len() - 1]);
                }
            }
        }
    }
}

/// Remembering an account keeps account ids distinct, and the list grows by
/// one entry when the account was not yet remembered and stays as long when
/// it was.
pub proof fn lemma_remember_keeps_ids_distinct(accounts: Seq<RememberedAccount>, id: Seq<char>, username: Seq<char>, now: u64)
    requires
        distinct_remembered(accounts),
    ensures
        distinct_ids(remembered(accounts, id, username, now)),
        remembered(accounts, id, username, now).len() == accounts.len() + (if first_remembered(accounts, id) is Some { 0int } else { 1int }),
        (exists|i: int| 0 <= i < accounts.len() && (#[trigger] accounts[i]).account_id@ == id) == (first_remembered(accounts, id) is Some),
{
    lemma_first_remembered(accounts, id);
    lemma_filter_distinct(accounts, id);
    lemma_remembered_shape(accounts, id, username, now);
    let pred = other_account(id);
    let f = accounts.filter(pred);
    let r = remembered(accounts, id, username, now);
    assert forall|i: int, j: int| 0 <= i < j < r.len() implies (#[trigger] r[i]).0 != (#[trigger] r[j]).0 by {
        if i > 0 {
            assert(r[i] == remembered_view(f[i - 1]));
            assert(r[j] == remembered_view(f[j - 1]));
        }
    }
}

/// Remembering an account a second time, at the same time and under the same
/// name, leaves the list as the first time left it.
pub proof fn lemma_remember_idempotent(accounts: Seq<RememberedAccount>, once: Seq<RememberedAccount>, id: Seq<char>, username: Seq<char>, now: u64)
    requires
        remembered_list(once) == remembered(accounts, id, username, now),
    ensures
        remembered(once, id, username, now) == remembered(accounts, id, username, now),
{
    let pred = other_account(id);
    let f = accounts.filter(pred);
    lemma_remembered_shape(accounts, id, username, now);
    let r = remembered(accounts, id, username, now);
    assert(once.len() == r.len());
    assert(remembered_view(once[0]) == r[0]);
    assert(first_remembered(once, id) == Some(0int));
    assert forall|i: int| 0 <= i < once.drop_first().len() implies pred(#[trigger] once.drop_first()[i]) by {
        assert(remembered_view(once[i + 1]) == r[i + 1]);
    }
    lemma_filter_keeps_all(once.drop_first(), pred);
    lemma_filter_skips_first(once, pred);
    assert(remembered_list(once.drop_first()) =~= r.drop_first());
    assert(remembered(once, id, username, now) =~= r);
}

/// A registered local account.
pub struct AccountRecord {
    pub account_id: String,
    pub username: String,
    pub salt: Vec<u8>,
    pub password_hash: Vec<u8>,
}

/// A username as accounts store it: trimmed, then lowercased.
pub open spec fn normal_username(username: Seq<char>) -> Seq<char> {
    unicode_lowercase(trim_chars(username))
}

/// The username as accounts store it.
pub fn normalize_username(username: &str) -> (r: String)
    ensures
        r@ == normal_username(username@),
{
    to_lowercase(trim(username))
}

/// The index of the first account whose username is `username`.
pub open spec fn first_with_username(accounts: Seq<AccountRecord>, username: Seq<char>) -> Option<int> {
    if exists|i: int| 0 <= i < accounts.len() && (#[trigger] accounts[i]).username@ == username {
        Some(choose|i: int| {
            &&& 0 <= i < accounts.len()
            &&& (#[trigger] accounts[i]).username@ == username
            &&& forall|j: int| 0 <= j < i ==> (#[trigger] accounts[j]).username@ != username
        })
    } else {
        None
    }
}

/// The index of the first account whose id is `id`.
pub open spec fn first_with_id(accounts: Seq<AccountRecord>, id: Seq<char>) -> Option<int> {
    if exists|i: int| 0 <= i < accounts.len() && (#[trigger] accounts[i]).account_id@ == id {
        Some(choose|i: int| {
            &&& 0 <= i < accounts.len()
            &&& (#[trigger] accounts[i]).account_id@ == id
            &&& forall|j: int| 0 <= j < i ==> (#[trigger] accounts[j]).account_id@ != id
        })
    } else {
        None
    }
}

/// Finds the first account named `username`.
pub fn find_account_by_username(accounts: &Vec<AccountRecord>, username: &str) -> (r: Option<usize>)
    ensures
        match r {
            Some(i) => i < accounts@.len() && accounts@[i as int].username@ == username@
                && forall|j: int| 0 <= j < i ==> (#[trigger] accounts@[j]).username@ != username@,
            None => forall|j: int| 0 <= j < accounts@.len() ==> (#[trigger] accounts@[j]).username@ != username@,
        },
        r matches Some(i) ==> first_with_username(accounts@, username@) == Some(i as int),
        r is None ==> first_with_username(accounts@, username@) is None,
{
    let mut i: usize = 0;
    while i < accounts.len()
        invariant
            i <= accounts@.len(),
            forall|j: int| 0 <= j < i ==> (#[trigger] accounts@[j]).username@ != username@,
        decreases accounts@.len() - i,
    {
        if same_text(accounts[i].username.as_str(), username) {
            proof {
                let w = choose|k: int| {
                    &&& 0 <= k < accounts@.len()
                    &&& (#[trigger] accounts@[k]).username@ == username@
                    &&& forall|j: int| 0 <= j < k ==> (#[trigger] accounts@[j]).username@ != username@
                };
                assert(0 <= i < accounts@.len() && accounts@[i as int].username@ == username@ && forall|j: int| 0 <= j < i ==> (#[trigger] accounts@[j]).username@ != username@);
                assert(w == i) by {
                    if w < i {
                        assert(accounts@[w].username@ != username@);
                    } else if w > i {
                        assert(accounts@[i as int].username@ != username@);
                    }
                }
            }
            return Some(i);
        }
        i = i + 1;
    }
    None
}

/// Finds the first account with id `account_id`.
pub fn find_account_by_id(accounts: &Vec<AccountRecord>, account_id: &str) -> (r: Option<usize>)
    ensures
        match r {
            Some(i) => i < accounts@.len() && accounts@[i as int].account_id@ == account_id@
                && forall|j: int| 0 <= j < i ==> (#[trigger] accounts@[j]).account_id@ != account_id@,
            None => forall|j: int| 0 <= j < accounts@.len() ==> (#[trigger] accounts@[j]).account_id@ != account_id@,
        },
        r matches Some(i) ==> first_with_id(accounts@, account_id@) == Some(i as int),
        r is None ==> first_with_id(accounts@, account_id@) is None,
{
    let mut i: usize = 0;
    while i < accounts.len()
        invariant
            i <= accounts@.len(),
            forall|j: int| 0 <= j < i ==> (#[trigger] accounts@[j]).account_id@ != account_id@,
        decreases accounts@.len() - i,
    {
        if same_text(accounts[i].account_id.as_str(), account_id) {
            proof {
                let w = choose|k: int| {
                    &&& 0 <= k < accounts@.len()
                    &&& (#[trigger] accounts@[k]).account_id@ == account_id@
                    &&& forall|j: int| 0 <= j < k ==> (#[trigger] accounts@[j]).account_id@ != account_id@
                };
                assert(0 <= i < accounts@.len() && accounts@[i as int].account_id@ == account_id@ && forall|j: int| 0 <= j < i ==> (#[trigger] accounts@[j]).account_id@ != account_id@);
                assert(w == i) by {
                    if w < i {
                        assert(accounts@[w].account_id@ != account_id@);
                    } else if w > i {
                        assert(accounts@[i as int].account_id@ != account_id@);
                    }
                }
            }
            return Some(i);
        }
        i = i + 1;
    }
    None
}

/// What registering `username` (already normalized) with `password` is
/// answered: refused for an empty name or a password under 8 bytes, or for a
/// name already taken.
pub open spec fn registration_result(accounts: Seq<AccountRecord>, username: Seq<char>, password: Seq<char>) -> Result<(), Seq<char>> {
    if username.len() == 0 || encode_utf8(password).len() < 8 {
        Err("账户名不能为空，密码至少需要 8 个字符"@)
    } else if first_with_username(accounts, username) is Some {
        Err("账户已存在，请直接登录"@)
    } else {
        Ok(())
    }
}

/// Checks that `username` (already normalized) may register with `password`.
pub fn check_registration(accounts: &Vec<AccountRecord>, username: &str, password: &str) -> (r: Result<(), String>)
    ensures
        match r {
            Ok(()) => registration_result(accounts@, username@, password@) == Ok::<(), Seq<char>>(()),
            Err(e) => registration_result(accounts@, username@, password@) == Err::<(), Seq<char>>(e@),
        },
{
    check_registration_input(username, password)?;
    match find_account_by_username(accounts, username) {
        Some(_) => Err(String::from_str("账户已存在，请直接登录")),
        None => Ok(()),
    }
}

/// What the name and password of a registration are answered before any
/// account is looked at: refused for an empty name or a password under 8 bytes.
pub open spec fn registration_input_result(username: Seq<char>, password: Seq<char>) -> Result<(), Seq<char>> {
    if username.len() == 0 || encode_utf8(password).len() < 8 {
        Err("账户名不能为空，密码至少需要 8 个字符"@)
    } else {
        Ok(())
    }
}

/// Checks the name (already normalized) and password of a registration.
pub fn check_registration_input(username: &str, password: &str) -> (r: Result<(), String>)
    ensures
        match r {
            Ok(()) => registration_input_result(username@, password@) == Ok::<(), Seq<char>>(()),
            Err(e) => registration_input_result(username@, password@) == Err::<(), Seq<char>>(e@),
        },
{
    if username.is_empty() || password.as_bytes().len() < 8 {
        Err(String::from_str("账户名不能为空，密码至少需要 8 个字符"))
    } else {
        Ok(())
    }
}

/// Whether no two accounts share a username.
pub open spec fn distinct_usernames(s: Seq<AccountRecord>) -> bool {
    forall|i: int, j: int| 0 <= i < j < s.len() ==> (#[trigger] s[i]).username@ != (#[trigger] s[j]).username@
}

/// Whether `after` is `before` with one more account at its end: named
/// `username`, with id `account_id`, `salt`, and the hash of `password`.
pub open spec fn appended_account(before: Seq<AccountRecord>, after: Seq<AccountRecord>, username: Seq<char>, password: Seq<char>, account_id: Seq<char>, salt: Seq<u8>) -> bool {
    &&& after.len() == before.len() + 1
    &&& after.drop_last() == before
    &&& after.last().username@ == username
    &&& after.last().account_id@ == account_id
    &&& after.last().salt@ == salt
    &&& account_hash(password, salt) == Ok::<Seq<u8>, Seq<char>>(after.last().password_hash@)
}

/// Adds the account `username` (already normalized) with `password`, the id
/// `account_id` and `salt`, unless the name is taken or the password cannot
/// be hashed; a refused account leaves `accounts` as it was.
pub fn add_account(accounts: &mut Vec<AccountRecord>, username: String, password: &str, account_id: String, salt: Vec<u8>) -> (r: Result<(), String>)
    ensures
        match r {
            Ok(()) => first_with_username(old(accounts)@, username@) is None
                && appended_account(old(accounts)@, final(accounts)@, username@, password@, account_id@, salt@),
            Err(e) => final(accounts)@ == old(accounts)@ && if first_with_username(old(accounts)@, username@) is Some {
                e@ == "账户已存在，请直接登录"@
            } else {
                account_hash(password@, salt@) == Err::<Seq<u8>, Seq<char>>(e@)
            },
        },
{
    if find_account_by_username(accounts, username.as_str()).is_some() {
        return Err(String::from_str("账户已存在，请直接登录"));
    }
    let hash = derive_account_hash(password, salt.as_slice())?;
    let mut password_hash: Vec<u8> = Vec::new();
    password_hash.extend_from_slice(hash.as_slice());
    let ghost before = accounts@;
    accounts.push(AccountRecord { account_id, username, salt, password_hash });
    proof {
        assert(accounts@.drop_last() =~= before);
        assert(accounts@.last().password_hash@ =~= hash@);
    }
    Ok(())
}

/// Registering keeps usernames distinct.
pub proof fn lemma_registration_keeps_usernames_distinct(before: Seq<AccountRecord>, after: Seq<AccountRecord>, username: Seq<char>, password: Seq<char>, account_id: Seq<char>, salt: Seq<u8>)
    requires
        distinct_usernames(before),
        first_with_username(before, username) is None,
        appended_account(before, after, username, password, account_id, salt),
    ensures
        distinct_usernames(after),
{
    assert forall|i: int, j: int| 0 <= i < j < after.len() implies (#[trigger] after[i]).username@ != (#[trigger] after[j]).username@ by {
        assert(after[i] == before[i]);
        if j < before.len() {
            assert(after[j] == before[j]);
        } else {
            assert(after[j] == after.last());
            assert(!(0 <= i < before.len() && (#[trigger] before[i]).username@ == username));
        }
    }
}

/// An account registered with a password signs in with it under any name
/// that normalizes to its username: the lookup finds it and the password is
/// accepted.
pub proof fn lemma_registered_account_signs_in(before: Seq<AccountRecord>, after: Seq<AccountRecord>, username: Seq<char>, password: Seq<char>, account_id: Seq<char>, salt: Seq<u8>, login_name: Seq<char>)
    requires
        first_with_username(before, username) is None,
        appended_account(before, after, username, password, account_id, salt),
        account_id.len() > 0,
        normal_username(login_name) == username,
    ensures
        first_with_username(after, normal_username(login_name)) == Some(before.len() as int),
        login_result(after[before.len() as int], password) == Ok::<(), Seq<char>>(()),
{
    let n = before.len() as int;
    assert(after[n] == after.last());
    assert forall|j: int| 0 <= j < n implies (#[trigger] after[j]).username@ != username by {
        assert(after[j] == before[j]);
        assert(!(0 <= j < before.len() && (#[trigger] before[j]).username@ == username));
    }
    assert(0 <= n < after.len() && after[n].username@ == username && forall|j: int| 0 <= j < n ==> (#[trigger] after[j]).username@ != username);
    let w = choose|k: int| {
        &&& 0 <= k < after.len()
        &&& (#[trigger] after[k]).username@ == username
        &&& forall|j: int| 0 <= j < k ==> (#[trigger] after[j]).username@ != username
    };
    assert(w == n) by {
        if w < n {
            assert(after[w].username@ != username);
        }
    }
}

/// The Argon2id memory cost of account password hashes, in KiB.
pub const ACCOUNT_MEM_COST_KIB: u32 = 65_536;

/// The Argon2id time cost of account password hashes.
pub const ACCOUNT_TIME_COST: u32 = 3;

/// The Argon2id lanes of account password hashes.
pub const ACCOUNT_PARALLELISM: u32 = 1;

/// The length of account salts.
pub const ACCOUNT_SALT_LEN: usize = 16;

/// What hashing an account password with `salt` gives: the hash, or the
/// error text.
pub open spec fn account_hash(password: Seq<char>, salt: Seq<u8>) -> Result<Seq<u8>, Seq<char>> {
    match argon2_input_error(encode_utf8(password).len(), salt.len()) {
        Some(e) => Err("账户密码哈希失败: "@ + e),
        None => Ok(argon2id_v13(encode_utf8(password), salt, ACCOUNT_MEM_COST_KIB, ACCOUNT_TIME_COST, ACCOUNT_PARALLELISM)),
    }
}

/// Hashes an account password with `salt`.
pub fn derive_account_hash(password: &str, salt: &[u8]) -> (r: Result<[u8; 32], String>)
    ensures
        r matches Ok(h) ==> h@ == argon2id_v13(encode_utf8(password@), salt@, 65536, 3, 1),
        r is Ok <==> (encode_utf8(password@).len() <= 0xFFFF_FFFF && 8 <= salt@.len() <= 0xFFFF_FFFF),
        match r {
            Ok(h) => account_hash(password@, salt@) == Ok::<Seq<u8>, Seq<char>>(h@),
            Err(e) => account_hash(password@, salt@) == Err::<Seq<u8>, Seq<char>>(e@),
        },
{
    match argon2id_hash(password.as_bytes(), salt, ACCOUNT_MEM_COST_KIB, ACCOUNT_TIME_COST, ACCOUNT_PARALLELISM) {
        Ok(h) => Ok(h),
        Err(Argon2Failure::Params(e)) => {
            let mut msg = String::from_str("账户 KDF 参数错误: ");
            msg.append(e.as_str());
            Err(msg)
        },
        Err(Argon2Failure::Hash(e)) => {
            let mut msg = String::from_str("账户密码哈希失败: ");
            msg.append(e.as_str());
            Err(msg)
        },
    }
}

/// What signing in to `account` with `password` is answered: refused when
/// the password's hash differs from the stored one, or when the record has
/// no id.
pub open spec fn login_result(account: AccountRecord, password: Seq<char>) -> Result<(), Seq<char>> {
    match account_hash(password, account.salt@) {
        Err(e) => Err(e),
        Ok(h) => if h != account.password_hash@ {
            Err("密码错误：请重新输入"@)
        } else if account.account_id@.len() == 0 {
            Err("账户记录缺少 account_id；请重新注册"@)
        } else {
            Ok(())
        },
    }
}

/// Whether two byte strings are equal.
fn same_bytes(a: &[u8], b: &[u8]) -> (r: bool)
    ensures
        r == (a@ == b@),
{
    if a.len() != b.len() {
        return false;
    }
    let mut i: usize = 0;
    while i < a.len()
        invariant
            a@.len() == b@.len(),
            i <= a@.len(),
            forall|k: int| 0 <= k < i ==> a@[k] == b@[k],
        decreases a@.len() - i,
    {
        if a[i] != b[i] {
            return false;
        }
        i = i + 1;
    }
    assert(a@ =~= b@);
    true
}

/// Signs in to `account` with `password`.
pub fn verify_login(account: &AccountRecord, password: &str) -> (r: Result<(), String>)
    ensures
        match r {
            Ok(()) => login_result(*account, password@) == Ok::<(), Seq<char>>(()),
            Err(e) => login_result(*account, password@) == Err::<(), Seq<char>>(e@),
        },
{
    let hash = derive_account_hash(password, account.salt.as_slice())?;
    if !same_bytes(hash.as_slice(), account.password_hash.as_slice()) {
        return Err(String::from_str("密码错误：请重新输入"));
    }
    if account.account_id.as_str().is_empty() {
        return Err(String::from_str("账户记录缺少 account_id；请重新注册"));
    }
    Ok(())
}

/// Finds the account to sign in to as `username` (already normalized).
pub fn find_login_account(accounts: &Vec<AccountRecord>, username: &str) -> (r: Result<usize, String>)
    ensures
        match r {
            Ok(i) => first_with_username(accounts@, username@) == Some(i as int) && i < accounts@.len()
                && accounts@[i as int].username@ == username@
                && forall|j: int| 0 <= j < i ==> (#[trigger] accounts@[j]).username@ != username@,
            Err(e) => first_with_username(accounts@, username@) is None && e@ == "账户不存在：请先注册或检查账户名"@
                && forall|j: int| 0 <= j < accounts@.len() ==> (#[trigger] accounts@[j]).username@ != username@,
        },
{
    match find_account_by_username(accounts, username) {
        Some(i) => Ok(i),
        None => Err(String::from_str("账户不存在：请先注册或检查账户名")),
    }
}

/// What a quick sign-in to account `id` is answered: the account's index,
/// or a refusal when it no longer exists or is not remembered here.
pub open spec fn quick_login_result(accounts: Seq<AccountRecord>, remembered: Seq<RememberedAccount>, id: Seq<char>) -> Result<int, Seq<char>> {
    match first_with_id(accounts, id) {
        None => Err("快捷登录账户已不存在，请使用密码登录"@),
        Some(i) => if first_remembered(remembered, id) is None {
            Err("该账户没有本地会话记录，请使用密码登录"@)
        } else {
            Ok(i)
        },
    }
}

/// Finds the account for a quick sign-in to `account_id`.
pub fn check_quick_login(accounts: &Vec<AccountRecord>, remembered: &Vec<RememberedAccount>, account_id: &str) -> (r: Result<usize, String>)
    ensures
        match r {
            Ok(i) => quick_login_result(accounts@, remembered@, account_id@) == Ok::<int, Seq<char>>(i as int) && i < accounts@.len()
                && accounts@[i as int].account_id@ == account_id@
                && (forall|j: int| 0 <= j < i ==> (#[trigger] accounts@[j]).account_id@ != account_id@)
                && exists|k: int| 0 <= k < remembered@.len() && (#[trigger] remembered@[k]).account_id@ == account_id@,
            Err(e) => quick_login_result(accounts@, remembered@, account_id@) == Err::<int, Seq<char>>(e@),
        },
{
    let i = match find_account_by_id(accounts, account_id) {
        Some(i) => i,
        None => return Err(String::from_str("快捷登录账户已不存在，请使用密码登录")),
    };
    match find_remembered(remembered, account_id) {
        None => Err(String::from_str("该账户没有本地会话记录，请使用密码登录")),
        Some(_) => Ok(i),
    }
}

/// Gives every account without an id a fresh random one, and tells whether
/// any account was given one.
pub fn assign_missing_ids(accounts: &mut Vec<AccountRecord>) -> (r: Result<bool, String>)
    ensures
        final(accounts)@.len() == old(accounts)@.len(),
        forall|i: int| 0 <= i < old(accounts)@.len() ==> {
            let (a, b) = (old(accounts)@[i], #[trigger] final(accounts)@[i]);
            &&& b.username@ == a.username@
            &&& b.salt@ == a.salt@
            &&& b.password_hash@ == a.password_hash@
            &&& a.account_id@.len() > 0 ==> b.account_id@ == a.account_id@
        },
        match r {
            Ok(changed) => {
                &&& changed == exists|i: int| 0 <= i < old(accounts)@.len() && (#[trigger] old(accounts)@[i]).account_id@.len() == 0
                &&& forall|i: int| 0 <= i < old(accounts)@.len() && (#[trigger] old(accounts)@[i]).account_id@.len() == 0
                    ==> exists|b: Seq<u8>| b.len() == 16 && final(accounts)@[i].account_id@ == hex_lower(b)
            },
            Err(_) => exists|i: int| 0 <= i < old(accounts)@.len() && (#[trigger] old(accounts)@[i]).account_id@.len() == 0,
        },
{
    let ghost before = accounts@;
    let mut changed = false;
    let mut i: usize = 0;
    while i < accounts.len()
        invariant
            before == old(accounts)@,
            accounts@.len() == before.len(),
            i <= before.len(),
            forall|k: int| 0 <= k < before.len() ==> {
                let (a, b) = (before[k], #[trigger] accounts@[k]);
                &&& b.username@ == a.username@
                &&& b.salt@ == a.salt@
                &&& b.password_hash@ == a.password_hash@
                &&& (a.account_id@.len() > 0 || k >= i) ==> b.account_id@ == a.account_id@
            },
            changed == exists|k: int| 0 <= k < i && (#[trigger] before[k]).account_id@.len() == 0,
            forall|k: int| 0 <= k < i && (#[trigger] before[k]).account_id@.len() == 0
                ==> exists|b: Seq<u8>| b.len() == 16 && accounts@[k].account_id@ == hex_lower(b),
        decreases before.len() - i,
    {
        if accounts[i].account_id.as_str().is_empty() {
            let id = random_id()?;
            accounts[i].account_id = id;
            changed = true;
            proof {
                assert(before[i as int].account_id@.len() == 0);
            }
        }
        i = i + 1;
    }
    Ok(changed)
}

/// The vault that is unlocked and its DEK, or a refusal when none is.
pub fn required_session<'a>(unlocked_vault: &'a Option<String>, dek: Option<&'a [u8; 32]>) -> (r: Result<(&'a str, &'a [u8; 32]), String>)
    ensures
        match r {
            Ok((v, d)) => unlocked_vault matches Some(u) && v@ == u@ && dek == Some(d),
            Err(e) => (unlocked_vault is None || dek is None) && e@ == "请先解锁 vault"@,
        },
{
    match unlocked_vault {
        None => Err(String::from_str("请先解锁 vault")),
        Some(v) => match dek {
            None => Err(String::from_str("请先解锁 vault")),
            Some(d) => Ok((v.as_str(), d)),
        },
    }
}

/// Accepts a master password only when the DEK it unwraps is the DEK of the
/// unlocked vault.
pub fn confirm_dek(unwrapped: &[u8; 32], active: &[u8; 32]) -> (r: Result<(), String>)
    ensures
        match r {
            Ok(()) => unwrapped@ == active@,
            Err(e) => unwrapped@ != active@ && e@ == "主密码验证失败"@,
        },
{
    if same_bytes(unwrapped.as_slice(), active.as_slice()) {
        Ok(())
    } else {
        Err(String::from_str("主密码验证失败"))
    }
}

/// How many seconds a revealed password stays shown when nothing is set.
pub const DEFAULT_REVEAL_SECONDS: u8 = 10;

/// The value set for `key`, the last entry for it winning.
pub open spec fn lookup(entries: Seq<(String, u8)>, key: Seq<char>) -> Option<u8>
    decreases entries.len(),
{
    if entries.len() == 0 {
        None
    } else if entries.last().0@ == key {
        Some(entries.last().1)
    } else {
        lookup(entries.drop_last(), key)
    }
}

/// Per-account settings of how long a revealed password stays shown.
pub struct RevealSettings {
    entries: Vec<(String, u8)>,
}

impl View for RevealSettings {
    type V = Map<Seq<char>, u8>;

    closed spec fn view(&self) -> Map<Seq<char>, u8> {
        Map::new(|k: Seq<char>| lookup(self.entries@, k) is Some, |k: Seq<char>| lookup(self.entries@, k)->0)
    }
}

/// The seconds a revealed password stays shown for `account_id` under `settings`.
pub open spec fn reveal_seconds(settings: Map<Seq<char>, u8>, account_id: Seq<char>) -> u8 {
    if settings.contains_key(account_id) {
        settings[account_id]
    } else {
        DEFAULT_REVEAL_SECONDS
    }
}

proof fn lemma_lookup_take(entries: Seq<(String, u8)>, key: Seq<char>, j: int)
    requires
        0 <= j <= entries.len(),
        forall|i: int| j <= i < entries.len() ==> (#[trigger] entries[i]).0@ != key,
    ensures
        lookup(entries, key) == lookup(entries.take(j), key),
    decreases entries.len() - j,
{
    if j < entries.len() {
        lemma_lookup_take(entries, key, j + 1);
        assert(entries.take(j + 1).drop_last() =~= entries.take(j));
    } else {
        assert(entries.take(j) =~= entries);
    }
}

/// Whether no entry after index `j` is for `key`.
pub open spec fn none_after(entries: Seq<(String, u8)>, j: int, key: Seq<char>) -> bool {
    forall|i: int| j < i < entries.len() ==> (#[trigger] entries[i]).0@ != key
}

proof fn lemma_lookup_update(entries: Seq<(String, u8)>, j: int, key: Seq<char>, value: u8, k: Seq<char>)
    requires
        0 <= j < entries.len(),
        entries[j].0@ == key,
    ensures
        lookup(entries.update(j, (entries[j].0, value)), k) == if k == key && none_after(entries, j, key) {
            Some(value)
        } else {
            lookup(entries, k)
        },
    decreases entries.len(),
{
    let n = entries.len();
    let u = entries.update(j, (entries[j].0, value));
    if j < n - 1 {
        let d = entries.drop_last();
        lemma_lookup_update(d, j, key, value, k);
        assert(u.drop_last() =~= d.update(j, (d[j].0, value)));
        assert(u.last() == entries.last());
        if k == entries.last().0@ {
            if k == key {
                assert(entries[n - 1].0@ == key);
                assert(!none_after(entries, j, key));
            }
        } else {
            if k == key {
                assert(none_after(entries, j, key) == none_after(d, j, key)) by {
                    if none_after(d, j, key) {
                        assert forall|i: int| j < i < entries.len() implies (#[trigger] entries[i]).0@ != key by {
                            if i < n - 1 {
                                assert(d[i] == entries[i]);
                            }
                        }
                    }
                    if none_after(entries, j, key) {
                        assert forall|i: int| j < i < d.len() implies (#[trigger] d[i]).0@ != key by {
                            assert(d[i] == entries[i]);
                        }
                    }
                }
            }
        }
    } else {
        assert(u.drop_last() =~= entries.drop_last());
    }
}

impl RevealSettings {
    /// No settings: every account gets the default.
    pub fn new() -> (r: Self)
        ensures
            r@ == Map::<Seq<char>, u8>::empty(),
    {
        let r = RevealSettings { entries: Vec::new() };
        assert(r@ =~= Map::<Seq<char>, u8>::empty());
        r
    }

    /// Settings from stored (account, seconds) entries; a later entry for an
    /// account replaces an earlier one.
    pub fn from_entries(entries: Vec<(String, u8)>) -> (r: Self)
        ensures
            forall|k: Seq<char>| #[trigger] r@.contains_key(k) == (lookup(entries@, k) is Some),
            forall|k: Seq<char>| r@.contains_key(k) ==> #[trigger] r@[k] == lookup(entries@, k)->0,
    {
        RevealSettings { entries }
    }

    /// The stored (account, seconds) entries.
    pub fn entries(&self) -> (r: &Vec<(String, u8)>)
        ensures
            forall|k: Seq<char>| #[trigger] self@.contains_key(k) == (lookup(r@, k) is Some),
            forall|k: Seq<char>| self@.contains_key(k) ==> #[trigger] self@[k] == lookup(r@, k)->0,
    {
        &self.entries
    }

    /// How many seconds a revealed password stays shown for `account_id`.
    pub fn reveal_seconds_for(&self, account_id: &str) -> (r: u8)
        ensures
            r == reveal_seconds(self@, account_id@),
    {
        match self.last_index_of(account_id) {
            Some(j) => self.entries[j].1,
            None => DEFAULT_REVEAL_SECONDS,
        }
    }

    /// The index of the last entry for `key`.
    fn last_index_of(&self, key: &str) -> (r: Option<usize>)
        ensures
            match r {
                Some(j) => j < self.entries@.len() && self.entries@[j as int].0@ == key@
                    && (forall|i: int| j < i < self.entries@.len() ==> (#[trigger] self.entries@[i]).0@ != key@)
                    && lookup(self.entries@, key@) == Some(self.entries@[j as int].1),
                None => lookup(self.entries@, key@) is None,
            },
    {
        let mut j: usize = self.entries.len();
        while j > 0
            invariant
                j <= self.entries@.len(),
                forall|i: int| j <= i < self.entries@.len() ==> (#[trigger] self.entries@[i]).0@ != key@,
            decreases j,
        {
            if same_text(self.entries[j - 1].0.as_str(), key) {
                proof {
                    lemma_lookup_take(self.entries@, key@, j as int);
                    assert(self.entries@.take(j as int).last() == self.entries@[j - 1]);
                }
                return Some(j - 1);
            }
            j = j - 1;
        }
        proof {
            lemma_lookup_take(self.entries@, key@, 0);
        }
        None
    }

    /// Sets how many seconds a revealed password stays shown for
    /// `account_id`; only 1 to 60 seconds are accepted.
    pub fn set_reveal_seconds(&mut self, account_id: &str, seconds: u8) -> (r: Result<u8, String>)
        ensures
            match r {
                Ok(s) => 1 <= seconds <= 60 && s == seconds && final(self)@ == old(self)@.insert(account_id@, seconds),
                Err(e) => !(1 <= seconds <= 60) && e@ == "密码显示时间必须在 1 到 60 秒之间"@ && final(self)@ == old(self)@,
            },
    {
        check_reveal_seconds(seconds)?;
        let ghost before = self.entries@;
        match self.last_index_of(account_id) {
            Some(j) => {
                self.entries[j].1 = seconds;
                proof {
                    assert(self.entries@ == before.update(j as int, (before[j as int].0, seconds)));
                    assert forall|k: Seq<char>| #[trigger] lookup(self.entries@, k) == if k == account_id@ {
                        Some(seconds)
                    } else {
                        lookup(before, k)
                    } by {
                        lemma_lookup_update(before, j as int, account_id@, seconds, k);
                    }
                }
            },
            None => {
                self.entries.push((String::from_str(account_id), seconds));
                proof {
                    assert(self.entries@.drop_last() =~= before);
                }
            },
        }
        assert(self@ =~= old(self)@.insert(account_id@, seconds));
        Ok(seconds)
    }
}

/// Accepts a reveal time of 1 to 60 seconds.
pub fn check_reveal_seconds(seconds: u8) -> (r: Result<u8, String>)
    ensures
        match r {
            Ok(s) => 1 <= seconds <= 60 && s == seconds,
            Err(e) => !(1 <= seconds <= 60) && e@ == "密码显示时间必须在 1 到 60 秒之间"@,
        },
{
    if 1 <= seconds && seconds <= 60 {
        Ok(seconds)
    } else {
        Err(String::from_str("密码显示时间必须在 1 到 60 秒之间"))
    }
}

/// A setting reads back as it was last set, and setting one account's
/// reveal time leaves every other account's as it was.
pub proof fn lemma_reveal_setting_read_back(settings: Map<Seq<char>, u8>, account_id: Seq<char>, seconds: u8, other: Seq<char>)
    requires
        other != account_id,
    ensures
        reveal_seconds(settings.insert(account_id, seconds), account_id) == seconds,
        reveal_seconds(settings.insert(account_id, seconds), other) == reveal_seconds(settings, other),
{
}

/// Whether vault `vault_id` is the one unlocked.
pub fn is_unlocked_vault(unlocked_vault: &Option<String>, vault_id: &str) -> (r: bool)
    ensures
        r == (unlocked_vault matches Some(u) && u@ == vault_id@),
{
    match unlocked_vault {
        Some(u) => same_text(u.as_str(), vault_id),
        None => false,
    }
}

/// An account password hashes to Argon2id (v0x13, 64 MiB, 3 passes, one
/// lane) of the password's own UTF-8 bytes with the account's salt; the
/// password is not altered first, so two passwords hash alike only where
/// Argon2id of their bytes does.
pub proof fn lemma_account_hash_of_exact_password(password: Seq<char>, salt: Seq<u8>)
    ensures
        encode_utf8(password).len() <= 0xFFFF_FFFF && 8 <= salt.len() <= 0xFFFF_FFFF
            ==> account_hash(password, salt) == Ok::<Seq<u8>, Seq<char>>(argon2id_v13(encode_utf8(password), salt, 65536, 3, 1)),
        salt.len() < 8 && encode_utf8(password).len() <= 0xFFFF_FFFF
            ==> account_hash(password, salt) == Err::<Seq<u8>, Seq<char>>("账户密码哈希失败: "@ + "salt is too short"@),
{
}

/// A stored account accepts at sign-in exactly the passwords whose hash
/// with its salt is its stored hash (given a non-empty id), so a password
/// differing from the registered one is refused unless its Argon2id value
/// coincides.
pub proof fn lemma_login_needs_matching_hash(account: AccountRecord, password: Seq<char>)
    requires
        account.account_id@.len() > 0,
        encode_utf8(password).len() <= 0xFFFF_FFFF,
        8 <= account.salt@.len() <= 0xFFFF_FFFF,
    ensures
        (login_result(account, password) is Ok) == (argon2id_v13(encode_utf8(password), account.salt@, 65536, 3, 1) == account.password_hash@),
        argon2id_v13(encode_utf8(password), account.salt@, 65536, 3, 1) != account.password_hash@
            ==> login_result(account, password) == Err::<(), Seq<char>>("密码错误：请重新输入"@),
{
}

} // verus!
