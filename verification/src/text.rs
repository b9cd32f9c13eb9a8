//! Text helpers: Unicode whitespace trimming, blank checks and hexadecimal
//! encoding, each proved against a short specification.

use vstd::prelude::*;
use vstd::string::*;
use vstd::utf8::*;

verus! {

/// Whether `c` has the Unicode `White_Space` property, which is what
/// `char::is_whitespace` tests.
pub open spec fn is_white_space(c: char) -> bool {
    let u = c as u32;
    ||| 0x09 <= u <= 0x0D
    ||| u == 0x20
    ||| u == 0x85
    ||| u == 0xA0
    ||| u == 0x1680
    ||| 0x2000 <= u <= 0x200A
    ||| u == 0x2028
    ||| u == 0x2029
    ||| u == 0x202F
    ||| u == 0x205F
    ||| u == 0x3000
}

/// `s` with its leading whitespace removed (`str::trim_start`).
pub open spec fn trim_start_chars(s: Seq<char>) -> Seq<char>
    decreases s.len(),
{
    if s.len() > 0 && is_white_space(s[0]) {
        trim_start_chars(s.drop_first())
    } else {
        s
    }
}

/// `s` with its trailing whitespace removed (`str::trim_end`).
pub open spec fn trim_end_chars(s: Seq<char>) -> Seq<char>
    decreases s.len(),
{
    if s.len() > 0 && is_white_space(s.last()) {
        trim_end_chars(s.drop_last())
    } else {
        s
    }
}

/// `s` with leading and trailing whitespace removed (`str::trim`).
pub open spec fn trim_chars(s: Seq<char>) -> Seq<char> {
    trim_end_chars(trim_start_chars(s))
}

/// Whether `s` is empty once trimmed: it holds nothing but whitespace.
pub open spec fn is_blank_chars(s: Seq<char>) -> bool {
    trim_chars(s).len() == 0
}

/// Whether `s` is `Some` text that is not blank.
pub open spec fn is_present(s: Option<String>) -> bool {
    s matches Some(v) && !is_blank_chars(v@)
}

/// Whether `s` is `Some` text that is not empty (whitespace counts as text).
pub open spec fn is_filled(s: Option<String>) -> bool {
    s matches Some(v) && v@.len() > 0
}

/// The lowercase hexadecimal digit for `n` (below 16).
pub open spec fn hex_digit(n: int) -> char {
    if n < 10 {
        (48 + n) as char
    } else {
        (87 + n) as char
    }
}

/// Each byte as two lowercase hexadecimal digits, most significant first
/// (what `format!("{byte:02x}")` writes for every byte, concatenated).
pub open spec fn hex_lower(bytes: Seq<u8>) -> Seq<char>
    decreases bytes.len(),
{
    if bytes.len() == 0 {
        Seq::empty()
    } else {
        hex_lower(bytes.drop_last()) + seq![hex_digit(bytes.last() as int / 16), hex_digit(bytes.last() as int % 16)]
    }
}

/// Whether `c` is whitespace (`char::is_whitespace`).
pub fn char_is_whitespace(c: char) -> (b: bool)
    ensures
        b == is_white_space(c),
{
    let u = c as u32;
    (0x09 <= u && u <= 0x0D) || u == 0x20 || u == 0x85 || u == 0xA0 || u == 0x1680 || (0x2000 <= u
        && u <= 0x200A) || u == 0x2028 || u == 0x2029 || u == 0x202F || u == 0x205F || u == 0x3000
}

proof fn lemma_trim_start_skip(s: Seq<char>, i: int)
    requires
        0 <= i <= s.len(),
        forall|k: int| 0 <= k < i ==> is_white_space(#[trigger] s[k]),
    ensures
        trim_start_chars(s) == trim_start_chars(s.skip(i)),
    decreases i,
{
    if i > 0 {
        lemma_trim_start_skip(s, i - 1);
        assert(s.skip(i - 1).drop_first() =~= s.skip(i));
        assert(s.skip(i - 1)[0] == s[i - 1]);
    } else {
        assert(s.skip(0) =~= s);
    }
}

proof fn lemma_trim_end_take(s: Seq<char>, j: int)
    requires
        0 <= j <= s.len(),
        forall|k: int| j <= k < s.len() ==> is_white_space(#[trigger] s[k]),
    ensures
        trim_end_chars(s) == trim_end_chars(s.take(j)),
    decreases s.len() - j,
{
    if j < s.len() {
        lemma_trim_end_take(s, j + 1);
        assert(s.take(j + 1).drop_last() =~= s.take(j));
        assert(s.take(j + 1).last() == s[j]);
    } else {
        assert(s.take(j) =~= s);
    }
}

/// `s` with leading and trailing whitespace removed.
pub fn trim(s: &str) -> (r: &str)
    ensures
        r@ == trim_chars(s@),
{
    let n = s.unicode_len();
    let mut i: usize = 0;
    while i < n && char_is_whitespace(s.get_char(i))
        invariant
            n == s@.len(),
            i <= n,
            forall|k: int| 0 <= k < i ==> is_white_space(#[trigger] s@[k]),
        decreases n - i,
    {
        i = i + 1;
    }
    proof {
        lemma_trim_start_skip(s@, i as int);
        if i < n {
            assert(!is_white_space(s@.skip(i as int)[0]));
        }
        assert(trim_start_chars(s@) == s@.skip(i as int));
    }
    let ghost t = s@.skip(i as int);
    let mut j: usize = n;
    while j > i && char_is_whitespace(s.get_char(j - 1))
        invariant
            n == s@.len(),
            i <= j <= n,
            t == s@.skip(i as int),
            forall|k: int| j <= k < n ==> is_white_space(#[trigger] s@[k]),
        decreases j,
    {
        j = j - 1;
    }
    proof {
        assert forall|k: int| j - i <= k < t.len() implies is_white_space(#[trigger] t[k]) by {
            assert(t[k] == s@[k + i]);
        }
        lemma_trim_end_take(t, j - i);
        let w = t.take(j - i);
        if j > i {
            assert(w.last() == s@[j - 1]);
        }
        assert(trim_end_chars(w) == w);
        assert(w =~= s@.subrange(i as int, j as int));
    }
    s.substring_char(i, j)
}

/// Whether `s` holds nothing but whitespace (`s.trim().is_empty()`).
pub fn is_blank(s: &str) -> (b: bool)
    ensures
        b == is_blank_chars(s@),
{
    trim(s).is_empty()
}

/// `value` when it is present and not blank.
pub fn nonempty(value: &Option<String>) -> (r: Option<&str>)
    ensures
        match r {
            Some(v) => is_present(*value) && v@ == value->0@,
            None => !is_present(*value),
        },
{
    match value {
        Some(v) => {
            if is_blank(v.as_str()) {
                None
            } else {
                Some(v.as_str())
            }
        },
        None => None,
    }
}

/// The bytes of `value` when it is present and not empty.
pub fn optional_bytes(value: &Option<String>) -> (r: Option<&[u8]>)
    ensures
        match r {
            Some(b) => is_filled(*value) && b@ == encode_utf8(value->0@),
            None => !is_filled(*value),
        },
{
    match value {
        Some(v) => {
            if v.as_str().is_empty() {
                None
            } else {
                Some(v.as_str().as_bytes())
            }
        },
        None => None,
    }
}

/// The lowercase hexadecimal text of `bytes`.
pub fn to_hex_lower(bytes: &[u8]) -> (r: String)
    ensures
        r@ == hex_lower(bytes@),
{
    let digits = "0123456789abcdef";
    proof {
        reveal_strlit("0123456789abcdef");
        assert forall|k: int| 0 <= k < 16 implies #[trigger] digits@[k] == hex_digit(k) by {
        }
    }
    let mut r = String::new();
    let mut i: usize = 0;
    while i < bytes.len()
        invariant
            i <= bytes@.len(),
            digits@.len() == 16,
            is_ascii(digits),
            forall|k: int| 0 <= k < 16 ==> #[trigger] digits@[k] == hex_digit(k),
            r@ == hex_lower(bytes@.take(i as int)),
        decreases bytes@.len() - i,
    {
        let b = bytes[i];
        let hi = (b / 16) as usize;
        let lo = (b % 16) as usize;
        r.append(digits.substring_ascii(hi, hi + 1));
        r.append(digits.substring_ascii(lo, lo + 1));
        proof {
            let t = bytes@.take(i + 1);
            assert(t.drop_last() =~= bytes@.take(i as int));
            assert(t.last() == b);
            assert(digits@.subrange(hi as int, hi + 1) =~= seq![hex_digit(hi as int)]);
            assert(digits@.subrange(lo as int, lo + 1) =~= seq![hex_digit(lo as int)]);
        }
        i = i + 1;
    }
    proof {
        assert(bytes@.take(bytes@.len() as int) =~= bytes@);
    }
    r
}

/// Whether `a` and `b` hold the same characters.
pub fn same_text(a: &str, b: &str) -> (r: bool)
    ensures
        r == (a@ == b@),
{
    let x = a.as_bytes();
    let y = b.as_bytes();
    proof {
        encode_utf8_decode_utf8(a@);
        encode_utf8_decode_utf8(b@);
    }
    if x.len() != y.len() {
        return false;
    }
    let mut i: usize = 0;
    while i < x.len()
        invariant
            x@ == encode_utf8(a@),
            y@ == encode_utf8(b@),
            decode_utf8(x@) == a@,
            decode_utf8(y@) == b@,
            x@.len() == y@.len(),
            i <= x@.len(),
            forall|k: int| 0 <= k < i ==> x@[k] == y@[k],
        decreases x@.len() - i,
    {
        if x[i] != y[i] {
            return false;
        }
        i = i + 1;
    }
    assert(x@ =~= y@);
    true
}

/// The text of `value` when it is present and not empty.
pub fn filled(value: &Option<String>) -> (r: Option<String>)
    ensures
        opt_chars(r) == filled_chars(*value),
{
    match value {
        Some(v) => if v.as_str().is_empty() {
            None
        } else {
            Some(v.clone())
        },
        None => None,
    }
}

/// The text of `value` when it is present and not blank.
pub fn present(value: &Option<String>) -> (r: Option<String>)
    ensures
        opt_chars(r) == present_chars(*value),
{
    match value {
        Some(v) => if is_blank(v.as_str()) {
            None
        } else {
            Some(v.clone())
        },
        None => None,
    }
}

/// The characters of an optional text.
pub open spec fn opt_chars(o: Option<String>) -> Option<Seq<char>> {
    match o {
        Some(v) => Some(v@),
        None => None,
    }
}

/// The characters of `o` when it is present and not empty.
pub open spec fn filled_chars(o: Option<String>) -> Option<Seq<char>> {
    match o {
        Some(v) => if v@.len() > 0 {
            Some(v@)
        } else {
            None
        },
        None => None,
    }
}

/// The characters of `o` when it is present and not blank.
pub open spec fn present_chars(o: Option<String>) -> Option<Seq<char>> {
    match o {
        Some(v) => if !is_blank_chars(v@) {
            Some(v@)
        } else {
            None
        },
        None => None,
    }
}

/// `name` with every double quote doubled, as an SQL identifier between
/// double quotes needs.
pub open spec fn escaped_identifier(name: Seq<char>) -> Seq<char>
    decreases name.len(),
{
    if name.len() == 0 {
        Seq::empty()
    } else {
        let rest = escaped_identifier(name.drop_last());
        if name.last() == '"' {
            rest + seq!['"', '"']
        } else {
            rest.push(name.last())
        }
    }
}

/// `name` with every double quote doubled (`name.replace('"', "\"\"")`).
pub fn escape_identifier(name: &str) -> (r: String)
    ensures
        r@ == escaped_identifier(name@),
{
    let quote = "\"";
    proof {
        reveal_strlit("\"");
    }
    let n = name.unicode_len();
    let mut r = String::new();
    let mut i: usize = 0;
    while i < n
        invariant
            n == name@.len(),
            i <= n,
            quote@ == seq!['"'],
            r@ == escaped_identifier(name@.take(i as int)),
        decreases n - i,
    {
        let piece = name.substring_char(i, i + 1);
        let c = name.get_char(i);
        if c == '"' {
            r.append(quote);
            r.append(quote);
        } else {
            r.append(piece);
        }
        proof {
            assert(name@.take(i + 1).drop_last() =~= name@.take(i as int));
            assert(name@.take(i + 1).last() == c);
            assert(piece@ =~= seq![c]);
            assert(quote@ + quote@ =~= seq!['"', '"']);
        }
        i = i + 1;
    }
    proof {
        assert(name@.take(n as int) =~= name@);
    }
    r
}

} // verus!
