use vstd::prelude::*;
use crate::json::{
    build_record, digits_val, is_hex_digit, is_json_ws, hex_val, lemma_digit_run_concat,
    lemma_digits_val_lower, lemma_digits_val_upper, lemma_pow10_mono, lemma_pow10_ten,
    named_escape, parse_doc, parse_field, parse_number, parse_pair, parse_pairs, parse_record,
    parse_string, parse_string_body, pick_number, pick_text, pow10, skip_ws, FieldValue,
};
use crate::store::{distinct_emails, views};
use crate::text::{chars_of, str_eq, string_of_chars};
use crate::user::User;
use crate::validate::is_digit_char;

verus! {

// The executable side of the document codec: reading a record set back
// from the JSON document the grammar in `json` describes. Every function
// mirrors its grammar function and is proved to return exactly what the
// grammar says.

/// White-space test matching `is_json_ws`.
fn is_ws_char(c: char) -> (b: bool)
    ensures
        b == is_json_ws(c),
{
    c == ' ' || c == '\n' || c == '\t' || c == '\r'
}

/// Digit test matching `is_digit_char`.
fn is_digit_exec(c: char) -> (b: bool)
    ensures
        b == is_digit_char(c),
{
    '0' <= c && c <= '9'
}

/// Position after the white space that starts at `i`.
#[verifier::loop_isolation(false)]
fn ws(s: &Vec<char>, i: usize) -> (j: usize)
    requires
        i <= s@.len(),
    ensures
        i <= j <= s@.len(),
        skip_ws(s@.skip(i as int)) == s@.skip(j as int),
{
    let mut j = i;
    while j < s.len() && is_ws_char(s[j])
        invariant
            i <= j <= s@.len(),
            skip_ws(s@.skip(i as int)) == skip_ws(s@.skip(j as int)),
        decreases s@.len() - j,
    {
        proof {
            assert(s@.skip(j as int)[0] == s@[j as int]);
            assert(s@.skip(j as int).drop_first() =~= s@.skip(j + 1));
        }
        j += 1;
    }
    proof {
        if j < s@.len() {
            assert(s@.skip(j as int)[0] == s@[j as int]);
        } else {
            assert(s@.skip(j as int).len() == 0);
        }
    }
    j
}

/// Escape lookup matching `named_escape`.
fn named_escape_char(e: char) -> (r: Option<char>)
    ensures
        r == named_escape(e),
{
    if e == '"' {
        Some('"')
    } else if e == '\\' {
        Some('\\')
    } else if e == '/' {
        Some('/')
    } else if e == 'b' {
        Some('\u{8}')
    } else if e == 'f' {
        Some('\u{c}')
    } else if e == 'n' {
        Some('\n')
    } else if e == 'r' {
        Some('\r')
    } else if e == 't' {
        Some('\t')
    } else {
        None
    }
}

/// Hexadecimal digit test matching `is_hex_digit`.
fn is_hex_exec(c: char) -> (b: bool)
    ensures
        b == is_hex_digit(c),
{
    ('0' <= c && c <= '9') || ('a' <= c && c <= 'f') || ('A' <= c && c <= 'F')
}

/// Hexadecimal digit value matching `hex_val`.
fn hex_value(c: char) -> (v: u8)
    requires
        is_hex_digit(c),
    ensures
        v as int == hex_val(c),
        v < 16,
{
    if '0' <= c && c <= '9' {
        (c as u32 - 48) as u8
    } else if 'a' <= c && c <= 'f' {
        (c as u32 - 87) as u8
    } else {
        (c as u32 - 55) as u8
    }
}

/// Reads a string body from position `i`, as `parse_string_body` reads
/// the remaining input.
fn parse_body_at(s: &Vec<char>, i: usize) -> (r: Option<(Vec<char>, usize)>)
    requires
        i <= s@.len(),
    ensures
        (match r {
            Some(p) => i <= p.1 <= s@.len() && parse_string_body(s@.skip(i as int)) == Some(
                (p.0@, s@.skip(p.1 as int)),
            ),
            None => parse_string_body(s@.skip(i as int)) is None,
        }),
    decreases s@.len() - i,
{
    let ghost t = s@.skip(i as int);
    let n = s.len();
    if i == n {
        proof {
            assert(t.len() == 0);
        }
        return None;
    }
    let c = s[i];
    proof {
        assert(t[0] == c);
    }
    if c == '"' {
        proof {
            assert(t.drop_first() =~= s@.skip(i + 1));
        }
        let empty: Vec<char> = Vec::new();
        proof {
            assert(empty@ =~= Seq::<char>::empty());
        }
        return Some((empty, i + 1));
    }
    if c == '\\' {
        if n - i < 2 {
            proof {
                assert(t.len() < 2);
            }
            return None;
        }
        let e = s[i + 1];
        proof {
            assert(t[1] == e);
        }
        if e == 'u' {
            if n - i < 6 {
                proof {
                    assert(t.len() < 6);
                }
                return None;
            }
            proof {
                assert(t.len() >= 6);
                assert(t[2] == s@[i + 2] && t[3] == s@[i + 3] && t[4] == s@[i + 4] && t[5] == s@[i
                    + 5]);
            }
            if !is_hex_exec(s[i + 2]) || !is_hex_exec(s[i + 3]) || !is_hex_exec(s[i + 4])
                || !is_hex_exec(s[i + 5]) {
                return None;
            }
            let h2 = hex_value(s[i + 2]);
            let h3 = hex_value(s[i + 3]);
            let h4 = hex_value(s[i + 4]);
            let h5 = hex_value(s[i + 5]);
            let code: u32 = (h2 as u32) * 4096 + (h3 as u32) * 256 + (h4 as u32) * 16 + (h5
                as u32);
            proof {
                assert(code as int == hex_val(t[2]) * 4096 + hex_val(t[3]) * 256 + hex_val(t[4])
                    * 16 + hex_val(t[5]));
            }
            if code >= 128 {
                return None;
            }
            // Below 128 the two leading hexadecimal digits are zero, so
            // the low byte alone carries the code point.
            let low: u8 = h4 * 16 + h5;
            proof {
                assert(h2 == 0 && h3 == 0);
                assert(low as int == code as int);
                assert((low as char) == ((code as int) as char));
            }
            proof {
                assert(t.skip(6) =~= s@.skip(i + 6));
            }
            match parse_body_at(s, i + 6) {
                Some(p) => {
                    let (tv, j) = p;
                    let mut tv = tv;
                    let ghost tv0 = tv@;
                    tv.insert(0, low as char);
                    proof {
                        assert(tv@ =~= seq![((code as int) as char)] + tv0);
                    }
                    Some((tv, j))
                },
                None => None,
            }
        } else {
            proof {
                assert(t.skip(2) =~= s@.skip(i + 2));
            }
            match named_escape_char(e) {
                Some(c2) => match parse_body_at(s, i + 2) {
                    Some(p) => {
                        let (tv, j) = p;
                        let mut tv = tv;
                        let ghost tv0 = tv@;
                        tv.insert(0, c2);
                        proof {
                            assert(tv@ =~= seq![c2] + tv0);
                        }
                        Some((tv, j))
                    },
                    None => None,
                },
                None => None,
            }
        }
    } else {
        let ctl = (c as u32) < 32;
        if ctl {
            None
        } else {
            proof {
                assert(t.drop_first() =~= s@.skip(i + 1));
            }
            match parse_body_at(s, i + 1) {
                Some(p) => {
                    let (tv, j) = p;
                    let mut tv = tv;
                    let ghost tv0 = tv@;
                    tv.insert(0, c);
                    proof {
                        assert(tv@ =~= seq![c] + tv0);
                    }
                    Some((tv, j))
                },
                None => None,
            }
        }
    }
}

/// Reads a quoted string from position `i`, as `parse_string` reads the
/// remaining input.
fn parse_string_at(s: &Vec<char>, i: usize) -> (r: Option<(Vec<char>, usize)>)
    requires
        i <= s@.len(),
    ensures
        (match r {
            Some(p) => i <= p.1 <= s@.len() && parse_string(s@.skip(i as int)) == Some(
                (p.0@, s@.skip(p.1 as int)),
            ),
            None => parse_string(s@.skip(i as int)) is None,
        }),
{
    let ghost t = s@.skip(i as int);
    if i < s.len() && s[i] == '"' {
        proof {
            assert(t[0] == '"');
            assert(t.drop_first() =~= s@.skip(i + 1));
        }
        parse_body_at(s, i + 1)
    } else {
        proof {
            if t.len() > 0 {
                assert(t[0] == s@[i as int]);
            }
        }
        None
    }
}

/// Decimal digit value.
fn digit_value(c: char) -> (d: u64)
    requires
        is_digit_char(c),
    ensures
        d as int == c as int - 48,
        d < 10,
{
    (c as u32 - 48) as u64
}

/// Reads an unsigned decimal number from position `i`, as `parse_number`
/// reads the remaining input.
#[verifier::loop_isolation(false)]
fn parse_number_at(s: &Vec<char>, i: usize) -> (r: Option<(u32, usize)>)
    requires
        i <= s@.len(),
    ensures
        (match r {
            Some(p) => i <= p.1 <= s@.len() && parse_number(s@.skip(i as int)) == Some(
                (p.0, s@.skip(p.1 as int)),
            ),
            None => parse_number(s@.skip(i as int)) is None,
        }),
{
    let ghost t = s@.skip(i as int);
    let n = s.len();
    if i == n {
        proof {
            assert(t.len() == 0);
        }
        return None;
    }
    proof {
        assert(t[0] == s@[i as int]);
    }
    if !is_digit_exec(s[i]) {
        return None;
    }
    if s[i] == '0' {
        proof {
            assert(t.drop_first() =~= s@.skip(i + 1));
        }
        return Some((0, i + 1));
    }
    // Count the digit run.
    let mut j = i;
    while j < n && is_digit_exec(s[j])
        invariant
            i <= j <= n,
            forall|k: int| i <= k < j ==> is_digit_char(#[trigger] s@[k]),
        decreases n - j,
    {
        j += 1;
    }
    let ghost run = s@.subrange(i as int, j as int);
    proof {
        assert(t =~= run + s@.skip(j as int));
        assert(forall|k: int| 0 <= k < run.len() ==> is_digit_char(#[trigger] run[k]));
        if j < n {
            assert(s@.skip(j as int)[0] == s@[j as int]);
            assert(!is_digit_char(s@.skip(j as int)[0]));
        } else {
            assert(s@.skip(j as int).len() == 0);
        }
        lemma_digit_run_concat(run, s@.skip(j as int));
        assert(crate::json::digit_run(t) == j - i);
        assert(t.take(j - i) =~= run);
    }
    if j - i > 10 {
        proof {
            assert(run[0] == s@[i as int]);
            assert(run[0] != '0');
            lemma_digits_val_lower(run);
            lemma_pow10_mono(10, run.len() - 1);
            lemma_pow10_ten();
            assert(digits_val(run) > 0xFFFF_FFFFint);
        }
        return None;
    }
    // At most ten digits: the value fits well inside 64 bits.
    let mut acc: u64 = 0;
    let mut k = i;
    while k < j
        invariant
            i <= k <= j,
            j - i <= 10,
            acc as int == digits_val(s@.subrange(i as int, k as int)),
            (acc as int) < pow10(k - i),
        decreases j - k,
    {
        proof {
            lemma_pow10_mono(k - i, 9);
            lemma_pow10_ten();
            assert(pow10(9) * 10 == pow10(10));
            assert((acc as int) * 10 + 9 < pow10(10)) by (nonlinear_arith)
                requires
                    (acc as int) < pow10(9),
                    pow10(9) * 10 == pow10(10),
            ;
        }
        let ghost prev = digits_val(s@.subrange(i as int, k as int));
        let d = digit_value(s[k]);
        acc = acc * 10 + d;
        proof {
            assert(s@.subrange(i as int, k + 1).drop_last() =~= s@.subrange(i as int, k as int));
            assert(s@.subrange(i as int, k + 1).last() == s@[k as int]);
            assert(acc as int == prev * 10 + (s@[k as int] as int - 48));
            assert(digits_val(s@.subrange(i as int, k + 1)) == acc as int);
            assert(pow10(k + 1 - i) == 10 * pow10(k - i));
            assert((acc as int) < pow10(k + 1 - i)) by (nonlinear_arith)
                requires
                    acc as int == prev * 10 + (s@[k as int] as int - 48),
                    prev < pow10(k - i),
                    prev >= 0,
                    s@[k as int] as int - 48 < 10,
                    pow10(k + 1 - i) == 10 * pow10(k - i),
            ;
        }
        k += 1;
    }
    proof {
        assert(s@.subrange(i as int, j as int) =~= run);
        assert(acc as int == digits_val(run));
        lemma_digits_val_upper(run);
    }
    if acc > 0xFFFF_FFFF {
        return None;
    }
    proof {
        assert((acc as u32) as int == acc as int);
        assert(digits_val(t.take(crate::json::digit_run(t))) == acc as int);
    }
    Some((acc as u32, j))
}

/// A parsed field value: a string or a number.
enum ParsedValue {
    Text(Vec<char>),
    Number(u32),
}

impl View for ParsedValue {
    type V = FieldValue;

    closed spec fn view(&self) -> FieldValue {
        match self {
            ParsedValue::Text(v) => FieldValue::Text(v@),
            ParsedValue::Number(n) => FieldValue::Number(*n),
        }
    }
}

/// A parsed field: its name and its value.
struct ExField {
    name: Vec<char>,
    value: ParsedValue,
}

impl View for ExField {
    type V = (Seq<char>, FieldValue);

    closed spec fn view(&self) -> (Seq<char>, FieldValue) {
        (self.name@, self.value@)
    }
}

/// Whether the parsed characters spell the given name.
#[verifier::loop_isolation(false)]
fn name_is(v: &Vec<char>, k: &str) -> (b: bool)
    ensures
        b == (v@ == k@),
{
    let n = k.unicode_len();
    if v.len() != n {
        return false;
    }
    let mut i: usize = 0;
    while i < n
        invariant
            0 <= i <= n,
            v@.len() == n,
            forall|j: int| 0 <= j < i ==> v@[j] == k@[j],
        decreases n - i,
    {
        if v[i] != k.get_char(i) {
            return false;
        }
        i += 1;
    }
    proof {
        assert(v@ =~= k@);
    }
    true
}

/// A copy of the parsed characters.
#[verifier::loop_isolation(false)]
fn dup_chars(v: &Vec<char>) -> (r: Vec<char>)
    ensures
        r@ == v@,
{
    let mut r: Vec<char> = Vec::new();
    let mut i: usize = 0;
    while i < v.len()
        invariant
            0 <= i <= v@.len(),
            r@ == v@.take(i as int),
        decreases v@.len() - i,
    {
        r.push(v[i]);
        proof {
            assert(v@.take(i as int).push(v@[i as int]) =~= v@.take(i + 1));
        }
        i += 1;
    }
    proof {
        assert(v@.take(v@.len() as int) =~= v@);
    }
    r
}

/// The text under the given name among the four fields, as `pick_text`
/// finds it.
fn pick_text_exec(k: &str, f1: &ExField, f2: &ExField, f3: &ExField, f4: &ExField) -> (r: Option<
    Vec<char>,
>)
    ensures
        (match r {
            Some(v) => pick_text(k@, f1@, f2@, f3@, f4@) == Some(v@),
            None => pick_text(k@, f1@, f2@, f3@, f4@) is None,
        }),
{
    if name_is(&f1.name, k) {
        match &f1.value {
            ParsedValue::Text(t) => Some(dup_chars(t)),
            ParsedValue::Number(_) => None,
        }
    } else if name_is(&f2.name, k) {
        match &f2.value {
            ParsedValue::Text(t) => Some(dup_chars(t)),
            ParsedValue::Number(_) => None,
        }
    } else if name_is(&f3.name, k) {
        match &f3.value {
            ParsedValue::Text(t) => Some(dup_chars(t)),
            ParsedValue::Number(_) => None,
        }
    } else if name_is(&f4.name, k) {
        match &f4.value {
            ParsedValue::Text(t) => Some(dup_chars(t)),
            ParsedValue::Number(_) => None,
        }
    } else {
        None
    }
}

/// The number under the given name among the four fields, as
/// `pick_number` finds it.
fn pick_number_exec(k: &str, f1: &ExField, f2: &ExField, f3: &ExField, f4: &ExField) -> (r: Option<
    u32,
>)
    ensures
        (match r {
            Some(n) => pick_number(k@, f1@, f2@, f3@, f4@) == Some(n),
            None => pick_number(k@, f1@, f2@, f3@, f4@) is None,
        }),
{
    if name_is(&f1.name, k) {
        match &f1.value {
            ParsedValue::Number(n) => Some(*n),
            ParsedValue::Text(_) => None,
        }
    } else if name_is(&f2.name, k) {
        match &f2.value {
            ParsedValue::Number(n) => Some(*n),
            ParsedValue::Text(_) => None,
        }
    } else if name_is(&f3.name, k) {
        match &f3.value {
            ParsedValue::Number(n) => Some(*n),
            ParsedValue::Text(_) => None,
        }
    } else if name_is(&f4.name, k) {
        match &f4.value {
            ParsedValue::Number(n) => Some(*n),
            ParsedValue::Text(_) => None,
        }
    } else {
        None
    }
}

/// Reads one `"name": value` field from position `i`, as `parse_field`
/// reads the remaining input.
fn parse_field_at(s: &Vec<char>, i: usize) -> (r: Option<(ExField, usize)>)
    requires
        i <= s@.len(),
    ensures
        (match r {
            Some(p) => i <= p.1 <= s@.len() && parse_field(s@.skip(i as int)) == Some(
                (p.0@, s@.skip(p.1 as int)),
            ),
            None => parse_field(s@.skip(i as int)) is None,
        }),
{
    let (name, j1) = match parse_string_at(s, i) {
        Some(p) => p,
        None => {
            return None;
        },
    };
    let j2 = ws(s, j1);
    let ghost r1 = s@.skip(j2 as int);
    if j2 == s.len() {
        proof {
            assert(r1.len() == 0);
        }
        return None;
    }
    proof {
        assert(r1[0] == s@[j2 as int]);
    }
    if s[j2] != ':' {
        return None;
    }
    proof {
        assert(r1.drop_first() =~= s@.skip(j2 + 1));
    }
    let j3 = ws(s, j2 + 1);
    let ghost r2 = s@.skip(j3 as int);
    proof {
        if j3 < s@.len() {
            assert(r2[0] == s@[j3 as int]);
        } else {
            assert(r2.len() == 0);
        }
    }
    if j3 < s.len() && s[j3] == '"' {
        match parse_string_at(s, j3) {
            Some(p) => {
                let (tv, j4) = p;
                Some((ExField { name, value: ParsedValue::Text(tv) }, j4))
            },
            None => None,
        }
    } else {
        match parse_number_at(s, j3) {
            Some(p) => {
                let (nv, j4) = p;
                Some((ExField { name, value: ParsedValue::Number(nv) }, j4))
            },
            None => None,
        }
    }
}

/// Reads one record object from position `i`, as `parse_record` reads the
/// remaining input.
fn parse_record_at(s: &Vec<char>, i: usize) -> (r: Option<(User, usize)>)
    requires
        i <= s@.len(),
    ensures
        (match r {
            Some(p) => i <= p.1 <= s@.len() && parse_record(s@.skip(i as int)) == Some(
                (p.0@, s@.skip(p.1 as int)),
            ),
            None => parse_record(s@.skip(i as int)) is None,
        }),
{
    let ghost t = s@.skip(i as int);
    if i == s.len() {
        proof {
            assert(t.len() == 0);
        }
        return None;
    }
    proof {
        assert(t[0] == s@[i as int]);
    }
    if s[i] != '{' {
        return None;
    }
    proof {
        assert(t.drop_first() =~= s@.skip(i + 1));
    }
    let j0 = ws(s, i + 1);
    let (f1, j1) = match parse_field_at(s, j0) {
        Some(p) => p,
        None => {
            return None;
        },
    };
    let j1b = ws(s, j1);
    let ghost r1 = s@.skip(j1b as int);
    proof {
        if j1b < s@.len() {
            assert(r1[0] == s@[j1b as int]);
        } else {
            assert(r1.len() == 0);
        }
    }
    if j1b == s.len() || s[j1b] != ',' {
        return None;
    }
    proof {
        assert(r1.drop_first() =~= s@.skip(j1b + 1));
    }
    let j2a = ws(s, j1b + 1);
    let (f2, j2) = match parse_field_at(s, j2a) {
        Some(p) => p,
        None => {
            return None;
        },
    };
    let j2b = ws(s, j2);
    let ghost r2 = s@.skip(j2b as int);
    proof {
        if j2b < s@.len() {
            assert(r2[0] == s@[j2b as int]);
        } else {
            assert(r2.len() == 0);
        }
    }
    if j2b == s.len() || s[j2b] != ',' {
        return None;
    }
    proof {
        assert(r2.drop_first() =~= s@.skip(j2b + 1));
    }
    let j3a = ws(s, j2b + 1);
    let (f3, j3) = match parse_field_at(s, j3a) {
        Some(p) => p,
        None => {
            return None;
        },
    };
    let j3b = ws(s, j3);
    let ghost r3 = s@.skip(j3b as int);
    proof {
        if j3b < s@.len() {
            assert(r3[0] == s@[j3b as int]);
        } else {
            assert(r3.len() == 0);
        }
    }
    if j3b == s.len() || s[j3b] != ',' {
        return None;
    }
    proof {
        assert(r3.drop_first() =~= s@.skip(j3b + 1));
    }
    let j4a = ws(s, j3b + 1);
    let (f4, j4) = match parse_field_at(s, j4a) {
        Some(p) => p,
        None => {
            return None;
        },
    };
    let j4b = ws(s, j4);
    let ghost r4 = s@.skip(j4b as int);
    proof {
        if j4b < s@.len() {
            assert(r4[0] == s@[j4b as int]);
        } else {
            assert(r4.len() == 0);
        }
    }
    if j4b == s.len() || s[j4b] != '}' {
        return None;
    }
    proof {
        assert(r4.drop_first() =~= s@.skip(j4b + 1));
    }
    let email = pick_text_exec("email", &f1, &f2, &f3, &f4);
    let username = pick_text_exec("username", &f1, &f2, &f3, &f4);
    let phone = pick_text_exec("phone", &f1, &f2, &f3, &f4);
    let age = pick_number_exec("age", &f1, &f2, &f3, &f4);
    match (email, username, phone, age) {
        (Some(e), Some(un), Some(ph), Some(a)) => {
            let u = User {
                email: string_of_chars(&e),
                username: string_of_chars(&un),
                phone: string_of_chars(&ph),
                age: a,
            };
            proof {
                assert(build_record(f1@, f2@, f3@, f4@) == Some(u@));
            }
            Some((u, j4b + 1))
        },
        _ => {
            proof {
                assert(build_record(f1@, f2@, f3@, f4@) is None);
            }
            None
        },
    }
}

/// Reads one `"email": { record }` pair from position `i`, as
/// `parse_pair` reads the remaining input.
fn parse_pair_at(s: &Vec<char>, i: usize) -> (r: Option<(User, usize)>)
    requires
        i <= s@.len(),
    ensures
        (match r {
            Some(p) => i <= p.1 <= s@.len() && parse_pair(s@.skip(i as int)) == Some(
                (p.0@, s@.skip(p.1 as int)),
            ),
            None => parse_pair(s@.skip(i as int)) is None,
        }),
{
    let (key, j1) = match parse_string_at(s, i) {
        Some(p) => p,
        None => {
            return None;
        },
    };
    let j2 = ws(s, j1);
    let ghost r1 = s@.skip(j2 as int);
    proof {
        if j2 < s@.len() {
            assert(r1[0] == s@[j2 as int]);
        } else {
            assert(r1.len() == 0);
        }
    }
    if j2 == s.len() || s[j2] != ':' {
        return None;
    }
    proof {
        assert(r1.drop_first() =~= s@.skip(j2 + 1));
    }
    let j3 = ws(s, j2 + 1);
    let (u, j4) = match parse_record_at(s, j3) {
        Some(p) => p,
        None => {
            return None;
        },
    };
    if name_is(&key, u.email.as_str()) {
        Some((u, j4))
    } else {
        None
    }
}

/// Reads comma-separated pairs up to and over the document's closing
/// brace, as `parse_pairs` reads the remaining input.
fn parse_pairs_at(s: &Vec<char>, i: usize, fuel: usize) -> (r: Option<(Vec<User>, usize)>)
    requires
        i <= s@.len(),
    ensures
        (match r {
            Some(p) => i <= p.1 <= s@.len() && parse_pairs(s@.skip(i as int), fuel as nat) == Some(
                (views(p.0@), s@.skip(p.1 as int)),
            ),
            None => parse_pairs(s@.skip(i as int), fuel as nat) is None,
        }),
    decreases fuel,
{
    if fuel == 0 {
        return None;
    }
    let (u, j1) = match parse_pair_at(s, i) {
        Some(p) => p,
        None => {
            return None;
        },
    };
    let j2 = ws(s, j1);
    let ghost r1 = s@.skip(j2 as int);
    if j2 == s.len() {
        proof {
            assert(r1.len() == 0);
        }
        return None;
    }
    proof {
        assert(r1[0] == s@[j2 as int]);
        assert(r1.drop_first() =~= s@.skip(j2 + 1));
    }
    if s[j2] == ',' {
        let j3 = ws(s, j2 + 1);
        match parse_pairs_at(s, j3, fuel - 1) {
            Some(p) => {
                let (lv, j4) = p;
                let mut lv = lv;
                let ghost lv0 = lv@;
                lv.insert(0, u);
                proof {
                    assert(lv@ =~= seq![u].add(lv0));
                    assert(views(lv@) =~= seq![u@] + views(lv0));
                }
                Some((lv, j4))
            },
            None => None,
        }
    } else if s[j2] == '}' {
        let mut v: Vec<User> = Vec::new();
        v.push(u);
        proof {
            assert(views(v@) =~= seq![u@]);
        }
        Some((v, j2 + 1))
    } else {
        None
    }
}

/// Whether no two records share an email.
#[verifier::loop_isolation(false)]
fn emails_distinct(users: &Vec<User>) -> (b: bool)
    ensures
        b == distinct_emails(views(users@)),
{
    let n = users.len();
    let mut i: usize = 0;
    while i < n
        invariant
            0 <= i <= n == users@.len(),
            forall|a: int, b: int|
                0 <= a < b < n && a < i ==> views(users@)[a].email != views(users@)[b].email,
        decreases n - i,
    {
        let mut j: usize = i + 1;
        while j < n
            invariant
                i < j <= n,
                forall|b: int| i < b < j ==> views(users@)[i as int].email != views(users@)[b].email,
            decreases n - j,
        {
            if str_eq(users[i].email.as_str(), users[j].email.as_str()) {
                proof {
                    assert(views(users@)[i as int].email == views(users@)[j as int].email);
                }
                return false;
            }
            j += 1;
        }
        i += 1;
    }
    true
}

/// The record set a JSON document holds, exactly as `parse_doc` reads it;
/// a document the grammar refuses is reported as an error.
pub fn parse_users(content: &str) -> (r: Result<Vec<User>, String>)
    ensures
        (match r {
            Ok(v) => parse_doc(content@) == Some(views(v@)),
            Err(_) => parse_doc(content@) is None,
        }),
{
    let s = chars_of(content);
    proof {
        assert(s@.skip(0) =~= content@);
    }
    let i0 = ws(&s, 0);
    let ghost r0 = s@.skip(i0 as int);
    proof {
        if i0 < s@.len() {
            assert(r0[0] == s@[i0 as int]);
        } else {
            assert(r0.len() == 0);
        }
    }
    if i0 == s.len() || s[i0] != '{' {
        return Err(String::from_str("Failed to parse JSON: no object found"));
    }
    proof {
        assert(r0.drop_first() =~= s@.skip(i0 + 1));
    }
    let i1 = ws(&s, i0 + 1);
    let ghost r1 = s@.skip(i1 as int);
    proof {
        if i1 < s@.len() {
            assert(r1[0] == s@[i1 as int]);
        } else {
            assert(r1.len() == 0);
        }
    }
    if i1 < s.len() && s[i1] == '}' {
        proof {
            assert(r1.drop_first() =~= s@.skip(i1 + 1));
        }
        let i2 = ws(&s, i1 + 1);
        if i2 == s.len() {
            let empty: Vec<User> = Vec::new();
            proof {
                assert(s@.skip(i2 as int).len() == 0);
                assert(views(empty@) =~= Seq::<crate::user::UserView>::empty());
                assert(parse_doc(content@) == Some(views(empty@)));
            }
            return Ok(empty);
        } else {
            proof {
                assert(s@.skip(i2 as int).len() != 0);
            }
            return Err(String::from_str("Failed to parse JSON: text after the object"));
        }
    }
    match parse_pairs_at(&s, i1, s.len() - i1) {
        None => Err(String::from_str("Failed to parse JSON: bad object entry")),
        Some(p) => {
            let (users, j) = p;
            let j2 = ws(&s, j);
            if j2 != s.len() {
                proof {
                    assert(s@.skip(j2 as int).len() != 0);
                }
                return Err(String::from_str("Failed to parse JSON: text after the object"));
            }
            proof {
                assert(s@.skip(j2 as int).len() == 0);
            }
            if !emails_distinct(&users) {
                return Err(String::from_str("Failed to parse JSON: repeated email key"));
            }
            Ok(users)
        },
    }
}

} // verus!
