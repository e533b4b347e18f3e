use vstd::prelude::*;
use crate::store::distinct_emails;
use crate::user::UserView;
use crate::validate::is_digit_char;

verus! {

// The store keeps its records in one JSON document: an object that maps
// each record's email to an object with the fields email, username, phone
// and age. This module gives the document grammar as spec functions over
// character sequences, and the encoder that writes the document the same
// way.

/// The white space JSON allows between tokens.
pub open spec fn is_json_ws(c: char) -> bool {
    c == ' ' || c == '\n' || c == '\t' || c == '\r'
}

/// The input without its leading white space.
pub open spec fn skip_ws(s: Seq<char>) -> Seq<char>
    decreases s.len(),
{
    if s.len() > 0 && is_json_ws(s[0]) {
        skip_ws(s.drop_first())
    } else {
        s
    }
}

/// A hexadecimal digit.
pub open spec fn is_hex_digit(c: char) -> bool {
    ('0' <= c && c <= '9') || ('a' <= c && c <= 'f') || ('A' <= c && c <= 'F')
}

/// The value of a hexadecimal digit.
pub open spec fn hex_val(c: char) -> int {
    if '0' <= c && c <= '9' {
        c as int - 48
    } else if 'a' <= c && c <= 'f' {
        c as int - 87
    } else {
        c as int - 55
    }
}

/// The character a single-letter escape stands for.
pub open spec fn named_escape(e: char) -> Option<char> {
    if e == '"' {
        Some('"')
    } else if e == '\\' {
        Some('\\')
    } else if e == '/' {
        Some('/')
    } else if e == 'b' {
        Some('\u{8}')
    } else if e == 'f' {
        Some('\u{c}')
    } else if e == 'n' {
        Some('\n')
    } else if e == 'r' {
        Some('\r')
    } else if e == 't' {
        Some('\t')
    } else {
        None
    }
}

/// Parses a string body up to and over its closing quote: the decoded
/// characters and what follows the quote. Escapes are the named ones and
/// `\u00xx` below 128; a raw control character is refused, any other
/// character stands for itself.
pub open spec fn parse_string_body(s: Seq<char>) -> Option<(Seq<char>, Seq<char>)>
    decreases s.len(),
{
    if s.len() == 0 {
        None
    } else if s[0] == '"' {
        Some((Seq::empty(), s.drop_first()))
    } else if s[0] == '\\' {
        if s.len() < 2 {
            None
        } else if s[1] == 'u' {
            if s.len() >= 6 && is_hex_digit(s[2]) && is_hex_digit(s[3]) && is_hex_digit(s[4])
                && is_hex_digit(s[5]) {
                let code = hex_val(s[2]) * 4096 + hex_val(s[3]) * 256 + hex_val(s[4]) * 16
                    + hex_val(s[5]);
                if code < 128 {
                    match parse_string_body(s.skip(6)) {
                        Some(p) => Some((seq![code as char] + p.0, p.1)),
                        None => None,
                    }
                } else {
                    None
                }
            } else {
                None
            }
        } else {
            match named_escape(s[1]) {
                Some(c) => match parse_string_body(s.skip(2)) {
                    Some(p) => Some((seq![c] + p.0, p.1)),
                    None => None,
                },
                None => None,
            }
        }
    } else if (s[0] as u32) < 32 {
        None
    } else {
        match parse_string_body(s.drop_first()) {
            Some(p) => Some((seq![s[0]] + p.0, p.1)),
            None => None,
        }
    }
}

/// Parses a quoted string: the decoded characters and what follows it.
pub open spec fn parse_string(s: Seq<char>) -> Option<(Seq<char>, Seq<char>)> {
    if s.len() > 0 && s[0] == '"' {
        parse_string_body(s.drop_first())
    } else {
        None
    }
}

/// The value of an all-digit sequence read as a decimal number.
pub open spec fn digits_val(s: Seq<char>) -> int
    decreases s.len(),
{
    if s.len() == 0 {
        0
    } else {
        digits_val(s.drop_last()) * 10 + (s.last() as int - 48)
    }
}

/// How many digits the input starts with.
pub open spec fn digit_run(s: Seq<char>) -> int
    decreases s.len(),
{
    if s.len() > 0 && is_digit_char(s[0]) {
        1 + digit_run(s.drop_first())
    } else {
        0
    }
}

/// Parses an unsigned decimal number: its value and what follows it. A
/// leading zero stands alone, as JSON asks, and a value beyond `u32` is
/// refused.
pub open spec fn parse_number(s: Seq<char>) -> Option<(u32, Seq<char>)> {
    if s.len() == 0 || !is_digit_char(s[0]) {
        None
    } else if s[0] == '0' {
        Some((0u32, s.drop_first()))
    } else {
        let k = digit_run(s);
        let v = digits_val(s.take(k));
        if v > 0xFFFF_FFFFint {
            None
        } else {
            Some((v as u32, s.skip(k)))
        }
    }
}

/// A field value: a string or a number.
pub enum FieldValue {
    Text(Seq<char>),
    Number(u32),
}

/// The name of the email field.
pub open spec fn email_key() -> Seq<char> {
    "email"@
}

/// The name of the username field.
pub open spec fn username_key() -> Seq<char> {
    "username"@
}

/// The name of the phone field.
pub open spec fn phone_key() -> Seq<char> {
    "phone"@
}

/// The name of the age field.
pub open spec fn age_key() -> Seq<char> {
    "age"@
}

/// Parses one `"name": value` field: the name, the value and what follows
/// them.
pub open spec fn parse_field(s: Seq<char>) -> Option<((Seq<char>, FieldValue), Seq<char>)> {
    match parse_string(s) {
        None => None,
        Some(np) => {
            let r1 = skip_ws(np.1);
            if r1.len() == 0 || r1[0] != ':' {
                None
            } else {
                let r2 = skip_ws(r1.drop_first());
                if r2.len() > 0 && r2[0] == '"' {
                    match parse_string(r2) {
                        None => None,
                        Some(vp) => Some(((np.0, FieldValue::Text(vp.0)), vp.1)),
                    }
                } else {
                    match parse_number(r2) {
                        None => None,
                        Some(vp) => Some(((np.0, FieldValue::Number(vp.0)), vp.1)),
                    }
                }
            }
        },
    }
}

/// The text under the given name among the four fields, looking at the
/// first field that carries the name.
pub open spec fn pick_text(
    k: Seq<char>,
    f1: (Seq<char>, FieldValue),
    f2: (Seq<char>, FieldValue),
    f3: (Seq<char>, FieldValue),
    f4: (Seq<char>, FieldValue),
) -> Option<Seq<char>> {
    if f1.0 == k {
        match f1.1 {
            FieldValue::Text(t) => Some(t),
            _ => None,
        }
    } else if f2.0 == k {
        match f2.1 {
            FieldValue::Text(t) => Some(t),
            _ => None,
        }
    } else if f3.0 == k {
        match f3.1 {
            FieldValue::Text(t) => Some(t),
            _ => None,
        }
    } else if f4.0 == k {
        match f4.1 {
            FieldValue::Text(t) => Some(t),
            _ => None,
        }
    } else {
        None
    }
}

/// The number under the given name among the four fields, looking at the
/// first field that carries the name.
pub open spec fn pick_number(
    k: Seq<char>,
    f1: (Seq<char>, FieldValue),
    f2: (Seq<char>, FieldValue),
    f3: (Seq<char>, FieldValue),
    f4: (Seq<char>, FieldValue),
) -> Option<u32> {
    if f1.0 == k {
        match f1.1 {
            FieldValue::Number(n) => Some(n),
            _ => None,
        }
    } else if f2.0 == k {
        match f2.1 {
            FieldValue::Number(n) => Some(n),
            _ => None,
        }
    } else if f3.0 == k {
        match f3.1 {
            FieldValue::Number(n) => Some(n),
            _ => None,
        }
    } else if f4.0 == k {
        match f4.1 {
            FieldValue::Number(n) => Some(n),
            _ => None,
        }
    } else {
        None
    }
}

/// The record four parsed fields describe: the three texts and the number,
/// each under its required name, in any order.
pub open spec fn build_record(
    f1: (Seq<char>, FieldValue),
    f2: (Seq<char>, FieldValue),
    f3: (Seq<char>, FieldValue),
    f4: (Seq<char>, FieldValue),
) -> Option<UserView> {
    match (
        pick_text(email_key(), f1, f2, f3, f4),
        pick_text(username_key(), f1, f2, f3, f4),
        pick_text(phone_key(), f1, f2, f3, f4),
        pick_number(age_key(), f1, f2, f3, f4),
    ) {
        (Some(e), Some(un), Some(ph), Some(a)) => Some(
            UserView { email: e, username: un, phone: ph, age: a },
        ),
        _ => None,
    }
}

/// Parses one record object: exactly the four fields, in any order,
/// separated by commas.
pub open spec fn parse_record(s: Seq<char>) -> Option<(UserView, Seq<char>)> {
    if s.len() == 0 || s[0] != '{' {
        None
    } else {
        match parse_field(skip_ws(s.drop_first())) {
            None => None,
            Some(f1) => {
                let r1 = skip_ws(f1.1);
                if r1.len() == 0 || r1[0] != ',' {
                    None
                } else {
                    match parse_field(skip_ws(r1.drop_first())) {
                        None => None,
                        Some(f2) => {
                            let r2 = skip_ws(f2.1);
                            if r2.len() == 0 || r2[0] != ',' {
                                None
                            } else {
                                match parse_field(skip_ws(r2.drop_first())) {
                                    None => None,
                                    Some(f3) => {
                                        let r3 = skip_ws(f3.1);
                                        if r3.len() == 0 || r3[0] != ',' {
                                            None
                                        } else {
                                            match parse_field(skip_ws(r3.drop_first())) {
                                                None => None,
                                                Some(f4) => {
                                                    let r4 = skip_ws(f4.1);
                                                    if r4.len() == 0 || r4[0] != '}' {
                                                        None
                                                    } else {
                                                        match build_record(
                                                            f1.0,
                                                            f2.0,
                                                            f3.0,
                                                            f4.0,
                                                        ) {
                                                            None => None,
                                                            Some(u) => Some((u, r4.drop_first())),
                                                        }
                                                    }
                                                },
                                            }
                                        }
                                    },
                                }
                            }
                        },
                    }
                }
            },
        }
    }
}

/// Parses one `"email": { record }` pair; the key must repeat the record's
/// email field.
pub open spec fn parse_pair(s: Seq<char>) -> Option<(UserView, Seq<char>)> {
    match parse_string(s) {
        None => None,
        Some(kp) => {
            let r1 = skip_ws(kp.1);
            if r1.len() == 0 || r1[0] != ':' {
                None
            } else {
                match parse_record(skip_ws(r1.drop_first())) {
                    None => None,
                    Some(up) => if up.0.email == kp.0 {
                        Some(up)
                    } else {
                        None
                    },
                }
            }
        },
    }
}

/// Parses pairs separated by commas, up to and over the closing brace of
/// the document. The fuel only bounds the recursion; a pair is never
/// shorter than one character, so the caller's fuel — the length of the
/// remaining input — never runs out first.
pub open spec fn parse_pairs(s: Seq<char>, fuel: nat) -> Option<(Seq<UserView>, Seq<char>)>
    decreases fuel,
{
    if fuel == 0 {
        None
    } else {
        match parse_pair(s) {
            None => None,
            Some(up) => {
                let r = skip_ws(up.1);
                if r.len() == 0 {
                    None
                } else if r[0] == ',' {
                    match parse_pairs(skip_ws(r.drop_first()), (fuel - 1) as nat) {
                        None => None,
                        Some(lp) => Some((seq![up.0] + lp.0, lp.1)),
                    }
                } else if r[0] == '}' {
                    Some((seq![up.0], r.drop_first()))
                } else {
                    None
                }
            },
        }
    }
}

/// Parses a whole document: the record sequence it holds, in document
/// order. Records must carry distinct emails, and nothing but white space
/// may follow the closing brace.
pub open spec fn parse_doc(s: Seq<char>) -> Option<Seq<UserView>> {
    let r = skip_ws(s);
    if r.len() == 0 || r[0] != '{' {
        None
    } else {
        let r1 = skip_ws(r.drop_first());
        if r1.len() > 0 && r1[0] == '}' {
            if skip_ws(r1.drop_first()).len() == 0 {
                Some(Seq::empty())
            } else {
                None
            }
        } else {
            match parse_pairs(r1, r1.len() as nat) {
                None => None,
                Some(lp) => if skip_ws(lp.1).len() == 0 && distinct_emails(lp.0) {
                    Some(lp.0)
                } else {
                    None
                },
            }
        }
    }
}

/// The character for a decimal digit value.
pub open spec fn digit_char(d: int) -> char {
    (48 + d) as char
}

/// The character for a hexadecimal digit value, lower case.
pub open spec fn hex_digit_char(d: int) -> char {
    if d < 10 {
        (48 + d) as char
    } else {
        (87 + d) as char
    }
}

/// How one character is written inside a string: itself, a named escape,
/// or `\u00xx` for the remaining control characters.
pub open spec fn enc_char(c: char) -> Seq<char> {
    if c == '"' {
        seq!['\\', '"']
    } else if c == '\\' {
        seq!['\\', '\\']
    } else if c == '\u{8}' {
        seq!['\\', 'b']
    } else if c == '\t' {
        seq!['\\', 't']
    } else if c == '\n' {
        seq!['\\', 'n']
    } else if c == '\u{c}' {
        seq!['\\', 'f']
    } else if c == '\r' {
        seq!['\\', 'r']
    } else if (c as u32) < 32 {
        seq!['\\', 'u', '0', '0', hex_digit_char(((c as u32) as int) / 16), hex_digit_char(
            ((c as u32) as int) % 16,
        )]
    } else {
        seq![c]
    }
}

/// How a string body is written: each character in turn.
pub open spec fn enc_text(s: Seq<char>) -> Seq<char>
    decreases s.len(),
{
    if s.len() == 0 {
        Seq::empty()
    } else {
        enc_char(s[0]) + enc_text(s.drop_first())
    }
}

/// How a string is written: the body between quotes.
pub open spec fn enc_string(s: Seq<char>) -> Seq<char> {
    seq!['"'] + enc_text(s) + seq!['"']
}

/// How a number is written: decimal digits without a leading zero.
pub open spec fn enc_number(n: u32) -> Seq<char>
    decreases n,
{
    if n < 10 {
        seq![digit_char(n as int)]
    } else {
        enc_number(n / 10) + seq![digit_char((n % 10) as int)]
    }
}

/// How one record object is written, pretty-printed at the document's
/// second level.
pub open spec fn enc_record(u: UserView) -> Seq<char> {
    seq!['{', '\n', ' ', ' ', ' ', ' '] + enc_string(email_key()) + seq![':', ' '] + enc_string(
        u.email,
    ) + seq![',', '\n', ' ', ' ', ' ', ' '] + enc_string(username_key()) + seq![':', ' ']
        + enc_string(u.username) + seq![',', '\n', ' ', ' ', ' ', ' '] + enc_string(phone_key())
        + seq![':', ' '] + enc_string(u.phone) + seq![',', '\n', ' ', ' ', ' ', ' '] + enc_string(
        age_key(),
    ) + seq![':', ' '] + enc_number(u.age) + seq!['\n', ' ', ' ', '}']
}

/// How the key-record pairs are written, comma-separated.
pub open spec fn enc_pairs(rs: Seq<UserView>) -> Seq<char>
    decreases rs.len(),
{
    if rs.len() == 0 {
        Seq::empty()
    } else if rs.len() == 1 {
        seq![' ', ' '] + enc_string(rs[0].email) + seq![':', ' '] + enc_record(rs[0])
    } else {
        seq![' ', ' '] + enc_string(rs[0].email) + seq![':', ' '] + enc_record(rs[0]) + seq![
            ',',
            '\n',
        ] + enc_pairs(rs.drop_first())
    }
}

/// How a whole document is written.
pub open spec fn enc_doc(rs: Seq<UserView>) -> Seq<char> {
    if rs.len() == 0 {
        seq!['{', '}']
    } else {
        seq!['{', '\n'] + enc_pairs(rs) + seq!['\n', '}']
    }
}

/// An input that does not open with white space is already past
/// `skip_ws`.
proof fn lemma_skip_ws_stop(t: Seq<char>)
    requires
        t.len() == 0 || !is_json_ws(t[0]),
    ensures
        skip_ws(t) == t,
{
}

/// `skip_ws` walks over any all-white-space prefix.
proof fn lemma_skip_ws_all(p: Seq<char>, t: Seq<char>)
    requires
        forall|i: int| 0 <= i < p.len() ==> is_json_ws(#[trigger] p[i]),
    ensures
        skip_ws(p + t) == skip_ws(t),
    decreases p.len(),
{
    if p.len() == 0 {
        assert(p + t =~= t);
    } else {
        assert((p + t)[0] == p[0]);
        assert((p + t).drop_first() =~= p.drop_first() + t);
        lemma_skip_ws_all(p.drop_first(), t);
    }
}

/// A control character comes back unchanged from its code point.
proof fn lemma_low_char_cast(c: char)
    requires
        (c as u32) < 32,
    ensures
        (((c as u32) as int) as char) == c,
{
}

/// Parsing reads back exactly the characters a string body was written
/// from, and leaves exactly what follows the closing quote.
#[verifier::spinoff_prover]
proof fn lemma_parse_enc_text(x: Seq<char>, rest: Seq<char>)
    ensures
        parse_string_body(enc_text(x) + seq!['"'] + rest) == Some((x, rest)),
    decreases x.len(),
{
    let s = enc_text(x) + seq!['"'] + rest;
    if x.len() == 0 {
        assert(s =~= seq!['"'] + rest);
        assert(s[0] == '"');
        assert(s.drop_first() =~= rest);
        assert(x =~= Seq::<char>::empty());
    } else {
        let c = x[0];
        let x1 = x.drop_first();
        lemma_parse_enc_text(x1, rest);
        let t = enc_text(x1) + seq!['"'] + rest;
        assert(s =~= enc_char(c) + t);
        assert(seq![c] + x1 =~= x);
        if c == '"' || c == '\\' || c == '\u{8}' || c == '\t' || c == '\n' || c == '\u{c}' || c
            == '\r' {
            let e = enc_char(c)[1];
            assert(s[0] == '\\' && s[1] == e);
            assert(e != 'u');
            assert(named_escape(e) == Some(c));
            assert(s.skip(2) =~= t);
        } else if (c as u32) < 32 {
            let hi = ((c as u32) as int) / 16;
            let lo = ((c as u32) as int) % 16;
            assert(s[0] == '\\' && s[1] == 'u' && s[2] == '0' && s[3] == '0');
            assert(s[4] == hex_digit_char(hi) && s[5] == hex_digit_char(lo));
            assert(0 <= hi < 2 && 0 <= lo < 16);
            assert(is_hex_digit('0') && hex_val('0') == 0);
            assert(is_hex_digit(hex_digit_char(hi)) && hex_val(hex_digit_char(hi)) == hi);
            assert(is_hex_digit(hex_digit_char(lo)) && hex_val(hex_digit_char(lo)) == lo);
            assert(hex_val(s[2]) * 4096 + hex_val(s[3]) * 256 + hex_val(s[4]) * 16 + hex_val(s[5])
                == (c as u32) as int);
            lemma_low_char_cast(c);
            assert(s.skip(6) =~= t);
        } else {
            assert(s[0] == c);
            assert(c != '"' && c != '\\' && (c as u32) >= 32);
            assert(s.drop_first() =~= t);
        }
    }
}

/// Parsing reads back exactly the characters a string was written from.
proof fn lemma_parse_enc_string(x: Seq<char>, rest: Seq<char>)
    ensures
        parse_string(enc_string(x) + rest) == Some((x, rest)),
{
    let s = enc_string(x) + rest;
    assert(s[0] == '"');
    assert(s.drop_first() =~= enc_text(x) + seq!['"'] + rest);
    lemma_parse_enc_text(x, rest);
}

/// The written form of a number: at least one digit, all digits, and no
/// leading zero unless the number is zero.
proof fn lemma_enc_number_shape(n: u32)
    ensures
        enc_number(n).len() >= 1,
        forall|i: int| 0 <= i < enc_number(n).len() ==> is_digit_char(#[trigger] enc_number(n)[i]),
        n >= 1 ==> enc_number(n)[0] != '0',
    decreases n,
{
    if n < 10 {
        assert(enc_number(n)[0] == digit_char(n as int));
    } else {
        lemma_enc_number_shape(n / 10);
        assert(forall|i: int|
            0 <= i < enc_number(n / 10).len() ==> enc_number(n)[i] == enc_number(n / 10)[i]);
        assert(enc_number(n).last() == digit_char((n % 10) as int));
    }
}

/// Reading the written digits of a number gives the number back.
proof fn lemma_digits_val_enc(n: u32)
    ensures
        digits_val(enc_number(n)) == n,
    decreases n,
{
    if n < 10 {
        assert(enc_number(n).drop_last() =~= Seq::<char>::empty());
        assert(digits_val(Seq::<char>::empty()) == 0);
        assert(digit_char(n as int) as int == 48 + n);
    } else {
        lemma_digits_val_enc(n / 10);
        assert(enc_number(n).drop_last() =~= enc_number(n / 10));
        assert(enc_number(n).last() == digit_char((n % 10) as int));
        assert(digit_char((n % 10) as int) as int == 48 + n % 10);
    }
}

/// A digit run stops exactly where the digits stop.
pub proof fn lemma_digit_run_concat(a: Seq<char>, t: Seq<char>)
    requires
        forall|i: int| 0 <= i < a.len() ==> is_digit_char(#[trigger] a[i]),
        t.len() == 0 || !is_digit_char(t[0]),
    ensures
        digit_run(a + t) == a.len(),
    decreases a.len(),
{
    if a.len() == 0 {
        assert(a + t =~= t);
    } else {
        assert((a + t)[0] == a[0]);
        assert((a + t).drop_first() =~= a.drop_first() + t);
        lemma_digit_run_concat(a.drop_first(), t);
    }
}

/// Ten to the given power.
pub open spec fn pow10(k: int) -> int
    decreases k,
{
    if k <= 0 {
        1
    } else {
        10 * pow10(k - 1)
    }
}

/// Ten to a larger power is no smaller.
pub proof fn lemma_pow10_mono(a: int, b: int)
    requires
        a <= b,
    ensures
        pow10(a) <= pow10(b),
    decreases b - a,
{
    if a < b {
        lemma_pow10_mono(a, b - 1);
        assert(pow10(b - 1) >= 1) by {
            lemma_pow10_pos(b - 1);
        }
    }
}

/// Ten to any power is positive.
pub proof fn lemma_pow10_pos(k: int)
    ensures
        pow10(k) >= 1,
    decreases k,
{
    if k > 0 {
        lemma_pow10_pos(k - 1);
    }
}

/// An all-digit sequence reads below ten to its length.
pub proof fn lemma_digits_val_upper(a: Seq<char>)
    requires
        forall|i: int| 0 <= i < a.len() ==> is_digit_char(#[trigger] a[i]),
    ensures
        0 <= digits_val(a),
        digits_val(a) < pow10(a.len() as int),
    decreases a.len(),
{
    if a.len() > 0 {
        let b = a.drop_last();
        lemma_digits_val_upper(b);
        let d = a.last() as int - 48;
        assert(is_digit_char(a.last()));
        assert(0 <= d < 10);
        assert(pow10(a.len() as int) == 10 * pow10(b.len() as int));
        assert(digits_val(a) == digits_val(b) * 10 + d);
        assert(digits_val(b) * 10 + d < 10 * pow10(b.len() as int) && 0 <= digits_val(b) * 10 + d)
            by (nonlinear_arith)
            requires
                0 <= digits_val(b),
                digits_val(b) < pow10(b.len() as int),
                0 <= d < 10,
        ;
    }
}

/// An all-digit sequence that does not start with a zero reads at least
/// ten to one less than its length.
pub proof fn lemma_digits_val_lower(a: Seq<char>)
    requires
        a.len() >= 1,
        forall|i: int| 0 <= i < a.len() ==> is_digit_char(#[trigger] a[i]),
        a[0] != '0',
    ensures
        digits_val(a) >= pow10(a.len() - 1),
    decreases a.len(),
{
    if a.len() == 1 {
        assert(a.drop_last() =~= Seq::<char>::empty());
        assert(digits_val(Seq::<char>::empty()) == 0);
        assert(a.last() == a[0]);
        assert('0' <= a[0] && a[0] <= '9' && a[0] != '0');
        assert(a[0] as int >= 49);
    } else {
        let b = a.drop_last();
        assert(b[0] == a[0]);
        lemma_digits_val_lower(b);
        let d = a.last() as int - 48;
        assert(is_digit_char(a.last()));
        assert(0 <= d);
        assert(pow10(a.len() - 1) == 10 * pow10(b.len() - 1));
        assert(digits_val(b) * 10 + d >= 10 * pow10(b.len() - 1)) by (nonlinear_arith)
            requires
                digits_val(b) >= pow10(b.len() - 1),
                0 <= d,
        ;
    }
}

/// Ten to the tenth power, written out.
pub proof fn lemma_pow10_ten()
    ensures
        pow10(10) == 10_000_000_000int,
{
    assert(pow10(0) == 1);
    assert(pow10(1) == 10);
    assert(pow10(2) == 100);
    assert(pow10(3) == 1000);
    assert(pow10(4) == 10000);
    assert(pow10(5) == 100000);
    assert(pow10(6) == 1000000);
    assert(pow10(7) == 10000000);
    assert(pow10(8) == 100000000);
    assert(pow10(9) == 1000000000);
    assert(pow10(10) == 10000000000);
}

/// Parsing reads back exactly the number that was written, and leaves
/// exactly what follows its digits.
proof fn lemma_parse_enc_number(n: u32, rest: Seq<char>)
    requires
        rest.len() == 0 || !is_digit_char(rest[0]),
    ensures
        parse_number(enc_number(n) + rest) == Some((n, rest)),
{
    let a = enc_number(n);
    let s = a + rest;
    lemma_enc_number_shape(n);
    assert(s[0] == a[0]);
    if n == 0 {
        assert(a =~= seq![digit_char(0)]);
        assert(s[0] == '0');
        assert(s.drop_first() =~= rest);
    } else {
        assert(s[0] != '0');
        lemma_digit_run_concat(a, rest);
        assert(s.take(a.len() as int) =~= a);
        lemma_digits_val_enc(n);
        assert(s.skip(a.len() as int) =~= rest);
    }
}

/// Parsing reads back exactly a written string-valued field.
proof fn lemma_parse_field_text(name: Seq<char>, v: Seq<char>, rest: Seq<char>)
    ensures
        parse_field(enc_string(name) + seq![':', ' '] + enc_string(v) + rest) == Some(
            ((name, FieldValue::Text(v)), rest),
        ),
{
    let r0 = seq![':', ' '] + enc_string(v) + rest;
    let s = enc_string(name) + seq![':', ' '] + enc_string(v) + rest;
    assert(s =~= enc_string(name) + r0);
    lemma_parse_enc_string(name, r0);
    assert(r0[0] == ':');
    lemma_skip_ws_stop(r0);
    assert(r0.drop_first() =~= seq![' '] + (enc_string(v) + rest));
    lemma_skip_ws_all(seq![' '], enc_string(v) + rest);
    let r2 = enc_string(v) + rest;
    assert(r2[0] == '"');
    lemma_skip_ws_stop(r2);
    lemma_parse_enc_string(v, rest);
}

/// Parsing reads back exactly a written number-valued field.
proof fn lemma_parse_field_number(name: Seq<char>, n: u32, rest: Seq<char>)
    requires
        rest.len() == 0 || !is_digit_char(rest[0]),
    ensures
        parse_field(enc_string(name) + seq![':', ' '] + enc_number(n) + rest) == Some(
            ((name, FieldValue::Number(n)), rest),
        ),
{
    let r0 = seq![':', ' '] + enc_number(n) + rest;
    let s = enc_string(name) + seq![':', ' '] + enc_number(n) + rest;
    assert(s =~= enc_string(name) + r0);
    lemma_parse_enc_string(name, r0);
    assert(r0[0] == ':');
    lemma_skip_ws_stop(r0);
    assert(r0.drop_first() =~= seq![' '] + (enc_number(n) + rest));
    lemma_skip_ws_all(seq![' '], enc_number(n) + rest);
    let r2 = enc_number(n) + rest;
    lemma_enc_number_shape(n);
    assert(r2[0] == enc_number(n)[0]);
    assert(is_digit_char(r2[0]));
    assert(r2[0] != '"');
    lemma_skip_ws_stop(r2);
    lemma_parse_enc_number(n, rest);
}

/// The four field names differ pairwise.
proof fn lemma_keys_distinct()
    ensures
        email_key() != username_key(),
        email_key() != phone_key(),
        email_key() != age_key(),
        username_key() != phone_key(),
        username_key() != age_key(),
        phone_key() != age_key(),
{
    reveal_strlit("email");
    reveal_strlit("username");
    reveal_strlit("phone");
    reveal_strlit("age");
    assert(email_key().len() == 5);
    assert(username_key().len() == 8);
    assert(phone_key().len() == 5);
    assert(age_key().len() == 3);
    assert(email_key()[0] == 'e');
    assert(phone_key()[0] == 'p');
}

/// Parsing reads back exactly the record an object was written from, and
/// leaves exactly what follows its closing brace.
#[verifier::rlimit(60)]
#[verifier::spinoff_prover]
proof fn lemma_parse_enc_record(u: UserView, rest: Seq<char>)
    ensures
        parse_record(enc_record(u) + rest) == Some((u, rest)),
{
    let ind = seq!['\n', ' ', ' ', ' ', ' '];
    let sep = seq![',', '\n', ' ', ' ', ' ', ' '];
    let f1 = enc_string(email_key()) + seq![':', ' '] + enc_string(u.email);
    let f2 = enc_string(username_key()) + seq![':', ' '] + enc_string(u.username);
    let f3 = enc_string(phone_key()) + seq![':', ' '] + enc_string(u.phone);
    let f4 = enc_string(age_key()) + seq![':', ' '] + enc_number(u.age);
    let close = seq!['\n', ' ', ' ', '}'];
    let s = enc_record(u) + rest;

    let tail4 = close + rest;
    let tail3 = sep + f4 + tail4;
    let tail2 = sep + f3 + tail3;
    let tail1 = sep + f2 + tail2;
    assert(s =~= seq!['{'] + ind + f1 + tail1);

    assert(s[0] == '{');
    assert(s.drop_first() =~= ind + (f1 + tail1));
    lemma_skip_ws_all(ind, f1 + tail1);
    assert((f1 + tail1)[0] == '"');
    lemma_skip_ws_stop(f1 + tail1);
    assert(f1 + tail1 =~= enc_string(email_key()) + seq![':', ' '] + enc_string(u.email) + tail1);
    lemma_parse_field_text(email_key(), u.email, tail1);

    assert(tail1[0] == ',');
    lemma_skip_ws_stop(tail1);
    assert(tail1.drop_first() =~= ind + (f2 + tail2));
    lemma_skip_ws_all(ind, f2 + tail2);
    assert((f2 + tail2)[0] == '"');
    lemma_skip_ws_stop(f2 + tail2);
    assert(f2 + tail2 =~= enc_string(username_key()) + seq![':', ' '] + enc_string(u.username)
        + tail2);
    lemma_parse_field_text(username_key(), u.username, tail2);

    assert(tail2[0] == ',');
    lemma_skip_ws_stop(tail2);
    assert(tail2.drop_first() =~= ind + (f3 + tail3));
    lemma_skip_ws_all(ind, f3 + tail3);
    assert((f3 + tail3)[0] == '"');
    lemma_skip_ws_stop(f3 + tail3);
    assert(f3 + tail3 =~= enc_string(phone_key()) + seq![':', ' '] + enc_string(u.phone) + tail3);
    lemma_parse_field_text(phone_key(), u.phone, tail3);

    assert(tail3[0] == ',');
    lemma_skip_ws_stop(tail3);
    assert(tail3.drop_first() =~= ind + (f4 + tail4));
    lemma_skip_ws_all(ind, f4 + tail4);
    assert((f4 + tail4)[0] == '"');
    lemma_skip_ws_stop(f4 + tail4);
    assert(f4 + tail4 =~= enc_string(age_key()) + seq![':', ' '] + enc_number(u.age) + tail4);
    assert(tail4[0] == '\n' && !is_digit_char('\n'));
    lemma_parse_field_number(age_key(), u.age, tail4);

    assert(tail4[0] == '\n');
    assert(tail4.drop_first() =~= seq![' ', ' '] + (seq!['}'] + rest));
    lemma_skip_ws_all(seq!['\n', ' ', ' '], seq!['}'] + rest);
    assert(tail4 =~= seq!['\n', ' ', ' '] + (seq!['}'] + rest));
    assert((seq!['}'] + rest)[0] == '}');
    lemma_skip_ws_stop(seq!['}'] + rest);
    assert((seq!['}'] + rest).drop_first() =~= rest);

    lemma_keys_distinct();
    assert(build_record(
        (email_key(), FieldValue::Text(u.email)),
        (username_key(), FieldValue::Text(u.username)),
        (phone_key(), FieldValue::Text(u.phone)),
        (age_key(), FieldValue::Number(u.age)),
    ) == Some(u));
}

/// Parsing reads back exactly the pair a key and record were written
/// from, and leaves exactly what follows the record's closing brace.
#[verifier::rlimit(60)]
#[verifier::spinoff_prover]
proof fn lemma_parse_enc_pair(u: UserView, tail: Seq<char>)
    ensures
        parse_pair(enc_string(u.email) + seq![':', ' '] + enc_record(u) + tail) == Some((u, tail)),
{
    let r0 = seq![':', ' '] + enc_record(u) + tail;
    let s = enc_string(u.email) + seq![':', ' '] + enc_record(u) + tail;
    assert(s =~= enc_string(u.email) + r0);
    lemma_parse_enc_string(u.email, r0);
    assert(r0[0] == ':');
    lemma_skip_ws_stop(r0);
    assert(r0.drop_first() =~= seq![' '] + (enc_record(u) + tail));
    lemma_skip_ws_all(seq![' '], enc_record(u) + tail);
    assert((enc_record(u) + tail)[0] == '{');
    lemma_skip_ws_stop(enc_record(u) + tail);
    lemma_parse_enc_record(u, tail);
}

/// Parsing reads back exactly a single written pair followed by the
/// closing brace.
#[verifier::rlimit(100)]
#[verifier::spinoff_prover]
proof fn lemma_parse_enc_pairs_last(u: UserView, rest: Seq<char>, fuel: nat)
    requires
        fuel >= 1,
    ensures
        parse_pairs(skip_ws(enc_pairs(seq![u]) + seq!['\n', '}'] + rest), fuel) == Some(
            (seq![u], rest),
        ),
{
    let close = seq!['\n', '}'];
    let rs = seq![u];
    assert(rs[0] == u && rs.len() == 1);
    let y = enc_string(u.email) + seq![':', ' '] + enc_record(u);
    let tail = close + rest;
    assert(enc_pairs(rs) + close + rest =~= seq![' ', ' '] + (y + tail));
    lemma_skip_ws_all(seq![' ', ' '], y + tail);
    assert((y + tail)[0] == '"');
    lemma_skip_ws_stop(y + tail);
    assert(y + tail =~= enc_string(u.email) + seq![':', ' '] + enc_record(u) + tail);
    lemma_parse_enc_pair(u, tail);

    // After the record: white space, then the closing brace.
    assert(tail =~= seq!['\n'] + (seq!['}'] + rest));
    lemma_skip_ws_all(seq!['\n'], seq!['}'] + rest);
    assert((seq!['}'] + rest)[0] == '}');
    lemma_skip_ws_stop(seq!['}'] + rest);
    assert((seq!['}'] + rest).drop_first() =~= rest);
}

/// Parsing reads back one written pair and then the pairs that follow it
/// over the comma.
#[verifier::rlimit(100)]
#[verifier::spinoff_prover]
proof fn lemma_parse_enc_pairs_more(u: UserView, rs1: Seq<UserView>, rest: Seq<char>, fuel: nat)
    requires
        fuel >= 1,
        rs1.len() >= 1,
        parse_pairs(skip_ws(enc_pairs(rs1) + seq!['\n', '}'] + rest), (fuel - 1) as nat) == Some(
            (rs1, rest),
        ),
    ensures
        parse_pairs(skip_ws(enc_pairs(seq![u] + rs1) + seq!['\n', '}'] + rest), fuel) == Some(
            (seq![u] + rs1, rest),
        ),
{
    let close = seq!['\n', '}'];
    let rs = seq![u] + rs1;
    assert(rs[0] == u && rs.len() == 1 + rs1.len());
    assert(rs.drop_first() =~= rs1);
    let y = enc_string(u.email) + seq![':', ' '] + enc_record(u);
    let tail = seq![',', '\n'] + enc_pairs(rs1) + close + rest;
    assert(enc_pairs(rs) + close + rest =~= seq![' ', ' '] + (y + tail));
    lemma_skip_ws_all(seq![' ', ' '], y + tail);
    assert((y + tail)[0] == '"');
    lemma_skip_ws_stop(y + tail);
    assert(y + tail =~= enc_string(u.email) + seq![':', ' '] + enc_record(u) + tail);
    lemma_parse_enc_pair(u, tail);

    // After the record: the comma, then the remaining pairs.
    assert(tail[0] == ',');
    lemma_skip_ws_stop(tail);
    assert(tail.drop_first() =~= seq!['\n'] + (enc_pairs(rs1) + close + rest));
    lemma_skip_ws_all(seq!['\n'], enc_pairs(rs1) + close + rest);
}

/// Parsing reads back exactly the pair list that was written, given fuel
/// for every pair, and leaves exactly what follows the closing brace.
proof fn lemma_parse_enc_pairs(rs: Seq<UserView>, rest: Seq<char>, fuel: nat)
    requires
        rs.len() >= 1,
        fuel >= rs.len(),
    ensures
        parse_pairs(skip_ws(enc_pairs(rs) + seq!['\n', '}'] + rest), fuel) == Some((rs, rest)),
    decreases rs.len(),
{
    if rs.len() == 1 {
        assert(rs =~= seq![rs[0]]);
        lemma_parse_enc_pairs_last(rs[0], rest, fuel);
    } else {
        lemma_parse_enc_pairs(rs.drop_first(), rest, (fuel - 1) as nat);
        lemma_parse_enc_pairs_more(rs[0], rs.drop_first(), rest, fuel);
        assert(rs =~= seq![rs[0]] + rs.drop_first());
    }
}

/// Every written pair list is at least one character per pair long.
proof fn lemma_enc_pairs_len(rs: Seq<UserView>)
    ensures
        enc_pairs(rs).len() >= 4 * rs.len(),
    decreases rs.len(),
{
    if rs.len() > 1 {
        lemma_enc_pairs_len(rs.drop_first());
    }
}

/// Writing a record set and reading the document back yields exactly the
/// records that were written, in order.
#[verifier::rlimit(60)]
#[verifier::spinoff_prover]
pub proof fn lemma_parse_enc_doc(rs: Seq<UserView>)
    requires
        distinct_emails(rs),
    ensures
        parse_doc(enc_doc(rs)) == Some(rs),
{
    if rs.len() == 0 {
        let s = seq!['{', '}'];
        lemma_skip_ws_stop(s);
        assert(s.drop_first() =~= seq!['}']);
        lemma_skip_ws_stop(seq!['}']);
        assert(seq!['}'].drop_first() =~= Seq::<char>::empty());
        assert(skip_ws(Seq::<char>::empty()).len() == 0);
        assert(parse_doc(enc_doc(rs)) == Some(Seq::<UserView>::empty()));
        assert(rs =~= Seq::<UserView>::empty());
    } else {
        let close = seq!['\n', '}'];
        let s = seq!['{', '\n'] + enc_pairs(rs) + close;
        assert(enc_doc(rs) =~= s);
        assert(s[0] == '{');
        lemma_skip_ws_stop(s);
        assert(s.drop_first() =~= seq!['\n'] + (enc_pairs(rs) + close + Seq::<char>::empty()));
        lemma_skip_ws_all(seq!['\n'], enc_pairs(rs) + close + Seq::<char>::empty());
        let r1 = skip_ws(enc_pairs(rs) + close + Seq::<char>::empty());

        // The first character after the opening brace's white space is the
        // first pair's quote, not a closing brace.
        let u = rs[0];
        let y = enc_string(u.email) + seq![':', ' '] + enc_record(u);
        if rs.len() == 1 {
            assert(enc_pairs(rs) + close + Seq::<char>::empty() =~= seq![' ', ' '] + (y + (close
                + Seq::<char>::empty())));
            lemma_skip_ws_all(seq![' ', ' '], y + (close + Seq::<char>::empty()));
            assert((y + (close + Seq::<char>::empty()))[0] == '"');
            lemma_skip_ws_stop(y + (close + Seq::<char>::empty()));
            assert(r1.len() == y.len() + 2);
        } else {
            let tail = seq![',', '\n'] + enc_pairs(rs.drop_first()) + close + Seq::<char>::empty();
            assert(enc_pairs(rs) + close + Seq::<char>::empty() =~= seq![' ', ' '] + (y + tail));
            lemma_skip_ws_all(seq![' ', ' '], y + tail);
            assert((y + tail)[0] == '"');
            lemma_skip_ws_stop(y + tail);
            lemma_enc_pairs_len(rs.drop_first());
            assert(r1.len() >= y.len() + 4 * (rs.len() - 1));
        }
        assert(r1[0] == '"');
        assert(enc_string(u.email).len() >= 2);
        assert(enc_record(u).len() >= 4);
        assert(r1.len() >= rs.len());

        lemma_parse_enc_pairs(rs, Seq::<char>::empty(), r1.len() as nat);
        assert(skip_ws(Seq::<char>::empty()).len() == 0);
    }
}

} // verus!
