use vstd::prelude::*;
use crate::json::{
    enc_char, enc_doc, enc_number, enc_record, enc_string, enc_text, hex_digit_char,
};
use crate::store::views;
use crate::text::string_of_chars;
use crate::user::User;

verus! {

// The executable side of the document codec: writing a record set as the
// JSON document the grammar in `json` describes.

/// The character for a hexadecimal digit value, as `hex_digit_char` gives
/// it.
fn hex_char(d: u32) -> (h: char)
    requires
        d < 16,
    ensures
        h == hex_digit_char(d as int),
{
    if d == 0 {
        '0'
    } else if d == 1 {
        '1'
    } else if d == 2 {
        '2'
    } else if d == 3 {
        '3'
    } else if d == 4 {
        '4'
    } else if d == 5 {
        '5'
    } else if d == 6 {
        '6'
    } else if d == 7 {
        '7'
    } else if d == 8 {
        '8'
    } else if d == 9 {
        '9'
    } else if d == 10 {
        'a'
    } else if d == 11 {
        'b'
    } else if d == 12 {
        'c'
    } else if d == 13 {
        'd'
    } else if d == 14 {
        'e'
    } else {
        'f'
    }
}

/// The character for a decimal digit value, as `digit_char` gives it.
fn dec_char(d: u32) -> (h: char)
    requires
        d < 10,
    ensures
        h == crate::json::digit_char(d as int),
{
    hex_char(d)
}

/// Appends the written form of one string character.
fn push_enc_char(out: &mut Vec<char>, c: char)
    ensures
        final(out)@ == old(out)@ + enc_char(c),
{
    let ghost start = out@;
    if c == '"' {
        out.push('\\');
        out.push('"');
    } else if c == '\\' {
        out.push('\\');
        out.push('\\');
    } else if c == '\u{8}' {
        out.push('\\');
        out.push('b');
    } else if c == '\t' {
        out.push('\\');
        out.push('t');
    } else if c == '\n' {
        out.push('\\');
        out.push('n');
    } else if c == '\u{c}' {
        out.push('\\');
        out.push('f');
    } else if c == '\r' {
        out.push('\\');
        out.push('r');
    } else if (c as u32) < 32 {
        let v = c as u32;
        out.push('\\');
        out.push('u');
        out.push('0');
        out.push('0');
        out.push(hex_char(v / 16));
        out.push(hex_char(v % 16));
    } else {
        out.push(c);
    }
    proof {
        assert(out@ =~= start + enc_char(c));
    }
}

/// Appends the written form of a string, quotes included.
#[verifier::loop_isolation(false)]
fn push_string(out: &mut Vec<char>, s: &str)
    ensures
        final(out)@ == old(out)@ + enc_string(s@),
{
    let ghost start = out@;
    out.push('"');
    let n = s.unicode_len();
    let mut i: usize = 0;
    while i < n
        invariant
            0 <= i <= n,
            out@ == start + seq!['"'] + enc_text(s@.take(i as int)),
        decreases n - i,
    {
        push_enc_char(out, s.get_char(i));
        proof {
            lemma_enc_text_snoc(s@.take(i as int), s@[i as int]);
            assert(s@.take(i as int).push(s@[i as int]) =~= s@.take(i + 1));
        }
        i += 1;
    }
    out.push('"');
    proof {
        assert(s@.take(n as int) =~= s@);
        assert(out@ =~= start + enc_string(s@));
    }
}

/// Writing one more character extends the written body at its end.
proof fn lemma_enc_text_snoc(a: Seq<char>, c: char)
    ensures
        enc_text(a.push(c)) == enc_text(a) + enc_char(c),
    decreases a.len(),
{
    if a.len() == 0 {
        assert(a.push(c)[0] == c);
        assert(a.push(c).drop_first() =~= Seq::<char>::empty());
        assert(enc_text(Seq::<char>::empty()) =~= Seq::<char>::empty());
        assert(enc_text(a) =~= Seq::<char>::empty());
        assert(enc_text(a.push(c)) =~= enc_text(a) + enc_char(c));
    } else {
        assert(a.push(c)[0] == a[0]);
        assert(a.push(c).drop_first() =~= a.drop_first().push(c));
        lemma_enc_text_snoc(a.drop_first(), c);
        assert(enc_text(a.push(c)) =~= enc_text(a) + enc_char(c));
    }
}

/// Appends the written decimal form of a number.
fn push_number(out: &mut Vec<char>, n: u32)
    ensures
        final(out)@ == old(out)@ + enc_number(n),
    decreases n,
{
    let ghost start = out@;
    if n < 10 {
        out.push(dec_char(n));
        proof {
            assert(out@ =~= start + enc_number(n));
        }
    } else {
        push_number(out, n / 10);
        out.push(dec_char(n % 10));
        proof {
            assert(out@ =~= start + enc_number(n));
        }
    }
}

/// Appends the written form of one record object.
#[verifier::rlimit(100)]
#[verifier::spinoff_prover]
fn push_record(out: &mut Vec<char>, u: &User)
    ensures
        final(out)@ == old(out)@ + enc_record(u@),
{
    let ghost start = out@;
    out.push('{');
    out.push('\n');
    out.push(' ');
    out.push(' ');
    out.push(' ');
    out.push(' ');
    push_string(out, "email");
    out.push(':');
    out.push(' ');
    push_string(out, u.email.as_str());
    out.push(',');
    out.push('\n');
    out.push(' ');
    out.push(' ');
    out.push(' ');
    out.push(' ');
    push_string(out, "username");
    out.push(':');
    out.push(' ');
    push_string(out, u.username.as_str());
    out.push(',');
    out.push('\n');
    out.push(' ');
    out.push(' ');
    out.push(' ');
    out.push(' ');
    push_string(out, "phone");
    out.push(':');
    out.push(' ');
    push_string(out, u.phone.as_str());
    out.push(',');
    out.push('\n');
    out.push(' ');
    out.push(' ');
    out.push(' ');
    out.push(' ');
    push_string(out, "age");
    out.push(':');
    out.push(' ');
    push_number(out, u.age);
    out.push('\n');
    out.push(' ');
    out.push(' ');
    out.push('}');
    proof {
        assert(out@ =~= start + enc_record(u@));
    }
}

/// Appends the written pairs for the records from position `i` on,
/// comma-separated.
#[verifier::rlimit(100)]
#[verifier::spinoff_prover]
fn push_pairs(out: &mut Vec<char>, users: &Vec<User>, i: usize)
    requires
        i < users@.len(),
    ensures
        final(out)@ == old(out)@ + crate::json::enc_pairs(views(users@).skip(i as int)),
    decreases users@.len() - i,
{
    let ghost start = out@;
    let ghost rs = views(users@).skip(i as int);
    out.push(' ');
    out.push(' ');
    push_string(out, users[i].email.as_str());
    out.push(':');
    out.push(' ');
    push_record(out, &users[i]);
    if i < users.len() - 1 {
        out.push(',');
        out.push('\n');
        push_pairs(out, users, i + 1);
        proof {
            assert(rs[0] == users@[i as int]@);
            assert(rs.drop_first() =~= views(users@).skip(i + 1));
            assert(rs.len() > 1);
            assert(out@ =~= start + crate::json::enc_pairs(rs));
        }
    } else {
        proof {
            assert(rs[0] == users@[i as int]@);
            assert(rs.len() == 1);
            assert(out@ =~= start + crate::json::enc_pairs(rs));
        }
    }
}

/// The record set written as one JSON document, pretty-printed: an object
/// that maps each record's email to its four fields.
pub fn encode_users(users: &Vec<User>) -> (r: String)
    ensures
        r@ == enc_doc(views(users@)),
{
    let mut out: Vec<char> = Vec::new();
    if users.len() == 0 {
        out.push('{');
        out.push('}');
        proof {
            assert(views(users@).len() == 0);
            assert(out@ =~= enc_doc(views(users@)));
        }
    } else {
        out.push('{');
        out.push('\n');
        push_pairs(&mut out, users, 0);
        out.push('\n');
        out.push('}');
        proof {
            assert(views(users@).skip(0) =~= views(users@));
            assert(out@ =~= enc_doc(views(users@)));
        }
    }
    string_of_chars(&out)
}

} // verus!
