use vstd::prelude::*;

verus! {

/// Largest age a record may carry.
pub const MAX_AGE: u32 = 150;

/// Characters allowed in the local part of an email address, before the `@`.
pub open spec fn is_email_local_char(c: char) -> bool {
    ('a' <= c && c <= 'z') || ('A' <= c && c <= 'Z') || ('0' <= c && c <= '9') || c == '.'
        || c == '_' || c == '%' || c == '+' || c == '-'
}

/// Characters allowed in the domain part of an email address, between the
/// `@` and the dot that starts the top-level label.
pub open spec fn is_email_domain_char(c: char) -> bool {
    ('a' <= c && c <= 'z') || ('A' <= c && c <= 'Z') || ('0' <= c && c <= '9') || c == '.'
        || c == '-'
}

/// An ASCII letter.
pub open spec fn is_alpha_char(c: char) -> bool {
    ('a' <= c && c <= 'z') || ('A' <= c && c <= 'Z')
}

/// An ASCII decimal digit.
pub open spec fn is_digit_char(c: char) -> bool {
    '0' <= c && c <= '9'
}

/// One concrete split of `s` into local part, `@`, domain and top-level
/// label: `a` is the position of the `@`, `d` the position of the dot that
/// starts the top-level label.
pub open spec fn email_witness(s: Seq<char>, a: int, d: int) -> bool {
    &&& 1 <= a
    &&& a + 2 <= d
    &&& d + 3 <= s.len()
    &&& s[a] == '@'
    &&& s[d] == '.'
    &&& (forall|i: int| 0 <= i < a ==> is_email_local_char(#[trigger] s[i]))
    &&& (forall|i: int| a < i < d ==> is_email_domain_char(#[trigger] s[i]))
    &&& (forall|i: int| d < i < s.len() ==> is_alpha_char(#[trigger] s[i]))
}

/// Standard email syntax: one or more local-part characters, `@`, one or
/// more domain characters, then a dot followed by a top-level label of at
/// least two letters.
pub open spec fn valid_email(s: Seq<char>) -> bool {
    exists|a: int, d: int| email_witness(s, a, d)
}

/// The Unicode white-space characters, as the White_Space property lists
/// them.
pub open spec fn is_space_char(c: char) -> bool {
    c == ' ' || c == '\t' || c == '\n' || c == '\r' || c == '\u{b}' || c == '\u{c}'
        || c == '\u{85}' || c == '\u{a0}' || c == '\u{1680}' || ('\u{2000}' <= c && c
        <= '\u{200a}') || c == '\u{2028}' || c == '\u{2029}' || c == '\u{202f}' || c == '\u{205f}'
        || c == '\u{3000}'
}

/// The sequence without its leading white space.
pub open spec fn trim_start(s: Seq<char>) -> Seq<char>
    decreases s.len(),
{
    if s.len() > 0 && is_space_char(s[0]) {
        trim_start(s.drop_first())
    } else {
        s
    }
}

/// The sequence without its trailing white space.
pub open spec fn trim_end(s: Seq<char>) -> Seq<char>
    decreases s.len(),
{
    if s.len() > 0 && is_space_char(s.last()) {
        trim_end(s.drop_last())
    } else {
        s
    }
}

/// The sequence without leading and trailing white space.
pub open spec fn trimmed(s: Seq<char>) -> Seq<char> {
    trim_end(trim_start(s))
}

/// A username is valid when it still has at least three characters once
/// surrounding white space is discounted.
pub open spec fn valid_username(s: Seq<char>) -> bool {
    trimmed(s).len() >= 3
}

/// A phone number is valid when it is nothing but digits, at least ten of
/// them.
pub open spec fn valid_phone(s: Seq<char>) -> bool {
    s.len() >= 10 && (forall|i: int| 0 <= i < s.len() ==> is_digit_char(#[trigger] s[i]))
}

/// An age is valid when it does not exceed `MAX_AGE`.
pub open spec fn valid_age(age: u32) -> bool {
    age <= MAX_AGE
}

/// White-space test matching `is_space_char`.
pub fn is_space(c: char) -> (b: bool)
    ensures
        b == is_space_char(c),
{
    c == ' ' || c == '\t' || c == '\n' || c == '\r' || c == '\u{b}' || c == '\u{c}'
        || c == '\u{85}' || c == '\u{a0}' || c == '\u{1680}' || ('\u{2000}' <= c && c
        <= '\u{200a}') || c == '\u{2028}' || c == '\u{2029}' || c == '\u{202f}' || c == '\u{205f}'
        || c == '\u{3000}'
}

fn is_local_char(c: char) -> (b: bool)
    ensures
        b == is_email_local_char(c),
{
    ('a' <= c && c <= 'z') || ('A' <= c && c <= 'Z') || ('0' <= c && c <= '9') || c == '.'
        || c == '_' || c == '%' || c == '+' || c == '-'
}

fn is_domain_char(c: char) -> (b: bool)
    ensures
        b == is_email_domain_char(c),
{
    ('a' <= c && c <= 'z') || ('A' <= c && c <= 'Z') || ('0' <= c && c <= '9') || c == '.'
        || c == '-'
}

fn is_alpha(c: char) -> (b: bool)
    ensures
        b == is_alpha_char(c),
{
    ('a' <= c && c <= 'z') || ('A' <= c && c <= 'Z')
}

fn is_digit(c: char) -> (b: bool)
    ensures
        b == is_digit_char(c),
{
    '0' <= c && c <= '9'
}

/// The `@` of any split of `s` that `email_witness` accepts sits at the
/// first `@` of `s`.
proof fn lemma_email_at_pinned(s: Seq<char>, at: int)
    requires
        0 <= at < s.len(),
        s[at] == '@',
        forall|j: int| 0 <= j < at ==> s[j] != '@',
    ensures
        forall|a0: int, d0: int| email_witness(s, a0, d0) ==> a0 == at,
{
    assert forall|a0: int, d0: int| email_witness(s, a0, d0) implies a0 == at by {
        if a0 < at {
            assert(s[a0] == '@');
            assert(false);
        } else if a0 > at {
            assert(is_email_local_char(s[at]));
            assert(false);
        }
    }
}

/// The dot of any split of `s` that `email_witness` accepts sits at the
/// last dot after the first `@`.
proof fn lemma_email_dot_pinned(s: Seq<char>, at: int, dot: int)
    requires
        0 <= at < s.len(),
        s[at] == '@',
        forall|j: int| 0 <= j < at ==> s[j] != '@',
        at < dot < s.len(),
        s[dot] == '.',
        forall|j: int| dot < j < s.len() ==> s[j] != '.',
    ensures
        forall|a0: int, d0: int| email_witness(s, a0, d0) ==> a0 == at && d0 == dot,
{
    lemma_email_at_pinned(s, at);
    assert forall|a0: int, d0: int| email_witness(s, a0, d0) implies a0 == at && d0 == dot by {
        assert(a0 == at);
        if d0 < dot {
            assert(is_alpha_char(s[dot]));
            assert(false);
        } else if d0 > dot {
            assert(s[d0] != '.');
            assert(false);
        }
    }
}

/// Decides email validity, exactly as `valid_email` states it.
#[verifier::loop_isolation(false)]
pub fn validate_email(email: &str) -> (b: bool)
    ensures
        b == valid_email(email@),
{
    let ghost s = email@;
    let n = email.unicode_len();

    // Find the first '@'.
    let mut at: usize = 0;
    while at < n && email.get_char(at) != '@'
        invariant
            0 <= at <= n == s.len(),
            forall|j: int| 0 <= j < at ==> s[j] != '@',
        decreases n - at,
    {
        at += 1;
    }
    if at == n {
        proof {
            if valid_email(s) {
                let (a0, d0) = choose|a0: int, d0: int| email_witness(s, a0, d0);
                assert(s[a0] == '@');
                assert(false);
            }
        }
        return false;
    }
    if at == 0 {
        proof {
            if valid_email(s) {
                let (a0, d0) = choose|a0: int, d0: int| email_witness(s, a0, d0);
                assert(is_email_local_char(s[0]));
                assert(false);
            }
        }
        return false;
    }
    proof {
        lemma_email_at_pinned(s, at as int);
    }

    // Every character before the '@' must be a local-part character.
    let mut i: usize = 0;
    while i < at
        invariant
            0 <= i <= at < n == s.len(),
            forall|j: int| 0 <= j < i ==> is_email_local_char(#[trigger] s[j]),
        decreases at - i,
    {
        if !is_local_char(email.get_char(i)) {
            proof {
                if valid_email(s) {
                    let (a0, d0) = choose|a0: int, d0: int| email_witness(s, a0, d0);
                    lemma_email_at_pinned(s, at as int);
                    assert(is_email_local_char(s[i as int]));
                    assert(false);
                }
            }
            return false;
        }
        i += 1;
    }

    // Find the last '.' after the '@'.
    let mut dot: usize = n;
    let mut k: usize = n;
    while k > at + 1
        invariant
            at + 1 <= k <= n == s.len(),
            dot == n || (k <= dot && at < dot && dot < n && s[dot as int] == '.'),
            dot == n ==> (forall|j: int| k <= j < n ==> s[j] != '.'),
            dot < n ==> (forall|j: int| dot < j < n ==> s[j] != '.'),
        decreases k,
    {
        k -= 1;
        if dot == n && email.get_char(k) == '.' {
            dot = k;
        }
    }
    if dot == n {
        proof {
            if valid_email(s) {
                let (a0, d0) = choose|a0: int, d0: int| email_witness(s, a0, d0);
                lemma_email_at_pinned(s, at as int);
                assert(s[d0] != '.');
                assert(false);
            }
        }
        return false;
    }
    proof {
        lemma_email_dot_pinned(s, at as int, dot as int);
    }

    if dot < at + 2 || n - dot < 3 {
        proof {
            if valid_email(s) {
                let (a0, d0) = choose|a0: int, d0: int| email_witness(s, a0, d0);
                assert(false);
            }
        }
        return false;
    }

    // Every character between the '@' and the last dot must be a domain
    // character.
    let mut i: usize = at + 1;
    while i < dot
        invariant
            at + 1 <= i <= dot < n == s.len(),
            forall|j: int| at < j < i ==> is_email_domain_char(#[trigger] s[j]),
        decreases dot - i,
    {
        if !is_domain_char(email.get_char(i)) {
            proof {
                if valid_email(s) {
                    let (a0, d0) = choose|a0: int, d0: int| email_witness(s, a0, d0);
                    lemma_email_dot_pinned(s, at as int, dot as int);
                    assert(is_email_domain_char(s[i as int]));
                    assert(false);
                }
            }
            return false;
        }
        i += 1;
    }

    // Every character after the last dot must be a letter.
    let mut i: usize = dot + 1;
    while i < n
        invariant
            at < dot < i <= n == s.len(),
            dot >= at + 2,
            forall|j: int| dot < j < i ==> is_alpha_char(#[trigger] s[j]),
        decreases n - i,
    {
        if !is_alpha(email.get_char(i)) {
            proof {
                if valid_email(s) {
                    let (a0, d0) = choose|a0: int, d0: int| email_witness(s, a0, d0);
                    lemma_email_dot_pinned(s, at as int, dot as int);
                    assert(is_alpha_char(s[i as int]));
                    assert(false);
                }
            }
            return false;
        }
        i += 1;
    }

    proof {
        assert(email_witness(s, at as int, dot as int));
    }
    true
}

/// Dropping `k` leading white-space characters, up to the first character
/// that is not white space, is what `trim_start` does.
proof fn lemma_trim_start_skip(s: Seq<char>, k: int)
    requires
        0 <= k <= s.len(),
        forall|j: int| 0 <= j < k ==> is_space_char(#[trigger] s[j]),
        k == s.len() || !is_space_char(s[k]),
    ensures
        trim_start(s) == s.skip(k),
    decreases k,
{
    if k == 0 {
        assert(s.skip(0) =~= s);
    } else {
        let t = s.drop_first();
        assert(forall|j: int| 0 <= j < k - 1 ==> is_space_char(#[trigger] t[j]));
        lemma_trim_start_skip(t, k - 1);
        assert(t.skip(k - 1) =~= s.skip(k));
    }
}

/// Keeping the first `k` characters, back to the last character that is
/// not white space, is what `trim_end` does.
proof fn lemma_trim_end_take(s: Seq<char>, k: int)
    requires
        0 <= k <= s.len(),
        forall|j: int| k <= j < s.len() ==> is_space_char(#[trigger] s[j]),
        k == 0 || !is_space_char(s[k - 1]),
    ensures
        trim_end(s) == s.take(k),
    decreases s.len(),
{
    if k == s.len() {
        assert(s.take(k) =~= s);
    } else {
        let t = s.drop_last();
        assert(is_space_char(s.last()));
        assert(forall|j: int| k <= j < t.len() ==> is_space_char(#[trigger] t[j]));
        lemma_trim_end_take(t, k);
        assert(t.take(k) =~= s.take(k));
    }
}

/// Decides username validity, exactly as `valid_username` states it.
#[verifier::loop_isolation(false)]
pub fn validate_username(username: &str) -> (b: bool)
    ensures
        b == valid_username(username@),
{
    let ghost s = username@;
    let n = username.unicode_len();

    // First character that is not white space.
    let mut lo: usize = 0;
    while lo < n && is_space(username.get_char(lo))
        invariant
            0 <= lo <= n,
            forall|j: int| 0 <= j < lo ==> is_space_char(#[trigger] s[j]),
        decreases n - lo,
    {
        lo += 1;
    }
    proof {
        lemma_trim_start_skip(s, lo as int);
    }
    if lo == n {
        proof {
            assert(s.skip(lo as int).len() == 0);
            assert(trim_end(s.skip(lo as int)) == s.skip(lo as int));
        }
        return false;
    }

    // Last character that is not white space.
    let mut hi: usize = n;
    while hi > lo && is_space(username.get_char(hi - 1))
        invariant
            lo <= hi <= n,
            forall|j: int| hi <= j < n ==> is_space_char(#[trigger] s[j]),
        decreases hi,
    {
        hi -= 1;
    }
    proof {
        // The scan from the right stops at or after the first non-space
        // character found from the left.
        if hi == lo {
            assert(is_space_char(s[lo as int]));
            assert(false);
        }
        let t = s.skip(lo as int);
        assert(forall|j: int| hi - lo <= j < t.len() ==> is_space_char(#[trigger] t[j]));
        assert(!is_space_char(t[hi - lo - 1]));
        lemma_trim_end_take(t, hi - lo);
        assert(trimmed(s).len() == hi - lo);
    }
    hi - lo >= 3
}

/// Decides phone validity, exactly as `valid_phone` states it.
#[verifier::loop_isolation(false)]
pub fn validate_phone(phone: &str) -> (b: bool)
    ensures
        b == valid_phone(phone@),
{
    let n = phone.unicode_len();
    if n < 10 {
        return false;
    }
    let mut i: usize = 0;
    while i < n
        invariant
            0 <= i <= n,
            forall|j: int| 0 <= j < i ==> is_digit_char(#[trigger] phone@[j]),
        decreases n - i,
    {
        if !is_digit(phone.get_char(i)) {
            return false;
        }
        i += 1;
    }
    true
}

/// Decides age validity, exactly as `valid_age` states it.
pub fn validate_age(age: u32) -> (b: bool)
    ensures
        b == valid_age(age),
{
    age <= MAX_AGE
}

} // verus!
