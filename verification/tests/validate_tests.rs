use user_directory::validate::{validate_age, validate_email, validate_phone, validate_username};

#[test]
fn emails_with_local_at_domain_and_letter_label_pass() {
    assert!(validate_email("a@b.com"));
    assert!(validate_email("user@example.co"));
    assert!(validate_email("first.last%+-_@sub.domain-x.com"));
    assert!(validate_email("A9@X0.de"));
}

#[test]
fn emails_missing_a_part_fail() {
    assert!(!validate_email(""));
    assert!(!validate_email("bad-email"));
    assert!(!validate_email("@b.com"));
    assert!(!validate_email("a@.com"));
    assert!(!validate_email("a@b"));
    assert!(!validate_email("a@b."));
    assert!(!validate_email("a@b.c"));
    assert!(!validate_email("a@b.c0m"));
    assert!(!validate_email("a b@c.com"));
    assert!(!validate_email("a@b@c.com"));
    assert!(!validate_email("a@b.com "));
}

#[test]
fn email_domain_may_hold_inner_dots() {
    assert!(validate_email("a@b..co"));
    assert!(validate_email("a@x.y.z.org"));
}

#[test]
fn usernames_need_three_characters_once_trimmed() {
    assert!(validate_username("abc"));
    assert!(validate_username("testuser"));
    assert!(validate_username("  abc  "));
    assert!(!validate_username("ab"));
    assert!(!validate_username("  ab  "));
    assert!(!validate_username("     "));
    assert!(!validate_username(""));
}

#[test]
fn phones_need_ten_digits_and_nothing_else() {
    assert!(validate_phone("1234567890"));
    assert!(validate_phone("123456789012345"));
    assert!(!validate_phone("123456789"));
    assert!(!validate_phone("123-456-7890"));
    assert!(!validate_phone("12345678 0"));
    assert!(!validate_phone(""));
}

#[test]
fn ages_up_to_one_hundred_fifty_pass() {
    assert!(validate_age(0));
    assert!(validate_age(150));
    assert!(!validate_age(151));
    assert!(!validate_age(200));
}
