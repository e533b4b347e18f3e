use user_directory::codec::encode_users;
use user_directory::parse::parse_users;
use user_directory::user::User;

fn user(email: &str, username: &str, phone: &str, age: u32) -> User {
    User {
        email: email.to_string(),
        username: username.to_string(),
        phone: phone.to_string(),
        age,
    }
}

#[test]
fn empty_set_round_trips() {
    let records: Vec<User> = Vec::new();
    let doc = encode_users(&records);
    assert_eq!(doc, "{}");
    assert_eq!(parse_users(&doc).unwrap(), records);
}

#[test]
fn three_records_round_trip() {
    let records = vec![
        user("a@b.com", "alice", "1234567890", 30),
        user("c@d.com", "carol", "2222222222", 0),
        user("e@f.org", "erin", "3333333333", 150),
    ];
    let doc = encode_users(&records);
    assert_eq!(parse_users(&doc).unwrap(), records);
}

#[test]
fn awkward_characters_round_trip() {
    let records = vec![user(
        "a@b.com",
        "quote\" slash\\ newline\n tab\t bell\u{7} accent\u{e9}",
        "1234567890",
        7,
    )];
    let doc = encode_users(&records);
    assert_eq!(parse_users(&doc).unwrap(), records);
}

#[test]
fn encoded_document_is_pretty_printed() {
    let records = vec![user("a@b.com", "alice", "1234567890", 30)];
    let doc = encode_users(&records);
    let expected = "{\n  \"a@b.com\": {\n    \"email\": \"a@b.com\",\n    \"username\": \"alice\",\n    \"phone\": \"1234567890\",\n    \"age\": 30\n  }\n}";
    assert_eq!(doc, expected);
}

#[test]
fn reader_accepts_other_layouts() {
    let doc = "  {\"a@b.com\"  :\n{\"age\":30,\"phone\":\"1234567890\",\"username\":\"\\u0041l\\u0069ce\",\"email\":\"a@b.com\"}\r\n}\t";
    let parsed = parse_users(doc).unwrap();
    assert_eq!(parsed, vec![user("a@b.com", "Alice", "1234567890", 30)]);
}

#[test]
fn reader_rejects_broken_documents() {
    assert!(parse_users("not json").is_err());
    assert!(parse_users("{").is_err());
    assert!(parse_users("[]").is_err());
    assert!(parse_users("{\"a@b.com\": {\"email\": \"a@b.com\"}}").is_err());
    assert!(parse_users("{} trailing").is_err());
}

#[test]
fn reader_rejects_mismatched_key() {
    let doc = "{\"x@y.com\": {\"email\": \"a@b.com\", \"username\": \"alice\", \"phone\": \"1234567890\", \"age\": 30}}";
    assert!(parse_users(doc).is_err());
}

#[test]
fn reader_rejects_repeated_email() {
    let one = "\"a@b.com\": {\"email\": \"a@b.com\", \"username\": \"alice\", \"phone\": \"1234567890\", \"age\": 30}";
    let doc = format!("{{{}, {}}}", one, one);
    assert!(parse_users(&doc).is_err());
}

#[test]
fn reader_rejects_bad_numbers() {
    let shape = |age: &str| {
        format!(
            "{{\"a@b.com\": {{\"email\": \"a@b.com\", \"username\": \"alice\", \"phone\": \"1234567890\", \"age\": {}}}}}",
            age
        )
    };
    assert!(parse_users(&shape("4294967295")).is_ok());
    assert!(parse_users(&shape("4294967296")).is_err());
    assert!(parse_users(&shape("007")).is_err());
    assert!(parse_users(&shape("-1")).is_err());
    assert!(parse_users(&shape("3.5")).is_err());
}
