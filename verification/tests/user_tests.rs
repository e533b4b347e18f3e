use user_directory::codec::encode_users;
use user_directory::parse::parse_users;
use user_directory::user::User;

#[test]
fn test_user_creation() {
    let user = User {
        email: "test@example.com".to_string(),
        username: "testuser".to_string(),
        phone: "1234567890".to_string(),
        age: 25,
    };

    assert_eq!(user.email, "test@example.com");
    assert_eq!(user.username, "testuser");
    assert_eq!(user.phone, "1234567890");
    assert_eq!(user.age, 25);
}

#[test]
fn test_user_serialization() {
    let user = User {
        email: "test@example.com".to_string(),
        username: "testuser".to_string(),
        phone: "1234567890".to_string(),
        age: 25,
    };

    let records = vec![user.clone()];
    let serialized = encode_users(&records);
    let deserialized = parse_users(&serialized).unwrap();

    assert_eq!(deserialized.len(), 1);
    assert_eq!(user, deserialized[0]);
}
