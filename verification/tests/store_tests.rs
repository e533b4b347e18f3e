use user_directory::docstore::{find_user, load_users, remove_user, save_user};
use user_directory::memory::InMemoryUserRepository;
use user_directory::store::UserRepository;
use user_directory::user::User;

fn user(email: &str, username: &str, phone: &str, age: u32) -> User {
    User {
        email: email.to_string(),
        username: username.to_string(),
        phone: phone.to_string(),
        age,
    }
}

#[test]
fn test_save_and_find_user() {
    let u = user("test@example.com", "testuser", "1234567890", 25);

    // A store that was never written behaves as empty.
    let doc = save_user(None, &u).unwrap();

    let found = find_user(Some(&doc), &u.email).unwrap();
    assert!(found.is_some());
    assert_eq!(found.unwrap(), u);
}

#[test]
fn test_find_all_users() {
    let user1 = user("test@example.com", "testuser", "1234567890", 25);
    let mut user2 = user("test@example.com", "testuser", "1234567890", 25);
    user2.email = "test2@example.com".to_string();

    let doc1 = save_user(None, &user1).unwrap();
    let doc2 = save_user(Some(&doc1), &user2).unwrap();

    let users = load_users(Some(&doc2)).unwrap();
    assert_eq!(users.len(), 2);
}

#[test]
fn test_delete_user() {
    let u = user("test@example.com", "testuser", "1234567890", 25);

    let doc = save_user(None, &u).unwrap();
    let (doc2, existed) = remove_user(Some(&doc), &u.email).unwrap();
    assert!(existed);
    assert!(find_user(Some(&doc2), &u.email).unwrap().is_none());
}

#[test]
fn empty_file_behaves_as_empty_store() {
    assert_eq!(load_users(Some("")).unwrap().len(), 0);
    let found = find_user(Some(""), "a@b.com").unwrap();
    assert!(found.is_none());
}

#[test]
fn corrupt_file_is_a_hard_failure() {
    assert!(load_users(Some("{ corrupt")).is_err());
    assert!(find_user(Some("{ corrupt"), "a@b.com").is_err());
    assert!(save_user(Some("{ corrupt"), &user("a@b.com", "alice", "1234567890", 30)).is_err());
    assert!(remove_user(Some("{ corrupt"), "a@b.com").is_err());
}

#[test]
fn saving_twice_overwrites_the_record() {
    let first = user("a@b.com", "alice", "1234567890", 30);
    let second = user("a@b.com", "bob", "0987654321", 40);

    let doc1 = save_user(None, &first).unwrap();
    let doc2 = save_user(Some(&doc1), &second).unwrap();

    let users = load_users(Some(&doc2)).unwrap();
    assert_eq!(users.len(), 1);
    assert_eq!(users[0], second);
}

#[test]
fn removing_an_absent_email_reports_false() {
    let u = user("a@b.com", "alice", "1234567890", 30);
    let doc = save_user(None, &u).unwrap();
    let (doc2, existed) = remove_user(Some(&doc), "ghost@b.com").unwrap();
    assert!(!existed);
    assert_eq!(load_users(Some(&doc2)).unwrap().len(), 1);
}

#[test]
fn memory_store_keeps_records_by_email() {
    let mut repo = InMemoryUserRepository::new();
    let u = user("a@b.com", "alice", "1234567890", 30);

    repo.save(&u).unwrap();
    assert_eq!(repo.find_by_email("a@b.com").unwrap().unwrap(), u);
    assert!(repo.find_by_email("ghost@b.com").unwrap().is_none());
    assert_eq!(repo.find_all().unwrap().len(), 1);

    assert!(repo.delete("a@b.com").unwrap());
    assert!(!repo.delete("a@b.com").unwrap());
    assert_eq!(repo.find_all().unwrap().len(), 0);
}
