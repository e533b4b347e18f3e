use user_directory::memory::InMemoryUserRepository;
use user_directory::service::{UserError, UserService};
use user_directory::store::UserRepository;
use user_directory::user::User;

fn new_service() -> UserService<InMemoryUserRepository> {
    UserService::new(InMemoryUserRepository::new())
}

#[test]
fn test_create_user_success() {
    let mut service = new_service();
    let result = service.create_user(
        "test@example.com".to_string(),
        "testuser".to_string(),
        "1234567890".to_string(),
        25,
    );

    assert!(result.is_ok());
}

#[test]
fn test_create_user_invalid_email() {
    let mut service = new_service();
    let result = service.create_user(
        "invalid-email".to_string(),
        "testuser".to_string(),
        "1234567890".to_string(),
        25,
    );

    assert!(matches!(result, Err(UserError::InvalidEmail(_))));
}

#[test]
fn test_update_user_not_found() {
    let mut service = new_service();
    let result = service.update_user(
        "test@example.com".to_string(),
        "testuser".to_string(),
        "1234567890".to_string(),
        25,
    );

    assert!(matches!(result, Err(UserError::UserNotFound(_))));
}

#[test]
fn test_delete_user_success() {
    let mut service = new_service();
    service
        .create_user(
            "test@example.com".to_string(),
            "testuser".to_string(),
            "1234567890".to_string(),
            25,
        )
        .unwrap();
    let result = service.delete_user("test@example.com");

    assert!(result.is_ok());
}

#[test]
fn scenario_create_then_get() {
    let mut service = new_service();
    let created = service
        .create_user(
            "a@b.com".to_string(),
            "alice".to_string(),
            "1234567890".to_string(),
            30,
        )
        .unwrap();
    let fetched = service.get_user("a@b.com").unwrap();

    assert_eq!(created, fetched);
    assert_eq!(fetched.email, "a@b.com");
    assert_eq!(fetched.username, "alice");
    assert_eq!(fetched.phone, "1234567890");
    assert_eq!(fetched.age, 30);
}

#[test]
fn scenario_bad_email() {
    let mut service = new_service();
    let result = service.create_user(
        "bad-email".to_string(),
        "alice".to_string(),
        "1234567890".to_string(),
        30,
    );
    assert!(matches!(result, Err(UserError::InvalidEmail(_))));
}

#[test]
fn scenario_short_username() {
    let mut service = new_service();
    let result = service.create_user(
        "a@b.com".to_string(),
        "al".to_string(),
        "1234567890".to_string(),
        30,
    );
    assert!(matches!(result, Err(UserError::InvalidUsername(_))));
}

#[test]
fn scenario_short_phone() {
    let mut service = new_service();
    let result = service.create_user(
        "a@b.com".to_string(),
        "alice".to_string(),
        "123".to_string(),
        30,
    );
    assert!(matches!(result, Err(UserError::InvalidPhone(_))));
}

#[test]
fn scenario_age_out_of_range() {
    let mut service = new_service();
    let result = service.create_user(
        "a@b.com".to_string(),
        "alice".to_string(),
        "1234567890".to_string(),
        200,
    );
    assert!(matches!(result, Err(UserError::InvalidAge(_))));
}

#[test]
fn scenario_update_changes_all_but_email() {
    let mut service = new_service();
    service
        .create_user(
            "a@b.com".to_string(),
            "alice".to_string(),
            "1234567890".to_string(),
            30,
        )
        .unwrap();
    let updated = service
        .update_user(
            "a@b.com".to_string(),
            "bob".to_string(),
            "0987654321".to_string(),
            40,
        )
        .unwrap();
    let fetched = service.get_user("a@b.com").unwrap();

    assert_eq!(updated, fetched);
    assert_eq!(fetched.email, "a@b.com");
    assert_eq!(fetched.username, "bob");
    assert_eq!(fetched.phone, "0987654321");
    assert_eq!(fetched.age, 40);
}

#[test]
fn duplicate_create_is_refused_and_first_record_kept() {
    let mut service = new_service();
    service
        .create_user(
            "a@b.com".to_string(),
            "alice".to_string(),
            "1234567890".to_string(),
            30,
        )
        .unwrap();
    let second = service.create_user(
        "a@b.com".to_string(),
        "mallory".to_string(),
        "9999999999".to_string(),
        50,
    );

    assert!(matches!(second, Err(UserError::UserAlreadyExists(_))));
    let kept = service.get_user("a@b.com").unwrap();
    assert_eq!(kept.username, "alice");
    assert_eq!(kept.phone, "1234567890");
    assert_eq!(kept.age, 30);
}

#[test]
fn validation_order_reports_username_before_phone() {
    let mut service = new_service();
    let result = service.create_user(
        "a@b.com".to_string(),
        "x".to_string(),
        "123".to_string(),
        30,
    );

    assert!(matches!(result, Err(UserError::InvalidUsername(_))));
}

#[test]
fn missing_records_fail_with_not_found() {
    let mut service = new_service();
    assert!(matches!(
        service.get_user("ghost@b.com"),
        Err(UserError::UserNotFound(_))
    ));
    assert!(matches!(
        service.update_user(
            "ghost@b.com".to_string(),
            "alice".to_string(),
            "1234567890".to_string(),
            30
        ),
        Err(UserError::UserNotFound(_))
    ));
    assert!(matches!(
        service.delete_user("ghost@b.com"),
        Err(UserError::UserNotFound(_))
    ));
}

#[test]
fn delete_then_get_fails_and_count_drops() {
    let mut service = new_service();
    service
        .create_user(
            "a@b.com".to_string(),
            "alice".to_string(),
            "1234567890".to_string(),
            30,
        )
        .unwrap();
    service
        .create_user(
            "c@d.com".to_string(),
            "carol".to_string(),
            "2222222222".to_string(),
            41,
        )
        .unwrap();
    let before = service.list_users().unwrap().len();

    service.delete_user("a@b.com").unwrap();

    assert!(matches!(
        service.get_user("a@b.com"),
        Err(UserError::UserNotFound(_))
    ));
    let after = service.list_users().unwrap().len();
    assert_eq!(before, 2);
    assert_eq!(after, 1);
}

struct BrokenRepository;

impl UserRepository for BrokenRepository {
    fn save(&mut self, _user: &User) -> Result<(), String> {
        Err("disk unavailable".to_string())
    }

    fn find_by_email(&self, _email: &str) -> Result<Option<User>, String> {
        Err("disk unavailable".to_string())
    }

    fn find_all(&self) -> Result<Vec<User>, String> {
        Err("disk unavailable".to_string())
    }

    fn delete(&mut self, _email: &str) -> Result<bool, String> {
        Err("disk unavailable".to_string())
    }
}

#[test]
fn storage_failures_surface_as_repository_errors() {
    let mut service = UserService::new(BrokenRepository);
    assert!(matches!(
        service.list_users(),
        Err(UserError::RepositoryError(_))
    ));
    assert!(matches!(
        service.get_user("a@b.com"),
        Err(UserError::RepositoryError(_))
    ));
    assert!(matches!(
        service.delete_user("a@b.com"),
        Err(UserError::RepositoryError(_))
    ));
    assert!(matches!(
        service.create_user(
            "a@b.com".to_string(),
            "alice".to_string(),
            "1234567890".to_string(),
            30
        ),
        Err(UserError::RepositoryError(_))
    ));
}
