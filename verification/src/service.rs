use vstd::prelude::*;
use crate::store::{distinct_emails, views, UserRepository};
use crate::user::{User, UserView};
use crate::validate::{
    valid_age, valid_email, valid_phone, valid_username, validate_age, validate_email,
    validate_phone, validate_username,
};

verus! {

/// What a directory operation can report instead of a record.
#[derive(Debug)]
pub enum UserError {
    /// The email does not have the required syntax.
    InvalidEmail(String),
    /// The username is too short once trimmed.
    InvalidUsername(String),
    /// The phone number is not at least ten digits.
    InvalidPhone(String),
    /// The age is out of range.
    InvalidAge(String),
    /// No record is held under the email.
    UserNotFound(String),
    /// The store reported a failure.
    RepositoryError(String),
    /// A record is already held under the email.
    UserAlreadyExists(String),
}

/// The record the four arguments describe.
pub open spec fn record_view(
    email: Seq<char>,
    username: Seq<char>,
    phone: Seq<char>,
    age: u32,
) -> UserView {
    UserView { email, username, phone, age }
}

/// All four fields pass validation.
pub open spec fn valid_record(
    email: Seq<char>,
    username: Seq<char>,
    phone: Seq<char>,
    age: u32,
) -> bool {
    valid_email(email) && valid_username(username) && valid_phone(phone) && valid_age(age)
}

/// Validation and orchestration above a `UserRepository`: the only place
/// where field validation, uniqueness on create and existence on update
/// and delete are enforced.
pub struct UserService<T: UserRepository> {
    repository: T,
}

impl<T: UserRepository> UserService<T> {
    /// The mapping the underlying store currently holds.
    pub closed spec fn model(&self) -> Map<Seq<char>, UserView> {
        self.repository.model()
    }

    /// Whether the underlying store is certain to succeed.
    pub closed spec fn reliable(&self) -> bool {
        self.repository.reliable()
    }

    /// A service over the given store.
    pub fn new(repository: T) -> (r: UserService<T>)
        ensures
            r.model() == repository.model(),
            r.reliable() == repository.reliable(),
    {
        UserService { repository }
    }

    /// Validates the four fields in the order email, username, phone,
    /// age — the first failing field is the one reported — then stores a
    /// new record, refusing an email already in use.
    pub fn create_user(&mut self, email: String, username: String, phone: String, age: u32) -> (r:
        Result<User, UserError>)
        ensures
            final(self).reliable() == old(self).reliable(),
            (match r {
                Ok(u) => {
                    &&& valid_record(email@, username@, phone@, age)
                    &&& u@ == record_view(email@, username@, phone@, age)
                    &&& final(self).model() == old(self).model().insert(email@, u@)
                },
                Err(UserError::InvalidEmail(_)) => !valid_email(email@) && final(self).model()
                    == old(self).model(),
                Err(UserError::InvalidUsername(_)) => valid_email(email@) && !valid_username(
                    username@,
                ) && final(self).model() == old(self).model(),
                Err(UserError::InvalidPhone(_)) => valid_email(email@) && valid_username(username@)
                    && !valid_phone(phone@) && final(self).model() == old(self).model(),
                Err(UserError::InvalidAge(_)) => valid_email(email@) && valid_username(username@)
                    && valid_phone(phone@) && !valid_age(age) && final(self).model() == old(self).model(),
                Err(UserError::UserAlreadyExists(_)) => valid_record(email@, username@, phone@, age)
                    && old(self).model().contains_key(email@) && final(self).model() == old(self).model(),
                Err(UserError::RepositoryError(_)) => !old(self).reliable() && valid_record(
                    email@,
                    username@,
                    phone@,
                    age,
                ) && final(self).model() == old(self).model(),
                Err(UserError::UserNotFound(_)) => false,
            }),
            old(self).reliable() && valid_record(email@, username@, phone@, age) && !old(self).model().contains_key(email@) ==> r is Ok,
            old(self).reliable() && valid_record(email@, username@, phone@, age) && old(self).model().contains_key(email@) ==> r matches Err(UserError::UserAlreadyExists(_)),
    {
        if !validate_email(email.as_str()) {
            return Err(
                UserError::InvalidEmail(
                    String::from_str("Invalid email format: ").concat(email.as_str()),
                ),
            );
        }
        if !validate_username(username.as_str()) {
            return Err(
                UserError::InvalidUsername(
                    String::from_str("Username must be at least 3 characters long"),
                ),
            );
        }
        if !validate_phone(phone.as_str()) {
            return Err(
                UserError::InvalidPhone(
                    String::from_str("Phone number must be at least 10 digits"),
                ),
            );
        }
        if !validate_age(age) {
            return Err(UserError::InvalidAge(String::from_str("Age must be between 0 and 150")));
        }

        // Refuse an email that is already taken.
        match self.repository.find_by_email(email.as_str()) {
            Ok(Some(_)) => {
                return Err(
                    UserError::UserAlreadyExists(
                        String::from_str("User with email ").concat(email.as_str()).concat(
                            " already exists",
                        ),
                    ),
                );
            },
            _ => {},
        }

        let user = User { email, username, phone, age };
        match self.repository.save(&user) {
            Ok(_) => Ok(user),
            Err(e) => Err(UserError::RepositoryError(e)),
        }
    }

    /// Validates username, phone and age in that order — the email only
    /// names the record to replace and is not re-validated — then rewrites
    /// the whole record held under the email, refusing an unknown email.
    pub fn update_user(&mut self, email: String, username: String, phone: String, age: u32) -> (r:
        Result<User, UserError>)
        ensures
            final(self).reliable() == old(self).reliable(),
            (match r {
                Ok(u) => {
                    &&& valid_username(username@) && valid_phone(phone@) && valid_age(age)
                    &&& old(self).model().contains_key(email@)
                    &&& u@ == record_view(email@, username@, phone@, age)
                    &&& final(self).model() == old(self).model().insert(email@, u@)
                },
                Err(UserError::InvalidUsername(_)) => !valid_username(username@) && final(self).model() == old(self).model(),
                Err(UserError::InvalidPhone(_)) => valid_username(username@) && !valid_phone(phone@)
                    && final(self).model() == old(self).model(),
                Err(UserError::InvalidAge(_)) => valid_username(username@) && valid_phone(phone@)
                    && !valid_age(age) && final(self).model() == old(self).model(),
                Err(UserError::UserNotFound(_)) => valid_username(username@) && valid_phone(phone@)
                    && valid_age(age) && !old(self).model().contains_key(email@) && final(self).model() == old(self).model(),
                Err(UserError::RepositoryError(_)) => !old(self).reliable() && valid_username(
                    username@,
                ) && valid_phone(phone@) && valid_age(age) && final(self).model() == old(self).model(),
                _ => false,
            }),
            old(self).reliable() && valid_username(username@) && valid_phone(phone@) && valid_age(
                age,
            ) && old(self).model().contains_key(email@) ==> r is Ok,
            old(self).reliable() && valid_username(username@) && valid_phone(phone@) && valid_age(
                age,
            ) && !old(self).model().contains_key(email@) ==> r matches Err(
                UserError::UserNotFound(_),
            ),
    {
        if !validate_username(username.as_str()) {
            return Err(
                UserError::InvalidUsername(
                    String::from_str("Username must be at least 3 characters long"),
                ),
            );
        }
        if !validate_phone(phone.as_str()) {
            return Err(
                UserError::InvalidPhone(
                    String::from_str("Phone number must be at least 10 digits"),
                ),
            );
        }
        if !validate_age(age) {
            return Err(UserError::InvalidAge(String::from_str("Age must be between 0 and 150")));
        }

        // The record must already exist.
        match self.repository.find_by_email(email.as_str()) {
            Ok(Some(_)) => {},
            Ok(None) => {
                return Err(
                    UserError::UserNotFound(
                        String::from_str("User with email ").concat(email.as_str()).concat(
                            " not found",
                        ),
                    ),
                );
            },
            Err(e) => {
                return Err(UserError::RepositoryError(e));
            },
        }

        let user = User { email, username, phone, age };
        match self.repository.save(&user) {
            Ok(_) => Ok(user),
            Err(e) => Err(UserError::RepositoryError(e)),
        }
    }

    /// The record held under the email.
    pub fn get_user(&self, email: &str) -> (r: Result<User, UserError>)
        ensures
            (match r {
                Ok(u) => self.model().contains_key(email@) && u@ == self.model()[email@],
                Err(UserError::UserNotFound(_)) => !self.model().contains_key(email@),
                Err(UserError::RepositoryError(_)) => !self.reliable(),
                _ => false,
            }),
    {
        match self.repository.find_by_email(email) {
            Ok(Some(user)) => Ok(user),
            Ok(None) => Err(
                UserError::UserNotFound(
                    String::from_str("User with email ").concat(email).concat(" not found"),
                ),
            ),
            Err(e) => Err(UserError::RepositoryError(e)),
        }
    }

    /// Every record held, in no promised order.
    pub fn list_users(&self) -> (r: Result<Vec<User>, UserError>)
        ensures
            (match r {
                Ok(users) => {
                    &&& users@.len() == self.model().dom().len()
                    &&& (forall|i: int|
                        0 <= i < users@.len() ==> self.model().contains_pair(
                            (#[trigger] users@[i])@.email,
                            users@[i]@,
                        ))
                    &&& distinct_emails(views(users@))
                },
                Err(UserError::RepositoryError(_)) => !self.reliable(),
                _ => false,
            }),
    {
        match self.repository.find_all() {
            Ok(users) => Ok(users),
            Err(e) => Err(UserError::RepositoryError(e)),
        }
    }

    /// Drops the record held under the email, refusing an unknown email.
    pub fn delete_user(&mut self, email: &str) -> (r: Result<(), UserError>)
        ensures
            final(self).reliable() == old(self).reliable(),
            (match r {
                Ok(_) => old(self).model().contains_key(email@) && final(self).model() == old(self).model().remove(email@),
                Err(UserError::UserNotFound(_)) => !old(self).model().contains_key(email@) && final(self).model() == old(self).model(),
                Err(UserError::RepositoryError(_)) => !old(self).reliable() && final(self).model()
                    == old(self).model(),
                _ => false,
            }),
    {
        match self.repository.delete(email) {
            Ok(true) => Ok(()),
            Ok(false) => {
                proof {
                    // Removing an email no record carries leaves the
                    // mapping as it was.
                    assert(old(self).model().remove(email@) =~= old(self).model());
                }
                Err(
                    UserError::UserNotFound(
                        String::from_str("User with email ").concat(email).concat(" not found"),
                    ),
                )
            },
            Err(e) => Err(UserError::RepositoryError(e)),
        }
    }
}

/// Creating a record and then fetching it by its email yields exactly the
/// record just created: after a create that returned `Ok(u)` the mapping
/// holds `u` under its email, which is what `get_user` then returns.
pub proof fn lemma_create_then_get(m: Map<Seq<char>, UserView>, u: UserView)
    requires
        valid_record(u.email, u.username, u.phone, u.age),
    ensures
        m.insert(u.email, u).contains_key(u.email),
        m.insert(u.email, u)[u.email] == u,
{
}

/// A second create with an already-stored email is refused and changes
/// nothing: after a create that returned `Ok(u)` the mapping holds `u`'s
/// email, so the second call reports the record as already existing and
/// leaves the mapping — in particular the first record — as it was.
pub proof fn lemma_duplicate_create(m: Map<Seq<char>, UserView>, u: UserView, w: UserView)
    requires
        valid_record(u.email, u.username, u.phone, u.age),
        w.email == u.email,
    ensures
        m.insert(u.email, u).contains_key(w.email),
        m.insert(u.email, u)[w.email] == u,
{
}

/// Deleting a stored record removes exactly that record: a later fetch of
/// the same email misses, every other record is untouched, and the record
/// count drops by exactly one.
pub proof fn lemma_delete_then_get(m: Map<Seq<char>, UserView>, email: Seq<char>)
    requires
        m.dom().finite(),
        m.contains_key(email),
    ensures
        !m.remove(email).contains_key(email),
        m.remove(email).dom().len() == m.dom().len() - 1,
        forall|k: Seq<char>|
            k != email ==> (m.remove(email).contains_key(k) <==> m.contains_key(k)),
        forall|k: Seq<char>|
            k != email && m.contains_key(k) ==> m.remove(email)[k] == m[k],
{
    m.lemma_remove_key_len(email);
}

} // verus!
