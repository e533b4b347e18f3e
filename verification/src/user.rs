use vstd::prelude::*;

verus! {

/// Mathematical view of a user record: each text field as a sequence of
/// characters, the age as a bounded integer.
pub struct UserView {
    pub email: Seq<char>,
    pub username: Seq<char>,
    pub phone: Seq<char>,
    pub age: u32,
}

/// One user record. The email doubles as the unique key under which the
/// record is stored.
#[derive(Debug, Clone)]
pub struct User {
    pub email: String,
    pub username: String,
    pub phone: String,
    pub age: u32,
}

impl View for User {
    type V = UserView;

    open spec fn view(&self) -> UserView {
        UserView {
            email: self.email@,
            username: self.username@,
            phone: self.phone@,
            age: self.age,
        }
    }
}

impl User {
    /// A copy of the record, field for field, with the same view.
    pub fn duplicate(&self) -> (r: User)
        ensures
            r@ == self@,
    {
        User {
            email: self.email.clone(),
            username: self.username.clone(),
            phone: self.phone.clone(),
            age: self.age,
        }
    }
}

impl PartialEq for User {
    fn eq(&self, other: &User) -> (r: bool) {
        self.email == other.email && self.username == other.username
            && self.phone == other.phone && self.age == other.age
    }
}

impl vstd::std_specs::cmp::PartialEqSpecImpl for User {
    open spec fn obeys_eq_spec() -> bool {
        true
    }

    open spec fn eq_spec(&self, other: &User) -> bool {
        self@ == other@
    }
}

impl Eq for User {}

} // verus!
