use vstd::prelude::*;
use crate::store::{
    distinct_emails, lemma_map_of_absent, lemma_map_of_contains_key, lemma_map_of_contains_pair,
    lemma_map_of_len, lemma_map_of_remove, map_of, views, UserRepository,
};
use crate::text::str_eq;
use crate::user::{User, UserView};

verus! {

/// A store that keeps its records in memory: the test double for anything
/// that talks to a `UserRepository`. Its operations never fail.
pub struct InMemoryUserRepository {
    users: Vec<User>,
}

/// Index of the record carrying the email, if one is held.
#[verifier::loop_isolation(false)]
pub(crate) fn index_of(users: &Vec<User>, email: &str) -> (r: Option<usize>)
    ensures
        (match r {
            Some(i) => 0 <= i < users@.len() && users@[i as int]@.email == email@,
            None => forall|j: int| 0 <= j < users@.len() ==> (#[trigger] users@[j])@.email != email@,
        }),
{
    let mut i: usize = 0;
    while i < users.len()
        invariant
            0 <= i <= users@.len(),
            forall|j: int| 0 <= j < i ==> (#[trigger] users@[j])@.email != email@,
        decreases users@.len() - i,
    {
        if str_eq(users[i].email.as_str(), email) {
            return Some(i);
        }
        i += 1;
    }
    None
}

impl InMemoryUserRepository {
    #[verifier::type_invariant]
    spec fn wf(self) -> bool {
        distinct_emails(views(self.users@))
    }

    /// An empty in-memory store.
    pub fn new() -> (r: InMemoryUserRepository)
        ensures
            r.model() == Map::<Seq<char>, UserView>::empty(),
            r.reliable(),
    {
        InMemoryUserRepository { users: Vec::new() }
    }
}

impl UserRepository for InMemoryUserRepository {
    closed spec fn model(&self) -> Map<Seq<char>, UserView> {
        map_of(views(self.users@))
    }

    closed spec fn reliable(&self) -> bool {
        true
    }

    fn save(&mut self, user: &User) -> (r: Result<(), String>) {
        proof {
            use_type_invariant(&*self);
        }
        let ghost old_views = views(self.users@);
        let mut users: Vec<User> = Vec::new();
        core::mem::swap(&mut users, &mut self.users);
        match index_of(&users, user.email.as_str()) {
            Some(i) => {
                let _replaced = users.remove(i);
                proof {
                    lemma_map_of_remove(old_views, i as int);
                    assert(views(users@) =~= old_views.remove(i as int));
                    assert(forall|a: int, b: int|
                        0 <= a < b < old_views.remove(i as int).len()
                            ==> old_views.remove(i as int)[a].email != old_views.remove(
                            i as int,
                        )[b].email);
                }
                users.push(user.duplicate());
                proof {
                    assert(views(users@) =~= old_views.remove(i as int).push(user@));
                    assert(views(users@).drop_last() =~= old_views.remove(i as int));
                    // After the removal no record carries the email, so the
                    // new record keeps the emails distinct.
                    assert(forall|j: int|
                        0 <= j < old_views.remove(i as int).len() ==> old_views.remove(
                            i as int,
                        )[j].email != user@.email);
                    assert(map_of(views(users@)) =~= map_of(old_views).insert(
                        user@.email,
                        user@,
                    ));
                }
            },
            None => {
                users.push(user.duplicate());
                proof {
                    assert(views(users@) =~= old_views.push(user@));
                    assert(views(users@).drop_last() =~= old_views);
                    assert(forall|j: int|
                        0 <= j < old_views.len() ==> (#[trigger] old_views[j]).email
                            != user@.email);
                }
            },
        }
        self.users = users;
        Ok(())
    }

    fn find_by_email(&self, email: &str) -> (r: Result<Option<User>, String>) {
        proof {
            use_type_invariant(&*self);
        }
        match index_of(&self.users, email) {
            Some(i) => {
                proof {
                    lemma_map_of_contains_pair(views(self.users@), i as int);
                }
                Ok(Some(self.users[i].duplicate()))
            },
            None => {
                proof {
                    lemma_map_of_contains_key(views(self.users@), email@);
                }
                Ok(None)
            },
        }
    }

    fn find_all(&self) -> (r: Result<Vec<User>, String>) {
        proof {
            use_type_invariant(&*self);
            lemma_map_of_len(views(self.users@));
        }
        let mut result: Vec<User> = Vec::new();
        let mut i: usize = 0;
        while i < self.users.len()
            invariant
                0 <= i <= self.users@.len(),
                result@.len() == i,
                views(result@) =~= views(self.users@).take(i as int),
            decreases self.users@.len() - i,
        {
            let copied = self.users[i].duplicate();
            proof {
                assert(copied@ == self.users@[i as int]@);
            }
            result.push(copied);
            proof {
                assert(result@.len() == i + 1);
                assert(views(result@).len() == i + 1);
                assert(views(result@)[i as int] == self.users@[i as int]@);
                assert(views(result@) =~= views(self.users@).take(i + 1));
            }
            i += 1;
        }
        proof {
            assert(views(result@) =~= views(self.users@));
            assert(forall|j: int| 0 <= j < result@.len() ==> (#[trigger] result@[j])@ == views(
                self.users@,
            )[j]);
            assert forall|j: int| 0 <= j < result@.len() implies map_of(
                views(self.users@),
            ).contains_pair((#[trigger] result@[j])@.email, result@[j]@) by {
                lemma_map_of_contains_pair(views(self.users@), j);
            }
        }
        Ok(result)
    }

    fn delete(&mut self, email: &str) -> (r: Result<bool, String>) {
        proof {
            use_type_invariant(&*self);
        }
        let ghost old_views = views(self.users@);
        match index_of(&self.users, email) {
            Some(i) => {
                proof {
                    lemma_map_of_contains_pair(old_views, i as int);
                }
                let mut users: Vec<User> = Vec::new();
                core::mem::swap(&mut users, &mut self.users);
                let _removed = users.remove(i);
                proof {
                    lemma_map_of_remove(old_views, i as int);
                    assert(views(users@) =~= old_views.remove(i as int));
                    assert(forall|a: int, b: int|
                        0 <= a < b < old_views.remove(i as int).len()
                            ==> old_views.remove(i as int)[a].email != old_views.remove(
                            i as int,
                        )[b].email);
                }
                self.users = users;
                Ok(true)
            },
            None => {
                proof {
                    lemma_map_of_absent(old_views, email@);
                }
                Ok(false)
            },
        }
    }
}

} // verus!
