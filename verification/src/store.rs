use vstd::prelude::*;
use crate::user::{User, UserView};

verus! {

/// The views of the records in a sequence, in order.
pub open spec fn views(s: Seq<User>) -> Seq<UserView> {
    s.map_values(|u: User| u@)
}

/// No two records in the sequence share an email.
pub open spec fn distinct_emails(s: Seq<UserView>) -> bool {
    forall|i: int, j: int| 0 <= i < j < s.len() ==> s[i].email != s[j].email
}

/// The email-to-record mapping a sequence of records denotes; a later
/// record wins over an earlier one with the same email.
pub open spec fn map_of(s: Seq<UserView>) -> Map<Seq<char>, UserView>
    decreases s.len(),
{
    if s.len() == 0 {
        Map::empty()
    } else {
        map_of(s.drop_last()).insert(s.last().email, s.last())
    }
}

/// The mapping a record sequence denotes has a finite domain.
pub proof fn lemma_map_of_finite(s: Seq<UserView>)
    ensures
        map_of(s).dom().finite(),
    decreases s.len(),
{
    if s.len() > 0 {
        lemma_map_of_finite(s.drop_last());
    }
}

/// An email is in the mapping exactly when some record carries it.
pub proof fn lemma_map_of_contains_key(s: Seq<UserView>, k: Seq<char>)
    ensures
        map_of(s).contains_key(k) <==> exists|i: int| 0 <= i < s.len() && s[i].email == k,
    decreases s.len(),
{
    if s.len() > 0 {
        lemma_map_of_contains_key(s.drop_last(), k);
        if s.last().email == k {
            assert(s[s.len() - 1].email == k);
        } else if map_of(s).contains_key(k) {
            let i = choose|i: int| 0 <= i < s.drop_last().len() && s.drop_last()[i].email == k;
            assert(s[i].email == k);
        } else if exists|i: int| 0 <= i < s.len() && s[i].email == k {
            let i = choose|i: int| 0 <= i < s.len() && s[i].email == k;
            assert(s.drop_last()[i].email == k);
        }
    }
}

/// With distinct emails, every record of the sequence is in the mapping
/// under its email.
pub proof fn lemma_map_of_contains_pair(s: Seq<UserView>, i: int)
    requires
        distinct_emails(s),
        0 <= i < s.len(),
    ensures
        map_of(s).contains_pair(s[i].email, s[i]),
    decreases s.len(),
{
    if i == s.len() - 1 {
        assert(s.last() == s[i]);
    } else {
        assert(distinct_emails(s.drop_last()));
        lemma_map_of_contains_pair(s.drop_last(), i);
        assert(s.drop_last()[i] == s[i]);
        assert(s[i].email != s.last().email);
    }
}

/// With distinct emails, the mapping holds exactly as many records as the
/// sequence.
pub proof fn lemma_map_of_len(s: Seq<UserView>)
    requires
        distinct_emails(s),
    ensures
        map_of(s).dom().len() == s.len(),
    decreases s.len(),
{
    broadcast use vstd::set::axiom_set_insert_len;

    if s.len() > 0 {
        let t = s.drop_last();
        assert(distinct_emails(t));
        lemma_map_of_len(t);
        lemma_map_of_finite(t);
        lemma_map_of_contains_key(t, s.last().email);
        assert(forall|i: int| 0 <= i < t.len() ==> t[i] == s[i]);
        assert(!map_of(t).contains_key(s.last().email));
    }
}

/// No record carries the email: the mapping does not contain it, and
/// removing it changes nothing.
pub proof fn lemma_map_of_absent(s: Seq<UserView>, k: Seq<char>)
    requires
        forall|i: int| 0 <= i < s.len() ==> (#[trigger] s[i].email) != k,
    ensures
        !map_of(s).contains_key(k),
        map_of(s).remove(k) == map_of(s),
{
    lemma_map_of_contains_key(s, k);
    assert(map_of(s).remove(k) =~= map_of(s));
}

/// With distinct emails, dropping the record at `i` from the sequence
/// removes exactly its email from the mapping.
pub proof fn lemma_map_of_remove(s: Seq<UserView>, i: int)
    requires
        distinct_emails(s),
        0 <= i < s.len(),
    ensures
        map_of(s.remove(i)) == map_of(s).remove(s[i].email),
    decreases s.len(),
{
    if i == s.len() - 1 {
        let t = s.drop_last();
        assert(s.remove(i) =~= t);
        assert(forall|j: int| 0 <= j < t.len() ==> (#[trigger] t[j].email) != s[i].email);
        lemma_map_of_absent(t, s[i].email);
        assert(map_of(s).remove(s[i].email) =~= map_of(t));
    } else {
        let t = s.drop_last();
        assert(distinct_emails(t));
        lemma_map_of_remove(t, i);
        assert(s.remove(i).drop_last() =~= t.remove(i));
        assert(s.remove(i).last() == s.last());
        assert(map_of(s.remove(i)) == map_of(t.remove(i)).insert(s.last().email, s.last()));
        assert(s[i].email != s.last().email);
        assert(map_of(t).remove(s[i].email).insert(s.last().email, s.last()) =~= map_of(
            t,
        ).insert(s.last().email, s.last()).remove(s[i].email));
    }
}

/// Durable mapping from email to user record.
///
/// `model` is the mapping the store currently holds. `reliable` marks a
/// store whose operations cannot fail; a store that can fail (say, one
/// backed by a file) reports the failure as `Err` and leaves the mapping
/// as it was.
pub trait UserRepository: Sized {
    /// The email-to-record mapping the store currently holds. A store
    /// written outside the library may leave this at its default; nothing
    /// is then promised about it.
    open spec fn model(&self) -> Map<Seq<char>, UserView> {
        Map::empty()
    }

    /// Whether every operation on this store is certain to succeed. A
    /// store written outside the library may leave this at its default.
    open spec fn reliable(&self) -> bool {
        false
    }

    /// Stores the record under its email, replacing any record already
    /// held under it.
    fn save(&mut self, user: &User) -> (r: Result<(), String>)
        ensures
            final(self).reliable() == old(self).reliable(),
            (match r {
                Ok(_) => final(self).model() == old(self).model().insert(user@.email, user@),
                Err(_) => final(self).model() == old(self).model() && !old(self).reliable(),
            }),
    ;

    /// The record held under the email, if any.
    fn find_by_email(&self, email: &str) -> (r: Result<Option<User>, String>)
        ensures
            (match r {
                Ok(Some(u)) => self.model().contains_key(email@) && u@ == self.model()[email@],
                Ok(None) => !self.model().contains_key(email@),
                Err(_) => !self.reliable(),
            }),
    ;

    /// Every record held, in no promised order.
    fn find_all(&self) -> (r: Result<Vec<User>, String>)
        ensures
            (match r {
                Ok(users) => {
                    &&& users@.len() == self.model().dom().len()
                    &&& (forall|i: int|
                        0 <= i < users@.len() ==> self.model().contains_pair(
                            (#[trigger] users@[i])@.email,
                            users@[i]@,
                        ))
                    &&& distinct_emails(views(users@))
                },
                Err(_) => !self.reliable(),
            }),
    ;

    /// Drops the record held under the email; reports whether one was
    /// held.
    fn delete(&mut self, email: &str) -> (r: Result<bool, String>)
        ensures
            final(self).reliable() == old(self).reliable(),
            (match r {
                Ok(existed) => final(self).model() == old(self).model().remove(email@) && existed
                    == old(self).model().contains_key(email@),
                Err(_) => final(self).model() == old(self).model() && !old(self).reliable(),
            }),
    ;
}

} // verus!
