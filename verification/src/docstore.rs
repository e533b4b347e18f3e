use vstd::prelude::*;
use crate::codec::encode_users;
use crate::json::{lemma_parse_enc_doc, parse_doc};
use crate::memory::index_of;
use crate::parse::parse_users;
use crate::store::{
    distinct_emails, lemma_map_of_absent, lemma_map_of_contains_key, lemma_map_of_contains_pair,
    lemma_map_of_remove, map_of, views,
};
use crate::user::{User, UserView};

verus! {

// The document-level store: everything the file-backed repository
// computes between reading the file and writing it back. Each operation
// takes the file's current text — or nothing, when the file does not
// exist — and returns what to write, so that only the reading and
// writing itself stays outside the library.

/// The view of an optional borrowed document.
pub open spec fn opt_view(content: Option<&str>) -> Option<Seq<char>> {
    match content {
        Some(s) => Some(s@),
        None => None,
    }
}

/// The records a stored document holds: a missing or empty file holds
/// none, anything else must parse.
pub open spec fn stored_records(content: Option<Seq<char>>) -> Option<Seq<UserView>> {
    match content {
        None => Some(Seq::empty()),
        Some(s) => if s.len() == 0 {
            Some(Seq::empty())
        } else {
            parse_doc(s)
        },
    }
}

/// A parsed document never repeats an email.
proof fn lemma_stored_distinct(content: Option<Seq<char>>)
    ensures
        (match stored_records(content) {
            Some(rs) => distinct_emails(rs),
            None => true,
        }),
{
}

/// Reads the record list out of the document, as `stored_records` reads
/// it.
pub fn load_users(content: Option<&str>) -> (r: Result<Vec<User>, String>)
    ensures
        (match r {
            Ok(v) => stored_records(opt_view(content)) == Some(views(v@)),
            Err(_) => stored_records(opt_view(content)) is None,
        }),
{
    match content {
        None => {
            let empty: Vec<User> = Vec::new();
            proof {
                assert(views(empty@) =~= Seq::<UserView>::empty());
            }
            Ok(empty)
        },
        Some(s) => {
            if s.unicode_len() == 0 {
                let empty: Vec<User> = Vec::new();
                proof {
                    assert(views(empty@) =~= Seq::<UserView>::empty());
                }
                Ok(empty)
            } else {
                parse_users(s)
            }
        },
    }
}

/// The document after storing the record under its email: the record
/// set read back from the result is the old set with this record put in.
pub fn save_user(content: Option<&str>, user: &User) -> (r: Result<String, String>)
    ensures
        (match r {
            Ok(out) => (match stored_records(opt_view(content)) {
                Some(rs) => (match parse_doc(out@) {
                    Some(new_rs) => distinct_emails(new_rs) && map_of(new_rs) == map_of(rs).insert(
                        user@.email,
                        user@,
                    ),
                    None => false,
                }),
                None => false,
            }),
            Err(_) => stored_records(opt_view(content)) is None,
        }),
{
    let mut users = match load_users(content) {
        Ok(v) => v,
        Err(e) => {
            return Err(e);
        },
    };
    let ghost old_views = views(users@);
    proof {
        lemma_stored_distinct(opt_view(content));
    }
    match index_of(&users, user.email.as_str()) {
        Some(i) => {
            let _replaced = users.remove(i);
            proof {
                lemma_map_of_remove(old_views, i as int);
                assert(views(users@) =~= old_views.remove(i as int));
                assert(forall|a: int, b: int|
                    0 <= a < b < old_views.remove(i as int).len() ==> old_views.remove(
                        i as int,
                    )[a].email != old_views.remove(i as int)[b].email);
            }
            users.push(user.duplicate());
            proof {
                assert(views(users@) =~= old_views.remove(i as int).push(user@));
                assert(views(users@).drop_last() =~= old_views.remove(i as int));
                assert(forall|j: int|
                    0 <= j < old_views.remove(i as int).len() ==> old_views.remove(
                        i as int,
                    )[j].email != user@.email);
                assert(map_of(views(users@)) =~= map_of(old_views).insert(user@.email, user@));
            }
        },
        None => {
            users.push(user.duplicate());
            proof {
                assert(views(users@) =~= old_views.push(user@));
                assert(views(users@).drop_last() =~= old_views);
                assert(forall|j: int|
                    0 <= j < old_views.len() ==> (#[trigger] old_views[j]).email != user@.email);
            }
        },
    }
    let out = encode_users(&users);
    proof {
        lemma_parse_enc_doc(views(users@));
    }
    Ok(out)
}

/// The record the document holds under the email, if any.
pub fn find_user(content: Option<&str>, email: &str) -> (r: Result<Option<User>, String>)
    ensures
        (match r {
            Ok(found) => (match stored_records(opt_view(content)) {
                Some(rs) => (match found {
                    Some(u) => map_of(rs).contains_key(email@) && u@ == map_of(rs)[email@],
                    None => !map_of(rs).contains_key(email@),
                }),
                None => false,
            }),
            Err(_) => stored_records(opt_view(content)) is None,
        }),
{
    let users = match load_users(content) {
        Ok(v) => v,
        Err(e) => {
            return Err(e);
        },
    };
    proof {
        lemma_stored_distinct(opt_view(content));
    }
    match index_of(&users, email) {
        Some(i) => {
            proof {
                lemma_map_of_contains_pair(views(users@), i as int);
            }
            Ok(Some(users[i].duplicate()))
        },
        None => {
            proof {
                lemma_map_of_contains_key(views(users@), email@);
            }
            Ok(None)
        },
    }
}

/// The document after dropping the record under the email, and whether
/// one was held: the record set read back from the result is the old set
/// with the email removed.
pub fn remove_user(content: Option<&str>, email: &str) -> (r: Result<(String, bool), String>)
    ensures
        (match r {
            Ok(p) => (match stored_records(opt_view(content)) {
                Some(rs) => (match parse_doc(p.0@) {
                    Some(new_rs) => distinct_emails(new_rs) && map_of(new_rs) == map_of(rs).remove(
                        email@,
                    ) && (p.1 == map_of(rs).contains_key(email@)),
                    None => false,
                }),
                None => false,
            }),
            Err(_) => stored_records(opt_view(content)) is None,
        }),
{
    let mut users = match load_users(content) {
        Ok(v) => v,
        Err(e) => {
            return Err(e);
        },
    };
    let ghost old_views = views(users@);
    proof {
        lemma_stored_distinct(opt_view(content));
    }
    let existed = match index_of(&users, email) {
        Some(i) => {
            proof {
                lemma_map_of_contains_pair(old_views, i as int);
            }
            let _removed = users.remove(i);
            proof {
                lemma_map_of_remove(old_views, i as int);
                assert(views(users@) =~= old_views.remove(i as int));
                assert(forall|a: int, b: int|
                    0 <= a < b < old_views.remove(i as int).len() ==> old_views.remove(
                        i as int,
                    )[a].email != old_views.remove(i as int)[b].email);
            }
            true
        },
        None => {
            proof {
                lemma_map_of_absent(old_views, email@);
            }
            false
        },
    };
    let out = encode_users(&users);
    proof {
        lemma_parse_enc_doc(views(users@));
    }
    Ok((out, existed))
}

} // verus!
