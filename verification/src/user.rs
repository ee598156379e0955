//! Identity records and the store that owns them.
//!
//! The store persists one record per registrant and answers keyed lookups
//! by identifier and by email. Email uniqueness is the caller's invariant
//! to uphold before inserting (see the authentication backend); the store
//! itself reports every record matching an email, so that a duplicate is
//! surfaced, never silently resolved.

use vstd::prelude::*;

use crate::ids::UserRecordId;
use crate::text::str_eq;

verus! {

/// One registrant: identifier, display name, email, password hash,
/// active flag and creation time (unix seconds).
///
/// The password hash is an opaque PHC string; the record carries no
/// diagnostic representation, so neither it nor the email can be logged
/// verbatim.
pub struct User {
    pub id: UserRecordId,
    pub name: String,
    pub email: String,
    pub pw_hash: String,
    pub is_active: bool,
    pub registered_at: i64,
}

/// Mathematical image of a [`User`]: strings as character sequences.
pub ghost struct UserView {
    pub id: UserRecordId,
    pub name: Seq<char>,
    pub email: Seq<char>,
    pub pw_hash: Seq<char>,
    pub is_active: bool,
    pub registered_at: int,
}

impl View for User {
    type V = UserView;

    open spec fn view(&self) -> UserView {
        UserView {
            id: self.id,
            name: self.name@,
            email: self.email@,
            pw_hash: self.pw_hash@,
            is_active: self.is_active,
            registered_at: self.registered_at as int,
        }
    }
}

impl DeepView for User {
    type V = UserView;

    open spec fn deep_view(&self) -> UserView {
        self.view()
    }
}

impl User {
    /// A field-for-field copy of the record.
    pub fn duplicate(&self) -> (r: User)
        ensures
            r@ == self@,
    {
        User {
            id: self.id,
            name: self.name.clone(),
            email: self.email.clone(),
            pw_hash: self.pw_hash.clone(),
            is_active: self.is_active,
            registered_at: self.registered_at,
        }
    }
}

/// The public face of a registrant: every field of [`User`] except the
/// password hash, which is never displayed.
pub struct PublicUser {
    pub id: UserRecordId,
    pub name: String,
    pub email: String,
    pub is_active: bool,
    pub registered_at: i64,
}

impl From<User> for PublicUser {
    /// Drops the password hash and keeps everything else.
    fn from(value: User) -> (r: PublicUser)
    {
        PublicUser {
            id: value.id,
            name: value.name,
            email: value.email,
            is_active: value.is_active,
            registered_at: value.registered_at,
        }
    }
}

impl vstd::std_specs::convert::FromSpecImpl<User> for PublicUser {
    open spec fn obeys_from_spec() -> bool {
        true
    }

    open spec fn from_spec(value: User) -> PublicUser {
        PublicUser {
            id: value.id,
            name: value.name,
            email: value.email,
            is_active: value.is_active,
            registered_at: value.registered_at,
        }
    }
}

/// The sub-sequence of `users` whose stored email equals `email`, in
/// store order.
pub open spec fn users_with_email(users: Seq<UserView>, email: Seq<char>) -> Seq<UserView> {
    users.filter(|u: UserView| u.email == email)
}

/// Persistent store of identity records, in insertion order.
pub struct IdentityStore {
    users: Vec<User>,
}

impl View for IdentityStore {
    type V = Seq<UserView>;

    closed spec fn view(&self) -> Seq<UserView> {
        self.users.deep_view()
    }
}

impl IdentityStore {
    /// An empty store.
    pub fn new() -> (r: IdentityStore)
        ensures
            r@ == Seq::<UserView>::empty(),
    {
        IdentityStore { users: Vec::new() }
    }

    /// How many records the store holds.
    pub fn len(&self) -> (r: usize)
        ensures
            r == self@.len(),
    {
        self.users.len()
    }

    /// Appends a record. The store does not re-check email uniqueness:
    /// the caller pre-checks existence, as the backend's signup does.
    pub fn insert_user(&mut self, user: User)
        ensures
            final(self)@ == old(self)@.push(user@),
    {
        self.users.push(user);
        proof {
            assert(self@ =~= old(self)@.push(self.users@.last()@));
        }
    }

    /// Zero-or-one lookup by identifier: the first record carrying `id`,
    /// absent exactly when no record carries it.
    pub fn select_user(&self, id: UserRecordId) -> (r: Option<User>)
        ensures
            match r {
                Some(u) => exists|i: int|
                    0 <= i < self@.len() && self@[i] == u@ && u@.id == id && forall|j: int|
                        0 <= j < i ==> self@[j].id != id,
                None => forall|i: int| 0 <= i < self@.len() ==> self@[i].id != id,
            },
    {
        let n = self.users.len();
        for i in 0..n
            invariant
                n == self@.len(),
                forall|j: int| 0 <= j < i ==> self@[j].id != id,
        {
            if self.users[i].id == id {
                let u = self.users[i].duplicate();
                proof {
                    let gi = i as int;
                    assert(0 <= gi < self@.len() && self@[gi] == u@ && u@.id == id);
                }
                return Some(u);
            }
        }
        None
    }

    /// Every record whose stored email equals the input, in store order.
    /// More than one result is an anomaly the caller must surface.
    pub fn select_all_users_matching_email(&self, email: &str) -> (r: Vec<User>)
        ensures
            r.deep_view() == users_with_email(self@, email@),
    {
        let mut found: Vec<User> = Vec::new();
        let n = self.users.len();
        for i in 0..n
            invariant
                n == self@.len(),
                found.deep_view() == users_with_email(self@.take(i as int), email@),
        {
            proof {
                reveal_with_fuel(Seq::filter, 2);
                assert(self@.take(i + 1).drop_last() =~= self@.take(i as int));
                assert(self@.take(i + 1).last() == self@[i as int]);
            }
            if str_eq(self.users[i].email.as_str(), email) {
                found.push(self.users[i].duplicate());
                proof {
                    assert(found.deep_view() =~= users_with_email(self@.take(i + 1), email@));
                }
            } else {
                proof {
                    assert(found.deep_view() =~= users_with_email(self@.take(i + 1), email@));
                }
            }
        }
        proof {
            assert(self@.take(n as int) =~= self@);
        }
        found
    }
}

} // verus!
