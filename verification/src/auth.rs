//! The authentication backend: orchestrates credential checks against the
//! identity store and classifies each attempt as no match, a single match,
//! or an ambiguous match.
//!
//! A failed attempt never says whether the email was unknown or the
//! password wrong, to prevent account enumeration. More than one surviving
//! identity is a data-integrity anomaly, surfaced as a distinct error
//! rather than resolved by silently picking one match.

use vstd::prelude::*;

use crate::clock::now_unix;
use crate::hasher::{argon2_verifies, hash_password, verify_password, HashError};
use crate::ids::{fresh_ulid, UserRecordId};
use crate::seqs::{lemma_filter_compose, lemma_filter_push, lemma_filter_single,
    lemma_two_members_two_len};
use crate::user::{users_with_email, IdentityStore, User, UserView};

verus! {

/// What one authentication attempt carries. Transient: lives only for the
/// attempt, and has no diagnostic representation, so the password is never
/// logged verbatim.
pub struct Credentials {
    /// The email address of the user.
    pub email: String,
    /// The password of the user.
    pub password: String,
    /// The remember-me flag.
    pub remember: bool,
}

/// Authentication failed operationally (not a wrong password).
#[derive(Debug, PartialEq, Eq)]
pub enum AuthError {
    /// Duplicate identities share the email and each validated the
    /// password against its own hash: a data-integrity violation, to be
    /// reported as an operational alert, never as a login failure.
    Duplicates(Vec<UserRecordId>),
}

/// Why a signup failed.
#[derive(Debug, Clone, Copy, PartialEq, Eq, Structural)]
pub enum SignupError {
    /// An identity with that email already exists; nothing was inserted.
    Duplicate,
    /// Deriving the password hash failed; fatal to the signup.
    Hashing(HashError),
    /// The freshly drawn identifier collided with a stored one — a
    /// negligible chance; nothing was inserted, and the caller may retry.
    IdCollision,
}

/// Whether the identity survives the attempt: its stored email equals the
/// submitted one and its hash verifies the submitted password.
pub open spec fn credential_matches(u: UserView, email: Seq<char>, password: Seq<char>) -> bool {
    u.email == email && argon2_verifies(u.pw_hash, password)
}

/// The identities that survive the attempt, in store order.
pub open spec fn credential_survivors(
    users: Seq<UserView>,
    email: Seq<char>,
    password: Seq<char>,
) -> Seq<UserView> {
    users.filter(|u: UserView| credential_matches(u, email, password))
}

/// Law: with an email present exactly once and the correct password, the
/// attempt has that one identity as its single survivor, so
/// `authenticate` returns it.
pub proof fn lemma_single_match(
    users: Seq<UserView>,
    email: Seq<char>,
    password: Seq<char>,
    i: int,
)
    requires
        0 <= i < users.len(),
        credential_matches(users[i], email, password),
        forall|j: int|
            0 <= j < users.len() && j != i ==> !credential_matches(
                #[trigger] users[j],
                email,
                password,
            ),
    ensures
        credential_survivors(users, email, password) =~= seq![users[i]],
{
    lemma_filter_single(users, |u: UserView| credential_matches(u, email, password), i);
}

/// Law: when no identity carrying the email verifies the password, the
/// attempt has no survivor, so `authenticate` returns `Ok(None)` — for a
/// wrong password exactly as for an unknown email.
pub proof fn lemma_no_match(users: Seq<UserView>, email: Seq<char>, password: Seq<char>)
    requires
        forall|j: int|
            0 <= j < users.len() ==> !credential_matches(#[trigger] users[j], email, password),
    ensures
        credential_survivors(users, email, password).len() == 0,
{
    let pred = |u: UserView| credential_matches(u, email, password);
    assert(users.all(|u: UserView| !pred(u)));
    users.lemma_all_neg_filter_empty(pred);
}

/// Law: two distinct identities sharing the email, each validating the
/// password against its own hash, leave at least two survivors, so
/// `authenticate` reports the ambiguous, data-integrity error.
pub proof fn lemma_ambiguous_match(
    users: Seq<UserView>,
    email: Seq<char>,
    password: Seq<char>,
    i: int,
    j: int,
)
    requires
        0 <= i < users.len(),
        0 <= j < users.len(),
        users[i] != users[j],
        credential_matches(users[i], email, password),
        credential_matches(users[j], email, password),
    ensures
        credential_survivors(users, email, password).len() >= 2,
{
    let pred = |u: UserView| credential_matches(u, email, password);
    users.lemma_filter_contains(pred, i);
    users.lemma_filter_contains(pred, j);
    lemma_two_members_two_len(users.filter(pred), users[i], users[j]);
}

/// Law: signup followed immediately by authenticate with the same
/// credentials succeeds. After inserting a fresh identity whose email was
/// absent and whose hash verifies the password, the attempt on the grown
/// store has that identity as its single survivor.
pub proof fn lemma_signup_then_authenticate(users: Seq<UserView>, u: UserView, password: Seq<char>)
    requires
        users_with_email(users, u.email).len() == 0,
        argon2_verifies(u.pw_hash, password),
    ensures
        credential_survivors(users.push(u), u.email, password) =~= seq![u],
{
    assert forall|j: int| 0 <= j < users.len() implies users[j].email != u.email by {
        if users[j].email == u.email {
            users.lemma_filter_contains(|x: UserView| x.email == u.email, j);
        }
    }
    let grown = users.push(u);
    assert(grown[users.len() as int] == u);
    assert forall|j: int|
        0 <= j < grown.len() && j != users.len() implies !credential_matches(
        #[trigger] grown[j],
        u.email,
        password,
    ) by {
        assert(grown[j] == users[j]);
    }
    lemma_single_match(grown, u.email, password, users.len() as int);
}

/// The backend over an identity store.
pub struct Backend {
    pub store: IdentityStore,
}

impl Backend {
    /// A backend over an empty store.
    pub fn new() -> (r: Backend)
        ensures
            r.store@ == Seq::<UserView>::empty(),
    {
        Backend { store: IdentityStore::new() }
    }

    /// Classifies one authentication attempt.
    ///
    /// Exactly one identity with the submitted email whose hash verifies
    /// the password survives: that identity is returned. None survives:
    /// `Ok(None)`, whether the email was unknown or the password wrong.
    /// More than one survives: the duplicate identifiers, as an error.
    #[verifier::loop_isolation(false)]
    pub fn authenticate(&self, credentials: Credentials) -> (r: Result<Option<User>, AuthError>)
        ensures
            ({
                let surv = credential_survivors(
                    self.store@,
                    credentials.email@,
                    credentials.password@,
                );
                &&& surv.len() == 0 ==> (r matches Ok(o) && o is None)
                &&& surv.len() == 1 ==> (r matches Ok(o) && o matches Some(u) && u@ == surv[0])
                &&& surv.len() > 1 ==> (r matches Err(e) && e matches AuthError::Duplicates(ids)
                    && ids@ == surv.map_values(|u: UserView| u.id))
            }),
    {
        let ghost email = credentials.email@;
        let ghost password = credentials.password@;
        let ghost vpred = |u: UserView| argon2_verifies(u.pw_hash, password);
        let matching = self.store.select_all_users_matching_email(credentials.email.as_str());
        let ghost musers = matching.deep_view();

        let mut survivors: Vec<User> = Vec::new();
        let n = matching.len();
        for i in 0..n
            invariant
                n == musers.len(),
                matching.deep_view() == musers,
                survivors.deep_view() == musers.take(i as int).filter(vpred),
        {
            let ok = verify_password(matching[i].pw_hash.as_str(), credentials.password.as_str());
            proof {
                assert(musers[i as int] == matching@[i as int]@);
                assert(vpred(musers[i as int]) == ok);
                lemma_filter_push(musers.take(i as int), musers[i as int], vpred);
                assert(musers.take(i as int).push(musers[i as int]) =~= musers.take(i + 1));
            }
            if ok {
                let kept = matching[i].duplicate();
                proof {
                    assert(kept@ == musers[i as int]);
                }
                survivors.push(kept);
                proof {
                    assert(survivors.deep_view() =~= musers.take(i as int).filter(vpred).push(
                        musers[i as int],
                    ));
                }
            }
        }
        proof {
            assert(musers.take(n as int) =~= musers);
            let p12 = |u: UserView| credential_matches(u, email, password);
            lemma_filter_compose(
                self.store@,
                |u: UserView| u.email == email,
                vpred,
                p12,
            );
            assert(survivors.deep_view() == credential_survivors(self.store@, email, password));
        }

        if survivors.len() == 0 {
            Ok(None)
        } else if survivors.len() == 1 {
            let u = survivors.remove(0);
            Ok(Some(u))
        } else {
            let mut ids: Vec<UserRecordId> = Vec::new();
            let m = survivors.len();
            let ghost surv = survivors.deep_view();
            for i in 0..m
                invariant
                    m == surv.len(),
                    survivors.deep_view() == surv,
                    ids@ == surv.take(i as int).map_values(|u: UserView| u.id),
            {
                ids.push(survivors[i].id);
                proof {
                    assert(ids@ =~= surv.take(i + 1).map_values(|u: UserView| u.id));
                }
            }
            proof {
                assert(surv.take(m as int) =~= surv);
            }
            Err(AuthError::Duplicates(ids))
        }
    }

    /// Zero-or-one lookup by identifier, for session validation.
    pub fn get_user(&self, user_id: UserRecordId) -> (r: Option<User>)
        ensures
            match r {
                Some(u) => exists|i: int|
                    0 <= i < self.store@.len() && self.store@[i] == u@ && u@.id == user_id,
                None => forall|i: int| 0 <= i < self.store@.len() ==> self.store@[i].id != user_id,
            },
    {
        self.store.select_user(user_id)
    }

    /// Creates a new identity, unless one with the email already exists.
    ///
    /// The whole signup fails with the duplicate error exactly when the
    /// email is already registered, and then nothing is inserted; any
    /// other failure inserts nothing either. On success the store grows
    /// by the one new identity, whose fresh hash verifies the submitted
    /// password and whose freshly drawn identifier was absent from the
    /// store — a collision of the draw is checked and refused, never
    /// silently stored.
    pub fn signup(&mut self, name: String, email: String, password: String) -> (r: Result<
        User,
        SignupError,
    >)
        ensures
            (r matches Err(e) && e == SignupError::Duplicate) <==> users_with_email(
                old(self).store@,
                email@,
            ).len() > 0,
            r is Err ==> final(self).store@ == old(self).store@,
            r matches Ok(u) ==> {
                &&& u@.name == name@
                &&& u@.email == email@
                &&& u@.is_active
                &&& argon2_verifies(u@.pw_hash, password@)
                &&& forall|i: int|
                    0 <= i < old(self).store@.len() ==> (#[trigger] old(self).store@[i]).id
                        != u@.id
                &&& final(self).store@ == old(self).store@.push(u@)
            },
    {
        let existing = self.store.select_all_users_matching_email(email.as_str());
        if existing.len() > 0 {
            return Err(SignupError::Duplicate);
        }
        let id = UserRecordId(fresh_ulid());
        if self.store.select_user(id).is_some() {
            return Err(SignupError::IdCollision);
        }
        let pw_hash = match hash_password(password.as_str()) {
            Ok(h) => h,
            Err(e) => {
                return Err(SignupError::Hashing(e));
            },
        };
        let user = User {
            id,
            name,
            email,
            pw_hash,
            is_active: true,
            registered_at: now_unix(),
        };
        let created = user.duplicate();
        self.store.insert_user(user);
        Ok(created)
    }
}

} // verus!
