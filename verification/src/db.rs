//! In-memory store for registered users and in-flight authentication
//! challenges. Both catalogs are modeled as sequences whose keys
//! (`user_id`, `auth_id`) are unique; lookups are by key.

use vstd::prelude::*;
use crate::scalar::Scalar;

verus! {

/// Relies on uuid::Uuid::new_v4 and Uuid's hyphenated Display form: a fresh
/// random 128-bit identifier rendered as a 36-character string.
#[verifier::external_body]
pub(crate) fn generate_uuid() -> (r: String)
    ensures
        r@.len() == 36,
{
    uuid::Uuid::new_v4().to_string()
}

/// A registered user: the public pair `(y1, y2)` under a unique name.
#[derive(Debug)]
pub struct User {
    pub user_id: String,
    pub y1: Scalar,
    pub y2: Scalar,
}

impl User {
    pub fn new(user: String, y1: Scalar, y2: Scalar) -> (r: Self)
        ensures
            r.user_id == user,
            r.y1 == y1,
            r.y2 == y2,
    {
        User { user_id: user, y1, y2 }
    }
}

/// An in-flight challenge: the prover's commitments and the issued challenge
/// scalar, with the response and session identifier unset until a successful
/// verification finalizes the record.
#[derive(Debug)]
pub struct AuthChallenge {
    pub auth_id: String,
    pub user_id: String,
    pub r1: Scalar,
    pub r2: Scalar,
    pub c: Scalar,
    pub s: Option<Scalar>,
    pub session_id: Option<String>,
}

impl AuthChallenge {
    /// A fresh pending challenge under a newly minted `auth_id`.
    pub fn new(user_id: String, r1: Scalar, r2: Scalar, c: Scalar) -> (r: Self)
        ensures
            r.user_id == user_id,
            r.r1 == r1,
            r.r2 == r2,
            r.c == c,
            r.s is None,
            r.session_id is None,
            r.auth_id@.len() == 36,
    {
        let auth_id = generate_uuid();
        AuthChallenge { auth_id, user_id, r1, r2, c, s: None, session_id: None }
    }

    /// Record the accepted response and mint the session identifier; both
    /// fields are set together.
    pub fn finalize_challenge(&mut self, s: Scalar)
        ensures
            final(self).s == Some(s),
            final(self).session_id matches Some(sid) && sid@.len() == 36,
            final(self).auth_id == old(self).auth_id,
            final(self).user_id == old(self).user_id,
            final(self).r1 == old(self).r1,
            final(self).r2 == old(self).r2,
            final(self).c == old(self).c,
    {
        let session_id = generate_uuid();
        self.s = Some(s);
        self.session_id = Some(session_id);
    }
}

/// The ghost model of the store: the two catalogs as sequences.
pub ghost struct DbModel {
    pub users: Seq<User>,
    pub challenges: Seq<AuthChallenge>,
}

/// Some user with this name is in the catalog.
pub open spec fn has_user(db: DbModel, id: Seq<char>) -> bool {
    exists|i: int| 0 <= i < db.users.len() && db.users[i].user_id@ == id
}

/// The index of the user with this name.
pub open spec fn user_index(db: DbModel, id: Seq<char>) -> int {
    choose|i: int| 0 <= i < db.users.len() && db.users[i].user_id@ == id
}

/// The user with this name.
pub open spec fn user_at(db: DbModel, id: Seq<char>) -> User {
    db.users[user_index(db, id)]
}

/// Some challenge with this identifier is in the catalog.
pub open spec fn has_challenge(db: DbModel, id: Seq<char>) -> bool {
    exists|i: int| 0 <= i < db.challenges.len() && db.challenges[i].auth_id@ == id
}

/// The index of the challenge with this identifier.
pub open spec fn challenge_index(db: DbModel, id: Seq<char>) -> int {
    choose|i: int| 0 <= i < db.challenges.len() && db.challenges[i].auth_id@ == id
}

/// The challenge with this identifier.
pub open spec fn challenge_at(db: DbModel, id: Seq<char>) -> AuthChallenge {
    db.challenges[challenge_index(db, id)]
}

/// Both catalogs are keyed uniquely.
pub open spec fn db_wf(db: DbModel) -> bool {
    &&& forall|i: int, j: int|
        0 <= i < j < db.users.len() ==> db.users[i].user_id@ != db.users[j].user_id@
    &&& forall|i: int, j: int|
        0 <= i < j < db.challenges.len() ==> db.challenges[i].auth_id@ != db.challenges[j].auth_id@
}

/// The in-memory database: a catalog of users keyed by name and a catalog
/// of challenges keyed by challenge identifier.
#[derive(Debug)]
pub struct InMemoryDB {
    users: Vec<User>,
    challenges: Vec<AuthChallenge>,
}

impl View for InMemoryDB {
    type V = DbModel;

    closed spec fn view(&self) -> DbModel {
        DbModel { users: self.users@, challenges: self.challenges@ }
    }
}

impl InMemoryDB {
    /// An empty store.
    pub fn new() -> (r: Self)
        ensures
            r@.users =~= Seq::<User>::empty(),
            r@.challenges =~= Seq::<AuthChallenge>::empty(),
            db_wf(r@),
    {
        InMemoryDB { users: Vec::new(), challenges: Vec::new() }
    }

    /// Create a new user. The name must not be taken; the service checks
    /// before calling.
    pub fn create_user(&mut self, username: String, y1: Scalar, y2: Scalar)
        requires
            !has_user(old(self)@, username@),
        ensures
            final(self)@.users =~= old(self)@.users.push((User { user_id: username, y1, y2 })),
            final(self)@.challenges =~= old(self)@.challenges,
            db_wf(old(self)@) ==> db_wf(final(self)@),
    {
        let ghost uname = username@;
        let user = User::new(username, y1, y2);
        self.users.push(user);
        proof {
            let dbo = old(self)@;
            let dbn = self@;
            if db_wf(dbo) {
                assert forall|i: int, j: int|
                    0 <= i < j < dbn.users.len() implies dbn.users[i].user_id@ != dbn.users[j].user_id@ by {
                    if j == dbn.users.len() - 1 {
                        assert(dbn.users[i] == dbo.users[i]);
                        assert(dbn.users[j].user_id@ == uname);
                        if dbo.users[i].user_id@ == uname {
                            assert(has_user(dbo, uname));
                        }
                    } else {
                        assert(dbn.users[i] == dbo.users[i]);
                        assert(dbn.users[j] == dbo.users[j]);
                        assert(dbo.users[i].user_id@ != dbo.users[j].user_id@);
                    }
                }
            }
        }
    }

    /// Create a new challenge. Its identifier must not be taken; the service
    /// checks before calling.
    pub fn create_challenge(&mut self, challenge: AuthChallenge)
        requires
            !has_challenge(old(self)@, challenge.auth_id@),
        ensures
            final(self)@.challenges =~= old(self)@.challenges.push(challenge),
            final(self)@.users =~= old(self)@.users,
            db_wf(old(self)@) ==> db_wf(final(self)@),
    {
        let ghost aid = challenge.auth_id@;
        self.challenges.push(challenge);
        proof {
            let dbo = old(self)@;
            let dbn = self@;
            if db_wf(dbo) {
                assert forall|i: int, j: int|
                    0 <= i < j < dbn.challenges.len() implies dbn.challenges[i].auth_id@
                    != dbn.challenges[j].auth_id@ by {
                    if j == dbn.challenges.len() - 1 {
                        assert(dbn.challenges[i] == dbo.challenges[i]);
                        assert(dbn.challenges[j].auth_id@ == aid);
                        if dbo.challenges[i].auth_id@ == aid {
                            assert(has_challenge(dbo, aid));
                        }
                    } else {
                        assert(dbn.challenges[i] == dbo.challenges[i]);
                        assert(dbn.challenges[j] == dbo.challenges[j]);
                        assert(dbo.challenges[i].auth_id@ != dbo.challenges[j].auth_id@);
                    }
                }
                assert(dbn.users =~= dbo.users);
                assert forall|i: int, j: int|
                    0 <= i < j < dbn.users.len() implies dbn.users[i].user_id@ != dbn.users[j].user_id@ by {
                    assert(dbo.users[i].user_id@ != dbo.users[j].user_id@);
                }
                assert(db_wf(dbn));
            }
        }
    }

    /// Whether a user with this name is registered.
    pub fn contains_user(&self, user_id: &str) -> (r: bool)
        requires
            db_wf(self@),
        ensures
            r == has_user(self@, user_id@),
    {
        self.get_user(user_id).is_some()
    }

    /// Look a user up by name.
    pub fn get_user(&self, user_id: &str) -> (r: Option<&User>)
        requires
            db_wf(self@),
        ensures
            match r {
                Some(u) => has_user(self@, user_id@) && *u == user_at(self@, user_id@),
                None => !has_user(self@, user_id@),
            },
    {
        let key: String = user_id.to_owned();
        let n = self.users.len();
        let mut i: usize = 0;
        while i < n
            invariant
                db_wf(self@),
                n == self@.users.len(),
                i <= n,
                key@ == user_id@,
                forall|j: int| 0 <= j < i ==> self@.users[j].user_id@ != user_id@,
            decreases n - i,
        {
            if self.users[i].user_id == key {
                proof {
                    lemma_user_lookup(self@, user_id@, i as int);
                }
                return Some(&self.users[i]);
            }
            i = i + 1;
        }
        None
    }

    /// Look a challenge up by identifier.
    pub fn get_challenge(&self, auth_id: &str) -> (r: Option<&AuthChallenge>)
        requires
            db_wf(self@),
        ensures
            match r {
                Some(ch) => has_challenge(self@, auth_id@) && *ch == challenge_at(self@, auth_id@),
                None => !has_challenge(self@, auth_id@),
            },
    {
        let key: String = auth_id.to_owned();
        let n = self.challenges.len();
        let mut i: usize = 0;
        while i < n
            invariant
                db_wf(self@),
                n == self@.challenges.len(),
                i <= n,
                key@ == auth_id@,
                forall|j: int| 0 <= j < i ==> self@.challenges[j].auth_id@ != auth_id@,
            decreases n - i,
        {
            if self.challenges[i].auth_id == key {
                proof {
                    lemma_challenge_lookup(self@, auth_id@, i as int);
                }
                return Some(&self.challenges[i]);
            }
            i = i + 1;
        }
        None
    }

    /// Finalize the challenge with this identifier: set the accepted response
    /// and a fresh session identifier together, and hand the session
    /// identifier back.
    pub fn finalize_challenge(&mut self, auth_id: &str, s: Scalar) -> (r: Option<String>)
        requires
            db_wf(old(self)@),
        ensures
            db_wf(final(self)@),
            match r {
                Some(sid) => {
                    &&& has_challenge(old(self)@, auth_id@)
                    &&& sid@.len() == 36
                    &&& final(self)@.challenges =~= old(self)@.challenges.update(
                        challenge_index(old(self)@, auth_id@),
                        (AuthChallenge {
                            s: Some(s),
                            session_id: Some(sid),
                            ..challenge_at(old(self)@, auth_id@)
                        }),
                    )
                    &&& final(self)@.users =~= old(self)@.users
                },
                None => !has_challenge(old(self)@, auth_id@) && final(self)@ == old(self)@,
            },
    {
        let key: String = auth_id.to_owned();
        let n = self.challenges.len();
        let mut i: usize = 0;
        while i < n
            invariant
                db_wf(self@),
                self@ == old(self)@,
                n == self@.challenges.len(),
                i <= n,
                key@ == auth_id@,
                forall|j: int| 0 <= j < i ==> self@.challenges[j].auth_id@ != auth_id@,
            decreases n - i,
        {
            if self.challenges[i].auth_id == key {
                proof {
                    lemma_challenge_lookup(self@, auth_id@, i as int);
                }
                let ch = &mut self.challenges[i];
                ch.finalize_challenge(s);
                let sid = match &self.challenges[i].session_id {
                    Some(sid) => sid.clone(),
                    None => {
                        proof {
                            assert(false);
                        }
                        String::new()
                    },
                };
                proof {
                    lemma_finalize_preserves_wf(old(self)@, self@, i as int);
                }
                return Some(sid);
            }
            i = i + 1;
        }
        None
    }
}

/// With unique names, a match at index `i` is the looked-up user.
proof fn lemma_user_lookup(db: DbModel, id: Seq<char>, i: int)
    requires
        db_wf(db),
        0 <= i < db.users.len(),
        db.users[i].user_id@ == id,
    ensures
        has_user(db, id),
        user_index(db, id) == i,
        user_at(db, id) == db.users[i],
{
    assert(has_user(db, id));
    let j = user_index(db, id);
    if i != j {
        if i < j {
            assert(db.users[i].user_id@ != db.users[j].user_id@);
        } else {
            assert(db.users[j].user_id@ != db.users[i].user_id@);
        }
    }
}

/// With unique identifiers, a match at index `i` is the looked-up challenge.
proof fn lemma_challenge_lookup(db: DbModel, id: Seq<char>, i: int)
    requires
        db_wf(db),
        0 <= i < db.challenges.len(),
        db.challenges[i].auth_id@ == id,
    ensures
        has_challenge(db, id),
        challenge_index(db, id) == i,
        challenge_at(db, id) == db.challenges[i],
{
    assert(has_challenge(db, id));
    let j = challenge_index(db, id);
    if i != j {
        if i < j {
            assert(db.challenges[i].auth_id@ != db.challenges[j].auth_id@);
        } else {
            assert(db.challenges[j].auth_id@ != db.challenges[i].auth_id@);
        }
    }
}

/// Updating one challenge in place without changing its identifier keeps
/// the catalog's keys unique.
proof fn lemma_finalize_preserves_wf(dbo: DbModel, dbn: DbModel, i: int)
    requires
        db_wf(dbo),
        dbn.users =~= dbo.users,
        dbn.challenges.len() == dbo.challenges.len(),
        0 <= i < dbo.challenges.len(),
        forall|j: int|
            0 <= j < dbn.challenges.len() ==> dbn.challenges[j].auth_id@ == dbo.challenges[j].auth_id@,
    ensures
        db_wf(dbn),
{
}

} // verus!
