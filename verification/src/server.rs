//! The authentication service: the three endpoints of the protocol
//! (register, challenge issuance, verification) over the in-memory store,
//! with every error condition pinned to the inputs that cause it.

use vstd::prelude::*;
use rand_core::RngCore;
use crate::cp_params::ChaumPedersenParams;
use crate::db::{
    AuthChallenge, DbModel, InMemoryDB, User, challenge_at, challenge_index, db_wf, has_challenge,
    has_user, user_at,
};
use crate::scalar::Scalar;

verus! {

/// Service errors, mirroring the wire status codes.
#[derive(Clone, Copy, PartialEq, Eq, Structural, Debug)]
pub enum AuthError {
    /// Register for a name that is already taken.
    AlreadyExists,
    /// Unknown user or unknown challenge.
    NotFound,
    /// The proof did not check out.
    FailedPrecondition,
    /// The challenge was already finalized by an earlier verification.
    AlreadyUsed,
    /// Empty user name or a scalar out of range.
    InvalidArgument,
    /// An impossible state, such as a colliding fresh identifier.
    Internal,
}

/// Relies on rand_core::OsRng::next_u64: a random 64-bit value from the
/// operating system's secure source. Nothing is promised of its value.
#[verifier::external_body]
fn random_u64() -> u64 {
    rand_core::OsRng.next_u64()
}

/// A stored user is valid: a nonempty name and a public pair below `p`.
pub open spec fn user_record_inv(params: ChaumPedersenParams, u: User) -> bool {
    &&& u.user_id@.len() > 0
    &&& u.y1@ < params.p@
    &&& u.y2@ < params.p@
}

/// A stored challenge is valid: commitments below `p`, a challenge scalar
/// below `q`, a user that exists, and the response and session identifier
/// set together or not at all.
pub open spec fn challenge_record_inv(
    params: ChaumPedersenParams,
    db: DbModel,
    ch: AuthChallenge,
) -> bool {
    &&& ch.r1@ < params.p@
    &&& ch.r2@ < params.p@
    &&& ch.c@ < params.q@
    &&& has_user(db, ch.user_id@)
    &&& (ch.s is Some <==> ch.session_id is Some)
}

/// Every stored record is valid.
pub open spec fn record_inv(params: ChaumPedersenParams, db: DbModel) -> bool {
    &&& forall|i: int| 0 <= i < db.users.len() ==> user_record_inv(params, #[trigger] db.users[i])
    &&& forall|i: int|
        0 <= i < db.challenges.len() ==> challenge_record_inv(
            params,
            db,
            #[trigger] db.challenges[i],
        )
}

/// A user present in a catalog stays present when users are only added.
proof fn lemma_has_user_extended(db0: DbModel, db1: DbModel, id: Seq<char>)
    requires
        db0.users.len() <= db1.users.len(),
        forall|i: int| 0 <= i < db0.users.len() ==> db1.users[i] == db0.users[i],
        has_user(db0, id),
    ensures
        has_user(db1, id),
{
    let i = choose|i: int| 0 <= i < db0.users.len() && db0.users[i].user_id@ == id;
    assert(db1.users[i].user_id@ == id);
}

/// The service: fixed group parameters and the shared store.
pub struct ZkpAuthService {
    pub params: ChaumPedersenParams,
    db: InMemoryDB,
}

impl ZkpAuthService {
    /// The store behind the service, as its ghost model.
    pub closed spec fn db_model(&self) -> DbModel {
        self.db@
    }

    /// The service's group parameters, for contracts.
    pub closed spec fn spec_params(&self) -> ChaumPedersenParams {
        self.params
    }

    /// Usable service state: workable parameters, uniquely keyed catalogs,
    /// and every stored record valid.
    pub open spec fn wf(&self) -> bool {
        &&& self.spec_params().wf_spec()
        &&& db_wf(self.db_model())
        &&& record_inv(self.spec_params(), self.db_model())
    }

    /// A fresh service over an empty store.
    pub fn new(params: ChaumPedersenParams) -> (r: Self)
        ensures
            r.spec_params() == params,
            r.db_model().users =~= Seq::<User>::empty(),
            r.db_model().challenges =~= Seq::<AuthChallenge>::empty(),
            params.wf_spec() ==> r.wf(),
    {
        ZkpAuthService { params, db: InMemoryDB::new() }
    }

    /// Register a user under a new name with the public pair `(y1, y2)`.
    ///
    /// Fails with `AlreadyExists` whenever the name is taken, and then with
    /// `InvalidArgument` on an empty name or a scalar outside `[0, p)`;
    /// exactly otherwise the user is added and nothing else changes.
    pub fn register(&mut self, user_id: String, y1: Scalar, y2: Scalar) -> (r: Result<
        (),
        AuthError,
    >)
        requires
            old(self).wf(),
        ensures
            final(self).wf(),
            final(self).spec_params() == old(self).spec_params(),
            r is Ok <==> (!has_user(old(self).db_model(), user_id@) && user_id@.len() > 0
                && y1@ < old(self).spec_params().p@ && y2@ < old(self).spec_params().p@),
            r == Err::<(), AuthError>(AuthError::AlreadyExists) <==> has_user(
                old(self).db_model(),
                user_id@,
            ),
            r == Err::<(), AuthError>(AuthError::InvalidArgument) <==> (!has_user(
                old(self).db_model(),
                user_id@,
            ) && (user_id@.len() == 0 || y1@ >= old(self).spec_params().p@ || y2@ >= old(
                self,
            ).spec_params().p@)),
            r is Ok ==> final(self).db_model().users =~= old(self).db_model().users.push(
                (User { user_id, y1, y2 }),
            ) && final(self).db_model().challenges =~= old(self).db_model().challenges,
            !(r is Ok) ==> final(self).db_model() == old(self).db_model(),
    {
        if self.db.contains_user(user_id.as_str()) {
            return Err(AuthError::AlreadyExists);
        }
        if user_id.as_str().is_empty() || !y1.lt(&self.params.p) || !y2.lt(&self.params.p) {
            return Err(AuthError::InvalidArgument);
        }
        self.db.create_user(user_id, y1, y2);
        proof {
            let p = old(self).spec_params();
            let db0 = old(self).db_model();
            let db1 = self.db_model();
            assert forall|i: int| 0 <= i < db1.users.len() implies user_record_inv(
                p,
                db1.users[i],
            ) by {
                if i < db1.users.len() - 1 {
                    assert(db1.users[i] == db0.users[i]);
                    assert(user_record_inv(p, db0.users[i]));
                }
            }
            assert forall|i: int| 0 <= i < db1.challenges.len() implies challenge_record_inv(
                p,
                db1,
                db1.challenges[i],
            ) by {
                assert(db1.challenges[i] == db0.challenges[i]);
                assert(challenge_record_inv(p, db0, db0.challenges[i]));
                lemma_has_user_extended(db0, db1, db1.challenges[i].user_id@);
            }
        }
        Ok(())
    }

    /// Issue a challenge for a registered user who committed to `(r1, r2)`.
    ///
    /// Fails with `NotFound` whenever the user is unknown, and then with
    /// `InvalidArgument` on a commitment outside `[0, p)`. Otherwise a fresh
    /// challenge scalar below `q` is drawn (a 64-bit sample, the width the
    /// protocol's reference setup keeps, reduced modulo `q`) and the pending
    /// challenge is stored under a newly minted identifier; `Internal`
    /// reports the impossible case of that fresh identifier colliding.
    pub fn create_authentication_challenge(&mut self, user_id: String, r1: Scalar, r2: Scalar) -> (r:
        Result<(String, Scalar), AuthError>)
        requires
            old(self).wf(),
        ensures
            final(self).wf(),
            final(self).spec_params() == old(self).spec_params(),
            ({
                let invalid = user_id@.len() == 0 || r1@ >= old(self).spec_params().p@
                    || r2@ >= old(self).spec_params().p@;
                let known = has_user(old(self).db_model(), user_id@);
                let db0 = old(self).db_model();
                let db1 = final(self).db_model();
                &&& (r == Err::<(String, Scalar), AuthError>(AuthError::NotFound) <==> !known)
                &&& (r == Err::<(String, Scalar), AuthError>(AuthError::InvalidArgument) <==> (
                known && invalid))
                &&& (known && !invalid ==> r is Ok || r == Err::<(String, Scalar), AuthError>(
                    AuthError::Internal,
                ))
                &&& (r matches Ok(resp) ==> {
                    &&& known && !invalid
                    &&& resp.1@ < old(self).spec_params().q@
                    &&& resp.0@.len() == 36
                    &&& !has_challenge(db0, resp.0@)
                    &&& db1.users =~= db0.users
                    &&& db1.challenges.len() == db0.challenges.len() + 1
                    &&& (forall|i: int|
                        0 <= i < db0.challenges.len() ==> db1.challenges[i] == db0.challenges[i])
                    &&& db1.challenges.last().auth_id@ == resp.0@
                    &&& db1.challenges.last().user_id@ == user_id@
                    &&& db1.challenges.last().r1@ == r1@
                    &&& db1.challenges.last().r2@ == r2@
                    &&& db1.challenges.last().c@ == resp.1@
                    &&& db1.challenges.last().s is None
                    &&& db1.challenges.last().session_id is None
                })
                &&& (!(r is Ok) ==> db1 == db0)
            }),
    {
        if !self.db.contains_user(user_id.as_str()) {
            return Err(AuthError::NotFound);
        }
        if user_id.as_str().is_empty() || !r1.lt(&self.params.p) || !r2.lt(&self.params.p) {
            return Err(AuthError::InvalidArgument);
        }
        let c = Scalar::from_u64(random_u64()).rem(&self.params.q);
        let challenge = AuthChallenge::new(user_id, r1, r2, c);
        let c_out = challenge.c.dup();
        let auth_id = challenge.auth_id.clone();
        if self.db.get_challenge(auth_id.as_str()).is_some() {
            return Err(AuthError::Internal);
        }
        self.db.create_challenge(challenge);
        proof {
            let p = old(self).spec_params();
            let db0 = old(self).db_model();
            let db1 = self.db_model();
            assert forall|i: int| 0 <= i < db1.users.len() implies user_record_inv(
                p,
                db1.users[i],
            ) by {
                assert(db1.users[i] == db0.users[i]);
                assert(user_record_inv(p, db0.users[i]));
            }
            assert forall|i: int| 0 <= i < db1.challenges.len() implies challenge_record_inv(
                p,
                db1,
                db1.challenges[i],
            ) by {
                if i < db1.challenges.len() - 1 {
                    assert(db1.challenges[i] == db0.challenges[i]);
                    assert(challenge_record_inv(p, db0, db0.challenges[i]));
                    lemma_has_user_extended(db0, db1, db1.challenges[i].user_id@);
                } else {
                    lemma_has_user_extended(db0, db1, db1.challenges[i].user_id@);
                }
            }
        }
        Ok((auth_id, c_out))
    }

    /// Decide a pending challenge against the response `s`.
    ///
    /// Fails with `NotFound` for an unknown challenge or a challenge whose
    /// user has disappeared, with `AlreadyUsed` for a challenge that an
    /// earlier verification finalized, and with `FailedPrecondition` when
    /// the recomputed commitments do not match. Exactly otherwise the
    /// challenge is finalized with `s` and a fresh session identifier,
    /// which is returned.
    pub fn verify_authentication(&mut self, auth_id: String, s: Scalar) -> (r: Result<
        String,
        AuthError,
    >)
        requires
            old(self).wf(),
        ensures
            final(self).wf(),
            final(self).spec_params() == old(self).spec_params(),
            ({
                let db0 = old(self).db_model();
                let known = has_challenge(db0, auth_id@);
                let ch = challenge_at(db0, auth_id@);
                let used = known && ch.session_id is Some;
                let user_known = known && has_user(db0, ch.user_id@);
                let u = user_at(db0, ch.user_id@);
                let accept = known && user_known && old(self).spec_params().accepts_spec(
                    u.y1@ as int,
                    u.y2@ as int,
                    ch.r1@ as int,
                    ch.r2@ as int,
                    ch.c@,
                    s@,
                );
                &&& (r == Err::<String, AuthError>(AuthError::NotFound) <==> (!known || (!used
                    && !user_known)))
                &&& (r == Err::<String, AuthError>(AuthError::AlreadyUsed) <==> used)
                &&& (r == Err::<String, AuthError>(AuthError::FailedPrecondition) <==> (known
                    && !used && user_known && !accept))
                &&& (r is Ok <==> (known && !used && user_known && accept))
                &&& (r matches Ok(sid) ==> {
                    &&& sid@.len() == 36
                    &&& final(self).db_model().challenges =~= db0.challenges.update(
                        challenge_index(db0, auth_id@),
                        (AuthChallenge { s: Some(s), session_id: Some(sid), ..ch }),
                    )
                    &&& final(self).db_model().users =~= db0.users
                })
                &&& (!(r is Ok) ==> final(self).db_model() == db0)
            }),
    {
        let (ch_user, ch_r1, ch_r2, ch_c, ch_used) = match self.db.get_challenge(
            auth_id.as_str(),
        ) {
            Some(ch) => (ch.user_id.clone(), ch.r1.dup(), ch.r2.dup(), ch.c.dup(), ch
                .session_id
                .is_some()),
            None => {
                return Err(AuthError::NotFound);
            },
        };
        if ch_used {
            return Err(AuthError::AlreadyUsed);
        }
        let (y1, y2) = match self.db.get_user(ch_user.as_str()) {
            Some(u) => (u.y1.dup(), u.y2.dup()),
            None => {
                return Err(AuthError::NotFound);
            },
        };
        let ok = self.params.verify_commitments(&y1, &y2, &ch_r1, &ch_r2, &ch_c, &s);
        if !ok {
            return Err(AuthError::FailedPrecondition);
        }
        match self.db.finalize_challenge(auth_id.as_str(), s) {
            Some(sid) => {
                proof {
                    let p = old(self).spec_params();
                    let db0 = old(self).db_model();
                    let db1 = self.db_model();
                    assert forall|i: int| 0 <= i < db1.users.len() implies user_record_inv(
                        p,
                        db1.users[i],
                    ) by {
                        assert(db1.users[i] == db0.users[i]);
                        assert(user_record_inv(p, db0.users[i]));
                    }
                    assert forall|i: int|
                        0 <= i < db1.challenges.len() implies challenge_record_inv(
                        p,
                        db1,
                        db1.challenges[i],
                    ) by {
                        assert(challenge_record_inv(p, db0, db0.challenges[i]));
                        lemma_has_user_extended(db0, db1, db1.challenges[i].user_id@);
                    }
                }
                Ok(sid)
            },
            None => {
                proof {
                    assert(false);
                }
                Err(AuthError::Internal)
            },
        }
    }
}

/// Challenge isolation: two challenge issuances that both succeed return
/// distinct identifiers. After the first call its identifier is in the
/// store, and the second call's ensures say its identifier was not in that
/// store; each call's challenge scalar is independently drawn below `q`.
pub proof fn lemma_challenge_isolation(db1: DbModel, id1: Seq<char>, id2: Seq<char>)
    requires
        has_challenge(db1, id1),
        !has_challenge(db1, id2),
    ensures
        id1 != id2,
{
}

} // verus!
