use zkp_auth::cp_params::ChaumPedersenParams;
use zkp_auth::scalar::Scalar;
use zkp_auth::server::{AuthError, ZkpAuthService};

fn s64(v: u64) -> Scalar {
    Scalar::from_u64(v)
}

fn test_params() -> ChaumPedersenParams {
    ChaumPedersenParams::new(s64(10009), s64(5004), s64(2), s64(3))
}

fn test_service() -> ZkpAuthService {
    ZkpAuthService::new(test_params())
}

/// The full three-round flow with the secret x = 3 and nonce k = 4.
#[test]
fn test_end_to_end_accepts_honest_prover() {
    let mut svc = test_service();
    let params = test_params();

    let x = s64(3);
    let (y1, y2) = params.y1_y2(&x);
    assert_eq!(y1, s64(8));
    assert_eq!(y2, s64(27));
    assert!(svc.register("u".to_string(), y1, y2).is_ok());

    let k = s64(4);
    let (r1, r2) = params.r1_r2(&k);
    assert_eq!(r1, s64(16));
    assert_eq!(r2, s64(81));
    let (auth_id, c) = svc
        .create_authentication_challenge("u".to_string(), r1, r2)
        .unwrap();
    assert_eq!(auth_id.len(), 36);
    assert!(c.lt(&params.q));

    let s = params.s(&k, &c, &x);
    let session_id = svc.verify_authentication(auth_id, s).unwrap();
    assert!(!session_id.is_empty());
    assert_eq!(session_id.len(), 36);
}

/// A response off by one is rejected with FailedPrecondition. The response
/// for nonce 5 is exactly one above the honest response for nonce 4,
/// modulo q.
#[test]
fn test_wrong_response_fails_precondition() {
    let mut svc = test_service();
    let params = test_params();

    let (y1, y2) = params.y1_y2(&s64(3));
    svc.register("u".to_string(), y1, y2).unwrap();
    let (r1, r2) = params.r1_r2(&s64(4));
    let (auth_id, c) = svc
        .create_authentication_challenge("u".to_string(), r1, r2)
        .unwrap();

    let s_wrong = params.s(&s64(5), &c, &s64(3));
    assert_eq!(
        svc.verify_authentication(auth_id, s_wrong),
        Err(AuthError::FailedPrecondition)
    );
}

/// A prover who knows only x' = 2 instead of x = 3 is rejected (unless the
/// challenge happens to be a multiple of the subgroup order, which the
/// drawn challenge is checked against).
#[test]
fn test_wrong_secret_rejected() {
    let mut svc = test_service();
    let params = test_params();

    let (y1, y2) = params.y1_y2(&s64(3));
    svc.register("u".to_string(), y1, y2).unwrap();
    let (r1, r2) = params.r1_r2(&s64(4));
    let (auth_id, c) = svc
        .create_authentication_challenge("u".to_string(), r1, r2)
        .unwrap();
    if c.is_zero() {
        // The one challenge on which any response with matching commitments
        // passes; the test has nothing to distinguish then.
        return;
    }
    let s_wrong = params.s(&s64(4), &c, &s64(2));
    assert_eq!(
        svc.verify_authentication(auth_id, s_wrong),
        Err(AuthError::FailedPrecondition)
    );
}

/// Verification of an unknown challenge identifier.
#[test]
fn test_unknown_auth_id_not_found() {
    let mut svc = test_service();
    assert_eq!(
        svc.verify_authentication("no-such-challenge".to_string(), s64(5002)),
        Err(AuthError::NotFound)
    );
}

/// Challenge issuance for a user who never registered.
#[test]
fn test_unregistered_user_not_found() {
    let mut svc = test_service();
    assert_eq!(
        svc.create_authentication_challenge("ghost".to_string(), s64(16), s64(81)),
        Err(AuthError::NotFound)
    );
}

/// A second Register under the same name is refused and changes nothing:
/// the user keeps the pair registered first.
#[test]
fn test_duplicate_register_already_exists() {
    let mut svc = test_service();
    svc.register("u".to_string(), s64(8), s64(27)).unwrap();
    assert_eq!(
        svc.register("u".to_string(), s64(9), s64(28)),
        Err(AuthError::AlreadyExists)
    );

    // The store is unchanged: the first pair still verifies.
    let params = test_params();
    let (r1, r2) = params.r1_r2(&s64(4));
    let (auth_id, c) = svc
        .create_authentication_challenge("u".to_string(), r1, r2)
        .unwrap();
    let s = params.s(&s64(4), &c, &s64(3));
    assert!(svc.verify_authentication(auth_id, s).is_ok());
}

/// Replaying a verified challenge is refused with AlreadyUsed.
#[test]
fn test_replay_already_used() {
    let mut svc = test_service();
    let params = test_params();

    let (y1, y2) = params.y1_y2(&s64(3));
    svc.register("u".to_string(), y1, y2).unwrap();
    let (r1, r2) = params.r1_r2(&s64(4));
    let (auth_id, c) = svc
        .create_authentication_challenge("u".to_string(), r1, r2)
        .unwrap();
    let s = params.s(&s64(4), &c, &s64(3));
    let s_replay = s.dup();
    svc.verify_authentication(auth_id.clone(), s).unwrap();

    assert_eq!(
        svc.verify_authentication(auth_id, s_replay),
        Err(AuthError::AlreadyUsed)
    );
}

/// A failed verification leaves the challenge reusable.
#[test]
fn test_failed_verification_leaves_challenge_open() {
    let mut svc = test_service();
    let params = test_params();

    let (y1, y2) = params.y1_y2(&s64(3));
    svc.register("u".to_string(), y1, y2).unwrap();
    let (r1, r2) = params.r1_r2(&s64(4));
    let (auth_id, c) = svc
        .create_authentication_challenge("u".to_string(), r1, r2)
        .unwrap();
    let s = params.s(&s64(4), &c, &s64(3));
    let s_wrong = params.s(&s64(5), &c, &s64(3));

    assert_eq!(
        svc.verify_authentication(auth_id.clone(), s_wrong),
        Err(AuthError::FailedPrecondition)
    );
    assert!(svc.verify_authentication(auth_id, s).is_ok());
}

/// Two challenge issuances for the same user are independent: distinct
/// identifiers, each with a challenge scalar below q.
#[test]
fn test_challenge_isolation() {
    let mut svc = test_service();
    let params = test_params();
    svc.register("u".to_string(), s64(8), s64(27)).unwrap();
    let (id1, c1) = svc
        .create_authentication_challenge("u".to_string(), s64(16), s64(81))
        .unwrap();
    let (id2, c2) = svc
        .create_authentication_challenge("u".to_string(), s64(16), s64(81))
        .unwrap();
    assert_ne!(id1, id2);
    assert!(c1.lt(&params.q));
    assert!(c2.lt(&params.q));
}

/// Rejected inputs: empty names and out-of-range scalars, for users that
/// are not already settled by the existence check.
#[test]
fn test_invalid_arguments() {
    let mut svc = test_service();
    assert_eq!(
        svc.register("".to_string(), s64(8), s64(27)),
        Err(AuthError::InvalidArgument)
    );
    assert_eq!(
        svc.register("u".to_string(), s64(10009), s64(27)),
        Err(AuthError::InvalidArgument)
    );
    assert_eq!(
        svc.register("u".to_string(), s64(8), s64(20000)),
        Err(AuthError::InvalidArgument)
    );
    svc.register("u".to_string(), s64(8), s64(27)).unwrap();
    // An empty name is never registered, so issuance answers NotFound.
    assert_eq!(
        svc.create_authentication_challenge("".to_string(), s64(16), s64(81)),
        Err(AuthError::NotFound)
    );
    assert_eq!(
        svc.create_authentication_challenge("u".to_string(), s64(10009), s64(81)),
        Err(AuthError::InvalidArgument)
    );
}

/// The existence check comes first: a duplicate Register answers
/// AlreadyExists even with out-of-range scalars, and challenge issuance for
/// an unknown user answers NotFound even with out-of-range commitments.
#[test]
fn test_existence_checked_before_arguments() {
    let mut svc = test_service();
    svc.register("u".to_string(), s64(8), s64(27)).unwrap();
    assert_eq!(
        svc.register("u".to_string(), s64(20000), s64(27)),
        Err(AuthError::AlreadyExists)
    );
    assert_eq!(
        svc.create_authentication_challenge("ghost".to_string(), s64(20000), s64(81)),
        Err(AuthError::NotFound)
    );
}
