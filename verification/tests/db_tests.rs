use zkp_auth::auth_db::{AuthSession, AuthSessionDb};
use zkp_auth::db::{AuthChallenge, InMemoryDB, User};
use zkp_auth::scalar::Scalar;

fn s64(v: u64) -> Scalar {
    Scalar::from_u64(v)
}

#[test]
fn test_user_new() {
    let u = User::new("alice".to_string(), s64(8), s64(27));
    assert_eq!(u.user_id, "alice");
    assert_eq!(u.y1, s64(8));
    assert_eq!(u.y2, s64(27));
}

#[test]
fn test_create_and_get_user() {
    let mut db = InMemoryDB::new();
    assert!(db.get_user("alice").is_none());
    assert!(!db.contains_user("alice"));

    db.create_user("alice".to_string(), s64(8), s64(27));
    let u = db.get_user("alice").unwrap();
    assert_eq!(u.y1, s64(8));
    assert_eq!(u.y2, s64(27));
    assert!(db.contains_user("alice"));
    assert!(db.get_user("bob").is_none());
}

#[test]
fn test_challenge_lifecycle() {
    let mut db = InMemoryDB::new();
    let ch = AuthChallenge::new("alice".to_string(), s64(16), s64(81), s64(2));
    assert_eq!(ch.auth_id.len(), 36);
    assert!(ch.s.is_none());
    assert!(ch.session_id.is_none());
    let auth_id = ch.auth_id.clone();

    assert!(db.get_challenge(&auth_id).is_none());
    db.create_challenge(ch);
    {
        let got = db.get_challenge(&auth_id).unwrap();
        assert_eq!(got.user_id, "alice");
        assert_eq!(got.r1, s64(16));
        assert_eq!(got.r2, s64(81));
        assert_eq!(got.c, s64(2));
        assert!(got.session_id.is_none());
    }

    let sid = db.finalize_challenge(&auth_id, s64(5002)).unwrap();
    assert_eq!(sid.len(), 36);
    let got = db.get_challenge(&auth_id).unwrap();
    assert_eq!(got.s, Some(s64(5002)));
    assert_eq!(got.session_id.as_deref(), Some(sid.as_str()));

    assert!(db.finalize_challenge("missing", s64(1)).is_none());
}

#[test]
fn test_finalize_challenge_on_record() {
    let mut ch = AuthChallenge::new("alice".to_string(), s64(16), s64(81), s64(2));
    ch.finalize_challenge(s64(5002));
    assert_eq!(ch.s, Some(s64(5002)));
    assert_eq!(ch.session_id.as_ref().map(|s| s.len()), Some(36));
}

#[test]
fn test_distinct_challenges_have_distinct_ids() {
    let a = AuthChallenge::new("alice".to_string(), s64(16), s64(81), s64(2));
    let b = AuthChallenge::new("alice".to_string(), s64(16), s64(81), s64(2));
    assert_ne!(a.auth_id, b.auth_id);
}

#[test]
fn test_auth_session_new() {
    let s = AuthSession::new("alice".to_string(), s64(8), s64(27));
    assert_eq!(s.user, "alice");
    assert_eq!(s.y1, s64(8));
    assert_eq!(s.y2, s64(27));
    assert!(s.r1.is_none());
    assert!(s.r2.is_none());
    assert!(s.c.is_none());
    assert!(s.s.is_none());
    assert!(s.session_id.is_none());
}

#[test]
fn test_auth_session_db() {
    let mut db = AuthSessionDb::new();
    assert!(!db.contains("alice"));
    db.insert(
        "alice".to_string(),
        AuthSession::new("alice".to_string(), s64(8), s64(27)),
    );
    assert!(db.contains("alice"));
    assert!(!db.contains("bob"));
    // Inserting under a present key replaces the entry, as in a map.
    db.insert(
        "alice".to_string(),
        AuthSession::new("alice".to_string(), s64(9), s64(28)),
    );
    assert!(db.contains("alice"));
}
