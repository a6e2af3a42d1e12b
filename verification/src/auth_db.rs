//! An alternative session-centered store: one record per authentication
//! session, keyed by user name, filled in as the protocol advances.

use vstd::prelude::*;
use crate::scalar::Scalar;

verus! {

/// One authentication session: the registered pair `(y1, y2)` and the
/// protocol fields, each unset until its round has happened.
#[derive(Debug)]
pub struct AuthSession {
    pub user: String,
    pub y1: Scalar,
    pub y2: Scalar,
    pub r1: Option<Scalar>,
    pub r2: Option<Scalar>,
    pub c: Option<Scalar>,
    pub s: Option<Scalar>,
    pub session_id: Option<String>,
}

impl AuthSession {
    /// A fresh session right after registration: only the public pair is
    /// known.
    pub fn new(user: String, y1: Scalar, y2: Scalar) -> (r: Self)
        ensures
            r.user == user,
            r.y1 == y1,
            r.y2 == y2,
            r.r1 is None,
            r.r2 is None,
            r.c is None,
            r.s is None,
            r.session_id is None,
    {
        AuthSession {
            user,
            y1,
            y2,
            r1: None,
            r2: None,
            c: None,
            s: None,
            session_id: None,
        }
    }
}

/// Whether some entry holds this key.
pub open spec fn sessions_contain(entries: Seq<(String, AuthSession)>, key: Seq<char>) -> bool {
    exists|i: int| 0 <= i < entries.len() && entries[i].0@ == key
}

/// The index of the entry with this key.
pub open spec fn session_index(entries: Seq<(String, AuthSession)>, key: Seq<char>) -> int {
    choose|i: int| 0 <= i < entries.len() && entries[i].0@ == key
}

/// The keys are unique.
pub open spec fn sessions_wf(entries: Seq<(String, AuthSession)>) -> bool {
    forall|i: int, j: int| 0 <= i < j < entries.len() ==> entries[i].0@ != entries[j].0@
}

/// Sessions keyed by user name; an insert under a present key replaces the
/// entry, as in a map.
#[derive(Debug)]
pub struct AuthSessionDb {
    db: Vec<(String, AuthSession)>,
}

impl View for AuthSessionDb {
    type V = Seq<(String, AuthSession)>;

    closed spec fn view(&self) -> Seq<(String, AuthSession)> {
        self.db@
    }
}

impl AuthSessionDb {
    /// An empty catalog.
    pub fn new() -> (r: Self)
        ensures
            r@ =~= Seq::<(String, AuthSession)>::empty(),
            sessions_wf(r@),
    {
        AuthSessionDb { db: Vec::new() }
    }

    /// Whether a session is stored under this key.
    pub fn contains(&self, s: &str) -> (r: bool)
        requires
            sessions_wf(self@),
        ensures
            r == sessions_contain(self@, s@),
    {
        let key: String = s.to_owned();
        let n = self.db.len();
        let mut i: usize = 0;
        while i < n
            invariant
                n == self@.len(),
                i <= n,
                key@ == s@,
                forall|j: int| 0 <= j < i ==> self@[j].0@ != s@,
            decreases n - i,
        {
            if self.db[i].0 == key {
                return true;
            }
            i = i + 1;
        }
        false
    }

    /// Store a session under a key: replace the entry when the key is
    /// present, append otherwise.
    pub fn insert(&mut self, s: String, a: AuthSession)
        requires
            sessions_wf(old(self)@),
        ensures
            sessions_wf(final(self)@),
            sessions_contain(old(self)@, s@) ==> final(self)@ =~= old(self)@.update(
                session_index(old(self)@, s@),
                (s, a),
            ),
            !sessions_contain(old(self)@, s@) ==> final(self)@ =~= old(self)@.push((s, a)),
    {
        let n = self.db.len();
        let mut i: usize = 0;
        while i < n
            invariant
                sessions_wf(self@),
                self@ == old(self)@,
                n == self@.len(),
                i <= n,
                forall|j: int| 0 <= j < i ==> self@[j].0@ != s@,
            decreases n - i,
        {
            if self.db[i].0 == s {
                proof {
                    lemma_session_lookup(self@, s@, i as int);
                }
                self.db[i] = (s, a);
                proof {
                    assert forall|x: int, y: int|
                        0 <= x < y < self@.len() implies self@[x].0@ != self@[y].0@ by {
                        assert(old(self)@[x].0@ != old(self)@[y].0@);
                        if x != i && y != i {
                            assert(self@[x] == old(self)@[x]);
                            assert(self@[y] == old(self)@[y]);
                        }
                    }
                }
                return ;
            }
            i = i + 1;
        }
        let ghost key = s@;
        self.db.push((s, a));
        proof {
            assert forall|x: int, y: int|
                0 <= x < y < self@.len() implies self@[x].0@ != self@[y].0@ by {
                if y == self@.len() - 1 {
                    assert(self@[x] == old(self)@[x]);
                    assert(self@[y].0@ == key);
                } else {
                    assert(self@[x] == old(self)@[x]);
                    assert(self@[y] == old(self)@[y]);
                    assert(old(self)@[x].0@ != old(self)@[y].0@);
                }
            }
        }
    }
}

/// With unique keys, a match at index `i` is the looked-up entry.
proof fn lemma_session_lookup(entries: Seq<(String, AuthSession)>, key: Seq<char>, i: int)
    requires
        sessions_wf(entries),
        0 <= i < entries.len(),
        entries[i].0@ == key,
    ensures
        sessions_contain(entries, key),
        session_index(entries, key) == i,
{
    assert(sessions_contain(entries, key));
    let j = session_index(entries, key);
    if i != j {
        if i < j {
            assert(entries[i].0@ != entries[j].0@);
        } else {
            assert(entries[j].0@ != entries[i].0@);
        }
    }
}

} // verus!
