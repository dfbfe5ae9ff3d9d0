//! Sessions and caller resolution.
//!
//! A session binds a random token to a user; a user may hold many. Tokens
//! key the table: saving an existing token re-binds it. Removal is scoped
//! to the calling token's owner, so no caller can remove another user's
//! session, whatever token they name.

use vstd::prelude::*;
use crate::store::{find_user_row, user_idx, Store};
use crate::types::{LogicError, User, UserSession, UserSessions};
use crate::util::{str_eq, string_from_chars};

verus! {

/// One session row: the owning user and the token.
pub struct SessionRow {
    pub user_id: u32,
    pub token: String,
}

/// The session store, kept separate from the main store so credentials and
/// sessions can have their own durability policy.
pub struct SessionStore {
    pub rows: Vec<SessionRow>,
}

/// The position of the row holding this token.
pub open spec fn session_idx(s: Seq<SessionRow>, token: Seq<char>) -> Option<int>
    decreases s.len(),
{
    if s.len() == 0 {
        None
    } else if s[0].token@ == token {
        Some(0)
    } else {
        match session_idx(s.drop_first(), token) {
            Some(i) => Some(i + 1),
            None => None,
        }
    }
}

/// The user a token resolves to, if any.
pub open spec fn session_user(s: Seq<SessionRow>, token: Seq<char>) -> Option<u32> {
    match session_idx(s, token) {
        Some(i) => Some(s[i].user_id),
        None => None,
    }
}

pub proof fn lemma_session_idx(s: Seq<SessionRow>, token: Seq<char>)
    ensures
        match session_idx(s, token) {
            Some(i) => 0 <= i < s.len() && s[i].token@ == token && forall|k: int|
                0 <= k < i ==> (#[trigger] s[k]).token@ != token,
            None => forall|k: int| 0 <= k < s.len() ==> (#[trigger] s[k]).token@ != token,
        },
    decreases s.len(),
{
    if s.len() > 0 && s[0].token@ != token {
        let d = s.drop_first();
        lemma_session_idx(d, token);
        assert(forall|k: int| 0 <= k < d.len() ==> d[k] == #[trigger] s[k + 1]);
        match session_idx(d, token) {
            Some(i) => {
                assert(d[i] == s[i + 1]);
                assert forall|k: int| 0 <= k < i + 1 implies (#[trigger] s[k]).token@ != token by {
                    if k > 0 {
                        assert(d[k - 1].token@ != token);
                    }
                }
            },
            None => {
                assert forall|k: int| 0 <= k < s.len() implies (#[trigger] s[k]).token@
                    != token by {
                    if k > 0 {
                        assert(d[k - 1].token@ != token);
                    }
                }
            },
        }
    }
}

pub(crate) fn find_session(v: &Vec<SessionRow>, token: &str) -> (r: Option<usize>)
    ensures
        match r {
            Some(i) => i < v@.len() && session_idx(v@, token@) == Some(i as int),
            None => session_idx(v@, token@) is None,
        },
{
    let mut i: usize = 0;
    while i < v.len()
        invariant
            i <= v@.len(),
            forall|k: int| 0 <= k < i ==> (#[trigger] v@[k]).token@ != token@,
        decreases v@.len() - i,
    {
        if str_eq(v[i].token.as_str(), token) {
            proof {
                lemma_session_idx(v@, token@);
            }
            return Some(i);
        }
        i = i + 1;
    }
    proof {
        lemma_session_idx(v@, token@);
    }
    None
}

impl SessionStore {
    /// Tokens are unique: the table is keyed by them.
    pub open spec fn wf(self) -> bool {
        forall|i: int, j: int|
            #![trigger self.rows@[i], self.rows@[j]]
            0 <= i < j < self.rows@.len() ==> self.rows@[i].token@ != self.rows@[j].token@
    }

    /// An empty session store.
    pub fn new() -> (s: SessionStore)
        ensures
            s.wf(),
            s.rows@.len() == 0,
    {
        SessionStore { rows: Vec::new() }
    }
}

/// Saves a session: an unknown token is added for the user, a known one is
/// re-bound to them.
pub fn save_user_session(sess: &mut SessionStore, user: &User, session: &str)
    requires
        old(sess).wf(),
    ensures
        final(sess).wf(),
        match session_idx(old(sess).rows@, session@) {
            Some(i) => final(sess).rows@ == old(sess).rows@.update(
                i,
                SessionRow { user_id: user.id, ..old(sess).rows@[i] },
            ),
            None => {
                &&& final(sess).rows@.len() == old(sess).rows@.len() + 1
                &&& final(sess).rows@.drop_last() == old(sess).rows@
                &&& final(sess).rows@.last().user_id == user.id
                &&& final(sess).rows@.last().token@ == session@
            },
        },
{
    match find_session(&sess.rows, session) {
        Some(i) => {
            sess.rows[i].user_id = user.id;
            proof {
                assert(forall|k: int|
                    0 <= k < sess.rows@.len() ==> (#[trigger] sess.rows@[k]).token@ == old(
                        sess,
                    ).rows@[k].token@);
            }
        },
        None => {
            proof {
                lemma_session_idx(sess.rows@, session@);
            }
            let mut token = String::new();
            token.append(session);
            sess.rows.push(SessionRow { user_id: user.id, token });
            proof {
                assert(sess.rows@.drop_last() =~= old(sess).rows@);
                assert(forall|k: int|
                    0 <= k < old(sess).rows@.len() ==> old(sess).rows@[k]
                        == #[trigger] sess.rows@[k]);
            }
        },
    }
}

/// Resolves a session token to its user: the session table names the owner
/// id, the user table supplies the row. `None` when either lookup misses.
pub fn query_user_by_session(store: &Store, sess: &SessionStore, session: &str) -> (r: Option<
    User,
>)
    ensures
        match session_user(sess.rows@, session@) {
            Some(uid) => match user_idx(store.users@, uid) {
                Some(u) => r matches Some(x) && x.id == uid && x.name@ == store.users@[u].name@,
                None => r is None,
            },
            None => r is None,
        },
{
    match find_session(&sess.rows, session) {
        Some(i) => {
            let uid = sess.rows[i].user_id;
            match find_user_row(&store.users, uid) {
                Some(u) => Some(User { id: uid, name: store.users[u].name.clone() }),
                None => None,
            }
        },
        None => None,
    }
}

/// The tokens belonging to `uid`, in table order.
pub open spec fn sessions_of(s: Seq<SessionRow>, uid: u32) -> Seq<Seq<char>>
    decreases s.len(),
{
    if s.len() == 0 {
        Seq::empty()
    } else {
        let rest = sessions_of(s.drop_last(), uid);
        if s.last().user_id == uid {
            rest.push(s.last().token@)
        } else {
            rest
        }
    }
}

/// The token projections of a session listing.
pub open spec fn session_views(v: Seq<UserSession>) -> Seq<Seq<char>> {
    v.map_values(|x: UserSession| x.session@)
}

/// Every session belonging to the same user as `session`; empty when the
/// token itself resolves to no user.
pub fn query_sessions(sess: &SessionStore, session: &str) -> (r: UserSessions)
    ensures
        match session_user(sess.rows@, session@) {
            Some(uid) => session_views(r.sessions@) == sessions_of(sess.rows@, uid),
            None => r.sessions@.len() == 0,
        },
{
    let uid = match find_session(&sess.rows, session) {
        Some(i) => sess.rows[i].user_id,
        None => {
            return UserSessions { sessions: Vec::new() };
        },
    };
    let mut out: Vec<UserSession> = Vec::new();
    let mut i: usize = 0;
    proof {
        assert(sess.rows@.take(0) =~= Seq::<SessionRow>::empty());
        assert(session_views(out@) =~= Seq::<Seq<char>>::empty());
    }
    while i < sess.rows.len()
        invariant
            i <= sess.rows@.len(),
            session_views(out@) == sessions_of(sess.rows@.take(i as int), uid),
        decreases sess.rows@.len() - i,
    {
        proof {
            assert(sess.rows@.take(i + 1).drop_last() =~= sess.rows@.take(i as int));
            assert(sess.rows@.take(i + 1).last() == sess.rows@[i as int]);
        }
        let ghost pre = session_views(out@);
        if sess.rows[i].user_id == uid {
            out.push(UserSession { session: sess.rows[i].token.clone() });
            proof {
                assert(session_views(out@) =~= pre.push(out@.last().session@));
            }
        }
        i = i + 1;
    }
    proof {
        assert(sess.rows@.take(sess.rows@.len() as int) =~= sess.rows@);
    }
    UserSessions { sessions: out }
}

/// Removes one session, but only within the calling token's own user: the
/// row named by `session_to_remove` is deleted exactly when it exists and
/// belongs to the same user as `current_session`. Returns the remaining
/// sessions of that user.
pub fn remove_session(sess: &mut SessionStore, current_session: &str, session_to_remove: &str) -> (r:
    UserSessions)
    requires
        old(sess).wf(),
    ensures
        final(sess).wf(),
        match session_user(old(sess).rows@, current_session@) {
            Some(uid) => {
                &&& match session_idx(old(sess).rows@, session_to_remove@) {
                    Some(j) => {
                        if old(sess).rows@[j].user_id == uid {
                            final(sess).rows@ == old(sess).rows@.remove(j)
                        } else {
                            final(sess).rows@ == old(sess).rows@
                        }
                    },
                    None => final(sess).rows@ == old(sess).rows@,
                }
            },
            None => final(sess).rows@ == old(sess).rows@,
        },
        match session_user(final(sess).rows@, current_session@) {
            Some(uid2) => session_views(r.sessions@) == sessions_of(final(sess).rows@, uid2),
            None => r.sessions@.len() == 0,
        },
{
    let uid = match find_session(&sess.rows, current_session) {
        Some(i) => Some(sess.rows[i].user_id),
        None => None,
    };
    match uid {
        Some(uid) => {
            match find_session(&sess.rows, session_to_remove) {
                Some(j) => {
                    if sess.rows[j].user_id == uid {
                        sess.rows.remove(j);
                        proof {
                            let ors = old(sess).rows@;
                            let nrs = sess.rows@;
                            assert forall|a: int, b: int|
                                #![trigger nrs[a], nrs[b]]
                                0 <= a < b < nrs.len() implies nrs[a].token@ != nrs[b].token@ by {
                                let a0 = if a < j { a } else { a + 1 };
                                let b0 = if b < j { b } else { b + 1 };
                                assert(nrs[a] == ors[a0] && nrs[b] == ors[b0]);
                            }
                        }
                    }
                },
                None => {},
            }
        },
        None => {},
    }
    query_sessions(sess, current_session)
}

/// The rows that do not belong to `uid`, in table order.
pub open spec fn sessions_without(s: Seq<SessionRow>, uid: u32) -> Seq<SessionRow>
    decreases s.len(),
{
    if s.len() == 0 {
        Seq::empty()
    } else {
        let rest = sessions_without(s.drop_last(), uid);
        if s.last().user_id != uid {
            rest.push(s.last())
        } else {
            rest
        }
    }
}

proof fn lemma_sessions_without_sub(s: Seq<SessionRow>, uid: u32)
    ensures
        forall|k: int|
            0 <= k < sessions_without(s, uid).len() ==> exists|j: int|
                0 <= j < s.len() && #[trigger] sessions_without(s, uid)[k] == s[j],
    decreases s.len(),
{
    if s.len() > 0 {
        let pre = s.drop_last();
        lemma_sessions_without_sub(pre, uid);
        let rest = sessions_without(pre, uid);
        let cur = sessions_without(s, uid);
        assert(forall|j: int| 0 <= j < pre.len() ==> pre[j] == #[trigger] s[j]);
        assert forall|k: int| 0 <= k < cur.len() implies exists|j: int|
            0 <= j < s.len() && #[trigger] cur[k] == s[j] by {
            if k < rest.len() {
                assert(cur[k] == rest[k]);
                let j = choose|j: int| 0 <= j < pre.len() && rest[k] == #[trigger] pre[j];
                assert(cur[k] == s[j]);
            } else {
                assert(cur[k] == s[s.len() - 1]);
            }
        }
    }
}

/// Removes every session of the user that `current_session` belongs to; a
/// token resolving to no user removes nothing.
pub fn remove_all_sessions(sess: &mut SessionStore, current_session: &str)
    requires
        old(sess).wf(),
    ensures
        final(sess).wf(),
        match session_user(old(sess).rows@, current_session@) {
            Some(uid) => final(sess).rows@ == sessions_without(old(sess).rows@, uid),
            None => final(sess).rows@ == old(sess).rows@,
        },
{
    let uid = match find_session(&sess.rows, current_session) {
        Some(i) => sess.rows[i].user_id,
        None => {
            return ;
        },
    };
    let mut keeprows: Vec<SessionRow> = Vec::new();
    let n = sess.rows.len();
    let mut i: usize = 0;
    proof {
        assert(sess.rows@.take(0) =~= Seq::<SessionRow>::empty());
    }
    while i < n
        invariant
            i <= n,
            n == sess.rows@.len(),
            sess.rows@ == old(sess).rows@,
            keeprows@ == sessions_without(sess.rows@.take(i as int), uid),
        decreases n - i,
    {
        proof {
            assert(sess.rows@.take(i + 1).drop_last() =~= sess.rows@.take(i as int));
            assert(sess.rows@.take(i + 1).last() == sess.rows@[i as int]);
        }
        if sess.rows[i].user_id != uid {
            let row = SessionRow {
                user_id: sess.rows[i].user_id,
                token: sess.rows[i].token.clone(),
            };
            proof {
                assert(row == sess.rows@[i as int]);
            }
            keeprows.push(row);
        }
        i = i + 1;
    }
    proof {
        assert(sess.rows@.take(n as int) =~= sess.rows@);
    }
    sess.rows = keeprows;
    proof {
        lemma_sessions_without_wf(old(sess).rows@, uid);
    }
}

/// Filtering a table with unique tokens keeps the tokens unique.
proof fn lemma_sessions_without_wf(s: Seq<SessionRow>, uid: u32)
    requires
        forall|i: int, j: int|
            #![trigger s[i], s[j]]
            0 <= i < j < s.len() ==> s[i].token@ != s[j].token@,
    ensures
        ({
            let w = sessions_without(s, uid);
            forall|i: int, j: int|
                #![trigger w[i], w[j]]
                0 <= i < j < w.len() ==> w[i].token@ != w[j].token@
        }),
    decreases s.len(),
{
    if s.len() > 0 {
        let pre = s.drop_last();
        assert(forall|i: int| 0 <= i < pre.len() ==> pre[i] == #[trigger] s[i]);
        lemma_sessions_without_wf(pre, uid);
        lemma_sessions_without_sub(pre, uid);
        let rest = sessions_without(pre, uid);
        let cur = sessions_without(s, uid);
        if s.last().user_id != uid {
            assert forall|i: int, j: int|
                #![trigger cur[i], cur[j]]
                0 <= i < j < cur.len() implies cur[i].token@ != cur[j].token@ by {
                if j < rest.len() {
                    assert(cur[i] == rest[i] && cur[j] == rest[j]);
                } else {
                    assert(cur[i] == rest[i] && cur[j] == s.last());
                    let p = choose|p: int| 0 <= p < pre.len() && rest[i] == #[trigger] pre[p];
                    assert(s[p].token@ != s[s.len() - 1].token@);
                }
            }
        }
    }
}

/// Removing sessions never touches another user's rows: every session of a
/// different user survives `remove_session`, whatever token the caller
/// names.
pub proof fn lemma_remove_session_other_users(
    before: Seq<SessionRow>,
    after: Seq<SessionRow>,
    current: Seq<char>,
    to_remove: Seq<char>,
)
    requires
        match session_user(before, current) {
            Some(uid) => match session_idx(before, to_remove) {
                Some(j) => if before[j].user_id == uid {
                    after == before.remove(j)
                } else {
                    after == before
                },
                None => after == before,
            },
            None => after == before,
        },
    ensures
        forall|k: int|
            0 <= k < before.len() && Some((#[trigger] before[k]).user_id) != session_user(
                before,
                current,
            ) ==> exists|k2: int| 0 <= k2 < after.len() && after[k2] == before[k],
{
    match session_user(before, current) {
        Some(uid) => {
            lemma_session_idx(before, to_remove);
            match session_idx(before, to_remove) {
                Some(j) => {
                    if before[j].user_id == uid {
                        assert forall|k: int|
                            0 <= k < before.len() && Some((#[trigger] before[k]).user_id)
                                != session_user(before, current) implies exists|k2: int|
                            0 <= k2 < after.len() && after[k2] == before[k] by {
                            let k2 = if k < j {
                                k
                            } else {
                                k - 1
                            };
                            assert(k != j);
                            assert(after[k2] == before[k]);
                        }
                    } else {
                        assert forall|k: int|
                            0 <= k < before.len() && Some((#[trigger] before[k]).user_id)
                                != session_user(before, current) implies exists|k2: int|
                            0 <= k2 < after.len() && after[k2] == before[k] by {
                            assert(after[k] == before[k]);
                        }
                    }
                },
                None => {
                    assert forall|k: int|
                        0 <= k < before.len() && Some((#[trigger] before[k]).user_id)
                            != session_user(before, current) implies exists|k2: int|
                        0 <= k2 < after.len() && after[k2] == before[k] by {
                        assert(after[k] == before[k]);
                    }
                },
            }
        },
        None => {
            assert forall|k: int|
                0 <= k < before.len() && Some((#[trigger] before[k]).user_id) != session_user(
                    before,
                    current,
                ) implies exists|k2: int| 0 <= k2 < after.len() && after[k2] == before[k] by {
                assert(after[k] == before[k]);
            }
        },
    }
}

// ---------------------------------------------------------------------------
// Token generation and caller resolution.
// ---------------------------------------------------------------------------

#[verifier::external_type_specification]
#[verifier::external_body]
pub struct ExChaCha20Rng(rand_chacha::ChaCha20Rng);

/// True of the characters a session token is made of.
pub open spec fn is_token_char(c: char) -> bool {
    ('a' <= c && c <= 'z') || ('A' <= c && c <= 'Z') || ('0' <= c && c <= '9')
}

/// Relies on `Rng::sample` with the `Alphanumeric` distribution: every
/// sample is an ASCII letter or digit. Which one is drawn depends on the
/// generator's state, so nothing more is promised.
#[verifier::external_body]
fn sample_alphanumeric(rng: &mut rand_chacha::ChaCha20Rng) -> (c: char)
    ensures
        is_token_char(c),
{
    let b: u8 = rand::Rng::sample(rng, rand::distributions::Alphanumeric);
    char::from(b)
}

/// Draws a fresh 20-character alphanumeric session token from the given
/// cryptographically seeded generator.
pub fn generate_session_token(rng: &mut rand_chacha::ChaCha20Rng) -> (r: String)
    ensures
        r@.len() == 20,
        forall|i: int| 0 <= i < r@.len() ==> is_token_char(#[trigger] r@[i]),
{
    let mut chars: Vec<char> = Vec::new();
    let mut i: usize = 0;
    while i < 20
        invariant
            i <= 20,
            chars@.len() == i,
            forall|k: int| 0 <= k < chars@.len() ==> is_token_char(#[trigger] chars@[k]),
        decreases 20 - i,
    {
        chars.push(sample_alphanumeric(rng));
        i = i + 1;
    }
    string_from_chars(&chars)
}

/// Resolves the request credential to a caller: `NoSession` when none was
/// presented, `UserNotLoggedIn` when the token resolves to no user — two
/// distinguishable failures — and the user otherwise.
pub fn resolve_caller(store: &Store, sess: &SessionStore, credential: Option<&str>) -> (r: Result<
    User,
    LogicError,
>)
    ensures
        match credential {
            None => r matches Err(e) && e is NoSession,
            Some(tok) => match session_user(sess.rows@, tok@) {
                Some(uid) => match user_idx(store.users@, uid) {
                    Some(u) => r matches Ok(x) && x.id == uid && x.name@
                        == store.users@[u].name@,
                    None => r matches Err(e) && e is UserNotLoggedIn,
                },
                None => r matches Err(e) && e is UserNotLoggedIn,
            },
        },
{
    match credential {
        None => Err(LogicError::NoSession),
        Some(tok) => {
            match query_user_by_session(store, sess, tok) {
                Some(u) => Ok(u),
                None => Err(LogicError::UserNotLoggedIn),
            }
        },
    }
}

} // verus!
