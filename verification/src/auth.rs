//! Credential storage and checking, and the sign-on / sign-up flows.
//!
//! Passwords arrive hex-encoded; the stored credential is an opaque salted
//! hash in PHC string format, kept in its own store. Verification and
//! hashing are the hash primitive's work and are taken on trust; everything
//! around them — decoding, lookup, the decision flow — is verified.

use vstd::prelude::*;
use crate::session::{save_user_session, session_idx, SessionRow, SessionStore};
use crate::store::{find_user_by_name, save_user, user_name_idx, Store};
use crate::types::{LogicError, User};

verus! {

/// True of the characters hex decoding accepts.
pub open spec fn is_hex_digit(c: char) -> bool {
    ('0' <= c && c <= '9') || ('a' <= c && c <= 'f') || ('A' <= c && c <= 'F')
}

/// The value of one hex digit.
pub open spec fn hex_val(c: char) -> int {
    if '0' <= c && c <= '9' {
        c as int - '0' as int
    } else if 'a' <= c && c <= 'f' {
        c as int - 'a' as int + 10
    } else {
        c as int - 'A' as int + 10
    }
}

/// True when a string is a well-formed hex encoding: even length, hex
/// digits only.
pub open spec fn valid_hex(s: Seq<char>) -> bool {
    s.len() % 2 == 0 && forall|i: int| 0 <= i < s.len() ==> is_hex_digit(#[trigger] s[i])
}

/// The bytes a hex string encodes, one per digit pair.
pub open spec fn spec_hex_decode(s: Seq<char>) -> Seq<u8> {
    Seq::new((s.len() / 2) as nat, |i: int| (hex_val(s[2 * i]) * 16 + hex_val(s[2 * i + 1])) as u8)
}

#[verifier::external_type_specification]
#[verifier::external_body]
pub struct ExFromHexError(hex::FromHexError);

/// Relies on `hex::decode`: it succeeds exactly on even-length strings of
/// hex digits (either case), yielding one byte per digit pair.
#[verifier::external_body]
fn hex_decode(s: &str) -> (r: Result<Vec<u8>, hex::FromHexError>)
    ensures
        r is Ok <==> valid_hex(s@),
        r matches Ok(v) ==> v@ == spec_hex_decode(s@),
{
    hex::decode(s)
}

/// Whether this PHC hash string parses and matches this password: a fixed
/// function of the two arguments, named rather than spelled out.
pub uninterp spec fn pbkdf2_verified(pass: Seq<u8>, hash: Seq<char>) -> bool;

/// Relies on `password_hash::PasswordHash::new` and `Pbkdf2` as a
/// `PasswordVerifier`: parsing and verification read only the two
/// arguments (the salt and parameters come from the hash string), so the
/// outcome is a function of them alone. False when the stored string does
/// not parse or the password does not match.
#[verifier::external_body]
fn verify_password_hash(pass: &[u8], hash: &str) -> (r: bool)
    ensures
        r == pbkdf2_verified(pass@, hash@),
{
    match pbkdf2::password_hash::PasswordHash::new(hash) {
        Ok(parsed) => pbkdf2::password_hash::PasswordVerifier::verify_password(
            &pbkdf2::Pbkdf2,
            pass,
            &parsed,
        ).is_ok(),
        Err(_) => false,
    }
}

/// Relies on `SaltString::generate` over the operating system's randomness
/// and `Pbkdf2` as a `PasswordHasher`. The salt is random, so of the
/// produced PHC string only this much holds of every outcome: it verifies
/// against the password it was made from.
#[verifier::external_body]
fn hash_password(pass: &[u8]) -> (r: Option<String>)
    ensures
        r matches Some(h) ==> pbkdf2_verified(pass@, h@),
{
    let salt = pbkdf2::password_hash::SaltString::generate(
        &mut pbkdf2::password_hash::rand_core::OsRng,
    );
    match pbkdf2::password_hash::PasswordHasher::hash_password(&pbkdf2::Pbkdf2, pass, &salt) {
        Ok(h) => Some(h.to_string()),
        Err(_) => None,
    }
}

/// One credential row: the user and their current hash.
pub struct PassRow {
    pub user_id: u32,
    pub hash: String,
}

/// The credential store, kept apart from the main store.
pub struct PasswordStore {
    pub rows: Vec<PassRow>,
}

/// The position of the credential row of `uid`.
pub open spec fn pass_idx(s: Seq<PassRow>, uid: u32) -> Option<int>
    decreases s.len(),
{
    if s.len() == 0 {
        None
    } else if s[0].user_id == uid {
        Some(0)
    } else {
        match pass_idx(s.drop_first(), uid) {
            Some(i) => Some(i + 1),
            None => None,
        }
    }
}

/// The hash stored for `uid`, if any.
pub open spec fn stored_hash(s: Seq<PassRow>, uid: u32) -> Option<Seq<char>> {
    match pass_idx(s, uid) {
        Some(i) => Some(s[i].hash@),
        None => None,
    }
}

pub proof fn lemma_pass_idx(s: Seq<PassRow>, uid: u32)
    ensures
        match pass_idx(s, uid) {
            Some(i) => 0 <= i < s.len() && s[i].user_id == uid && forall|k: int|
                0 <= k < i ==> (#[trigger] s[k]).user_id != uid,
            None => forall|k: int| 0 <= k < s.len() ==> (#[trigger] s[k]).user_id != uid,
        },
    decreases s.len(),
{
    if s.len() > 0 && s[0].user_id != uid {
        let d = s.drop_first();
        lemma_pass_idx(d, uid);
        assert(forall|k: int| 0 <= k < d.len() ==> d[k] == #[trigger] s[k + 1]);
        match pass_idx(d, uid) {
            Some(i) => {
                assert(d[i] == s[i + 1]);
                assert forall|k: int| 0 <= k < i + 1 implies (#[trigger] s[k]).user_id != uid by {
                    if k > 0 {
                        assert(d[k - 1].user_id != uid);
                    }
                }
            },
            None => {
                assert forall|k: int| 0 <= k < s.len() implies (#[trigger] s[k]).user_id
                    != uid by {
                    if k > 0 {
                        assert(d[k - 1].user_id != uid);
                    }
                }
            },
        }
    }
}

pub(crate) fn find_pass(v: &Vec<PassRow>, uid: u32) -> (r: Option<usize>)
    ensures
        match r {
            Some(i) => i < v@.len() && pass_idx(v@, uid) == Some(i as int),
            None => pass_idx(v@, uid) is None,
        },
{
    let mut i: usize = 0;
    while i < v.len()
        invariant
            i <= v@.len(),
            forall|k: int| 0 <= k < i ==> (#[trigger] v@[k]).user_id != uid,
        decreases v@.len() - i,
    {
        if v[i].user_id == uid {
            proof {
                lemma_pass_idx(v@, uid);
            }
            return Some(i);
        }
        i = i + 1;
    }
    proof {
        lemma_pass_idx(v@, uid);
    }
    None
}

impl PasswordStore {
    /// One credential row per user.
    pub open spec fn wf(self) -> bool {
        forall|i: int, j: int|
            #![trigger self.rows@[i], self.rows@[j]]
            0 <= i < j < self.rows@.len() ==> self.rows@[i].user_id != self.rows@[j].user_id
    }

    /// An empty credential store.
    pub fn new() -> (s: PasswordStore)
        ensures
            s.wf(),
            s.rows@.len() == 0,
    {
        PasswordStore { rows: Vec::new() }
    }
}

/// Checks a hex-encoded password against the stored credential: true
/// exactly when the encoding is well-formed, the user has a credential,
/// and the hash matches the decoded password.
pub fn verify_user_password(pass_store: &PasswordStore, user: &User, pass_hex: &str) -> (r: bool)
    ensures
        r == (valid_hex(pass_hex@) && match stored_hash(pass_store.rows@, user.id) {
            Some(h) => pbkdf2_verified(spec_hex_decode(pass_hex@), h),
            None => false,
        }),
{
    let decoded = match hex_decode(pass_hex) {
        Ok(v) => v,
        Err(_) => {
            return false;
        },
    };
    match find_pass(&pass_store.rows, user.id) {
        Some(i) => verify_password_hash(decoded.as_slice(), pass_store.rows[i].hash.as_str()),
        None => false,
    }
}

/// Stores a credential for a user, replacing any earlier one: the verified
/// half of password saving, taking the hash the primitive produced.
pub fn store_user_password(pass_store: &mut PasswordStore, user_id: u32, hash: String)
    requires
        old(pass_store).wf(),
    ensures
        final(pass_store).wf(),
        stored_hash(final(pass_store).rows@, user_id) == Some(hash@),
        match pass_idx(old(pass_store).rows@, user_id) {
            Some(i) => final(pass_store).rows@ == old(pass_store).rows@.update(
                i,
                PassRow { user_id, hash: final(pass_store).rows@[i].hash },
            ),
            None => {
                &&& final(pass_store).rows@.len() == old(pass_store).rows@.len() + 1
                &&& final(pass_store).rows@.drop_last() == old(pass_store).rows@
                &&& final(pass_store).rows@.last().user_id == user_id
            },
        },
{
    match find_pass(&pass_store.rows, user_id) {
        Some(i) => {
            pass_store.rows[i].hash = hash;
            proof {
                assert(forall|k: int|
                    0 <= k < pass_store.rows@.len() ==> (#[trigger] pass_store.rows@[k]).user_id
                        == old(pass_store).rows@[k].user_id);
                lemma_pass_idx(pass_store.rows@, user_id);
                lemma_pass_idx(old(pass_store).rows@, user_id);
                assert(pass_store.rows@[i as int].user_id == user_id);
                match pass_idx(pass_store.rows@, user_id) {
                    Some(j) => {
                        assert(old(pass_store).rows@[j].user_id == user_id);
                        assert(j == i as int);
                    },
                    None => {
                        assert(false);
                    },
                }
            }
        },
        None => {
            proof {
                lemma_pass_idx(pass_store.rows@, user_id);
            }
            pass_store.rows.push(PassRow { user_id, hash });
            proof {
                assert(pass_store.rows@.drop_last() =~= old(pass_store).rows@);
                assert(forall|k: int|
                    0 <= k < old(pass_store).rows@.len() ==> old(pass_store).rows@[k]
                        == #[trigger] pass_store.rows@[k]);
                lemma_pass_idx(pass_store.rows@, user_id);
                let n = pass_store.rows@.len() as int;
                assert(pass_store.rows@[n - 1].user_id == user_id);
                match pass_idx(pass_store.rows@, user_id) {
                    Some(j) => {
                        if j < n - 1 {
                            assert(old(pass_store).rows@[j].user_id != user_id);
                            assert(false);
                        }
                    },
                    None => {
                        assert(false);
                    },
                }
            }
        },
    }
}

/// Hashes and stores a hex-encoded password. `InvalidPass` exactly when
/// the encoding is malformed; `CreateError` when the hash primitive
/// refused; on success the stored credential verifies against the given
/// password.
pub fn save_user_password(pass_store: &mut PasswordStore, user: &User, pass_hex: &str) -> (r:
    Result<(), LogicError>)
    requires
        old(pass_store).wf(),
    ensures
        final(pass_store).wf(),
        match r {
            Ok(()) => {
                &&& valid_hex(pass_hex@)
                &&& match stored_hash(final(pass_store).rows@, user.id) {
                    Some(h) => pbkdf2_verified(spec_hex_decode(pass_hex@), h),
                    None => false,
                }
            },
            Err(e) => {
                &&& *final(pass_store) == *old(pass_store)
                &&& if valid_hex(pass_hex@) {
                    e is CreateError
                } else {
                    e is InvalidPass
                }
            },
        },
{
    let decoded = match hex_decode(pass_hex) {
        Ok(v) => v,
        Err(_) => {
            return Err(LogicError::InvalidPass);
        },
    };
    let hash = match hash_password(decoded.as_slice()) {
        Some(h) => h,
        None => {
            return Err(LogicError::CreateError);
        },
    };
    store_user_password(pass_store, user.id, hash);
    Ok(())
}

/// Signs a user on: the name must resolve, the password must verify, and
/// the fresh token is then bound to the user. `None` — with no session
/// saved — exactly when the name is unknown or the password is wrong.
pub fn sign_on(
    store: &Store,
    pass_store: &PasswordStore,
    sess: &mut SessionStore,
    user_name: &str,
    password: &str,
    session: &str,
) -> (r: Option<User>)
    requires
        old(sess).wf(),
    ensures
        final(sess).wf(),
        ({
            let ok = match user_name_idx(store.users@, user_name@) {
                Some(ui) => valid_hex(password@) && match stored_hash(
                    pass_store.rows@,
                    store.users@[ui].id,
                ) {
                    Some(h) => pbkdf2_verified(spec_hex_decode(password@), h),
                    None => false,
                },
                None => false,
            };
            if ok {
                let u = store.users@[user_name_idx(store.users@, user_name@)->Some_0];
                &&& r matches Some(x) && x.id == u.id && x.name@ == u.name@
                &&& match session_idx(old(sess).rows@, session@) {
                    Some(i) => final(sess).rows@ == old(sess).rows@.update(
                        i,
                        SessionRow { user_id: u.id, ..old(sess).rows@[i] },
                    ),
                    None => {
                        &&& final(sess).rows@.len() == old(sess).rows@.len() + 1
                        &&& final(sess).rows@.drop_last() == old(sess).rows@
                        &&& final(sess).rows@.last().user_id == u.id
                        &&& final(sess).rows@.last().token@ == session@
                    },
                }
            } else {
                r is None && final(sess).rows@ == old(sess).rows@
            }
        }),
{
    let user = match crate::store::find_user(store, user_name) {
        Some(u) => u,
        None => {
            return None;
        },
    };
    if !verify_user_password(pass_store, &user, password) {
        return None;
    }
    save_user_session(sess, &user, session);
    Some(user)
}

/// Signs a user up: a taken name yields `Ok(false)` and changes nothing; a
/// free name creates the user and stores their credential. An error from
/// user creation or password saving is surfaced; the user row, once
/// inserted, stays (the two steps are separate, as in the underlying
/// statements).
pub fn sign_up(
    store: &mut Store,
    pass_store: &mut PasswordStore,
    user_name: &str,
    password: &str,
) -> (r: Result<bool, LogicError>)
    requires
        old(store).wf(),
        old(pass_store).wf(),
    ensures
        final(store).wf(),
        final(pass_store).wf(),
        crate::store::same_but_users(*old(store), *final(store)),
        match r {
            Ok(false) => {
                &&& user_name_idx(old(store).users@, user_name@) is Some
                &&& *final(store) == *old(store)
                &&& *final(pass_store) == *old(pass_store)
            },
            Ok(true) => {
                &&& user_name_idx(old(store).users@, user_name@) is None
                &&& final(store).users@.len() == old(store).users@.len() + 1
                &&& final(store).users@.drop_last() == old(store).users@
                &&& final(store).users@.last().name@ == user_name@
                &&& valid_hex(password@)
                &&& match stored_hash(
                    final(pass_store).rows@,
                    final(store).users@.last().id,
                ) {
                    Some(h) => pbkdf2_verified(spec_hex_decode(password@), h),
                    None => false,
                }
            },
            Err(e) => {
                &&& user_name_idx(old(store).users@, user_name@) is None
                &&& *final(pass_store) == *old(pass_store)
                &&& (e is CreateError || e is InvalidPass)
                &&& (final(store).users@ == old(store).users@ || (final(store).users@.len()
                    == old(store).users@.len() + 1 && final(store).users@.drop_last() == old(
                    store,
                ).users@ && final(store).users@.last().name@ == user_name@))
            },
        },
{
    match find_user_by_name(&store.users, user_name) {
        Some(_) => {
            return Ok(false);
        },
        None => {},
    }
    match save_user(store, user_name) {
        Ok(()) => {},
        Err(e) => {
            return Err(e);
        },
    }
    let new_user = match crate::store::find_user(store, user_name) {
        Some(u) => u,
        None => {
            proof {
                crate::store::lemma_user_name_idx(store.users@, user_name@);
                assert(store.users@.last().name@ == user_name@);
                assert(false);
            }
            vstd::pervasive::unreached()
        },
    };
    proof {
        crate::store::lemma_user_name_idx(store.users@, user_name@);
        crate::store::lemma_user_name_idx(old(store).users@, user_name@);
        let n = store.users@.len() as int;
        assert(forall|k: int| 0 <= k < n - 1 ==> old(store).users@[k] == #[trigger] store.users@[k]);
        assert(store.users@[n - 1].name@ == user_name@);
        match user_name_idx(store.users@, user_name@) {
            Some(j) => {
                if j < n - 1 {
                    assert(old(store).users@[j].name@ != user_name@);
                    assert(false);
                }
                assert(new_user.id == store.users@.last().id);
            },
            None => {
                assert(false);
            },
        }
    }
    match save_user_password(pass_store, &new_user, password) {
        Ok(()) => {},
        Err(e) => {
            return Err(e);
        },
    }
    Ok(true)
}

} // verus!
