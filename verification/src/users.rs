//! Users: registration and the check of a name and password. Passwords
//! are held as they are given and the token is a fixed text: this part
//! keeps accounts apart and is no protection.
use vstd::prelude::*;
use vstd::string::*;
use crate::error::LedgerError;
use crate::models::{LoginPayload, LoginResponse, User, UserCreate};
use crate::store::{consistent, has_user, Db, Tables};

verus! {

/// The role of a user who is registered without one.
pub open spec fn default_role() -> Seq<char> {
    "user"@
}

/// The token that every login returns.
pub open spec fn session_token() -> Seq<char> {
    "fake-jwt-token"@
}

/// The role that a registration gives: the one it names, else the
/// default.
pub open spec fn role_of(role: Option<String>) -> Seq<char> {
    match role {
        Some(r) => r@,
        None => default_role(),
    }
}

/// Why a registration is refused, if it is: the name is empty; or the
/// password is empty; or the name is taken; or the table has no identity
/// left.
pub open spec fn register_refusal(t: Tables, p: UserCreate) -> Option<LedgerError> {
    if p.username@.len() == 0 {
        Some(LedgerError::EmptyUsername)
    } else if p.password@.len() == 0 {
        Some(LedgerError::EmptyPassword)
    } else if has_user(t.users, p.username@) {
        Some(LedgerError::UsernameTaken)
    } else if t.next_user >= i64::MAX {
        Some(LedgerError::StoreFull)
    } else {
        None
    }
}

/// Whether `u` is the user that a registration creates: under the next
/// identity, with the name and password of the payload, the role that it
/// gives, and `now` as the time of creation.
pub open spec fn registered(u: User, t: Tables, p: UserCreate, now: String) -> bool {
    &&& u.id == t.next_user
    &&& u.username == p.username
    &&& u.password_hash == p.password
    &&& u.role@ == role_of(p.role)
    &&& u.created_at == now
}

/// Registers a user and returns the record as it is held. A refused
/// registration leaves the store as it was.
pub fn register(db: &mut Db, payload: UserCreate, now: String) -> (r: Result<User, LedgerError>)
    requires
        old(db).wf(),
    ensures
        final(db).wf(),
        match register_refusal(old(db)@, payload) {
            Some(e) => r == Err::<User, LedgerError>(e) && final(db)@ == old(db)@,
            None => r matches Ok(u) && registered(u, old(db)@, payload, now) && final(db)@ == (Tables {
                users: old(db)@.users.push(u),
                next_user: old(db)@.next_user + 1,
                ..old(db)@
            }),
        },
{
    proof {
        db.tables();
    }
    if payload.username.as_str().is_empty() {
        return Err(LedgerError::EmptyUsername);
    }
    if payload.password.as_str().is_empty() {
        return Err(LedgerError::EmptyPassword);
    }
    if db.find_user(&payload.username).is_some() {
        return Err(LedgerError::UsernameTaken);
    }
    if db.next_user >= i64::MAX {
        return Err(LedgerError::StoreFull);
    }
    let role = match payload.role {
        Some(r) => r,
        None => String::from_str("user"),
    };
    let user = User {
        id: db.next_user,
        username: payload.username,
        password_hash: payload.password,
        role,
        created_at: now,
    };
    db.users.push(user.duplicate());
    db.next_user = db.next_user + 1;
    proof {
        db.tables();
        let before = old(db)@.users;
        assert forall|i: int, j: int| 0 <= i < j < db@.users.len() implies (#[trigger] db@.users[i]).username@
            != (#[trigger] db@.users[j]).username@ by {
            if j == before.len() {
                assert(db@.users[i] == before[i]);
            } else {
                assert(db@.users[i] == before[i] && db@.users[j] == before[j]);
            }
        }
    }
    Ok(user)
}

/// Whether a user of this name with this password is held.
pub open spec fn credentials_match(users: Seq<User>, name: Seq<char>, password: Seq<char>) -> bool {
    exists|i: int|
        0 <= i < users.len() && (#[trigger] users[i]).username@ == name && users[i].password_hash@
            == password
}

/// Checks a name and password. Where a user of this name is held and
/// the password is theirs, returns that user and the token; else reports
/// that the name or the password is wrong, without saying which. The
/// store is not changed.
pub fn login(db: &Db, payload: LoginPayload) -> (r: Result<LoginResponse, LedgerError>)
    requires
        db.wf(),
    ensures
        match r {
            Ok(resp) => {
                &&& db@.users.contains(resp.user)
                &&& resp.user.username@ == payload.username@
                &&& resp.user.password_hash@ == payload.password@
                &&& resp.token@ == session_token()
            },
            Err(e) => e == LedgerError::InvalidCredentials && !credentials_match(
                db@.users,
                payload.username@,
                payload.password@,
            ),
        },
{
    proof {
        db.tables();
    }
    match db.find_user(&payload.username) {
        None => Err(LedgerError::InvalidCredentials),
        Some(k) => {
            if db.users[k].password_hash == payload.password {
                Ok(
                    LoginResponse {
                        user: db.users[k].duplicate(),
                        token: String::from_str("fake-jwt-token"),
                    },
                )
            } else {
                proof {
                    let users = db@.users;
                    assert forall|i: int|
                        0 <= i < users.len() && (#[trigger] users[i]).username@
                            == payload.username@ implies users[i].password_hash@
                        != payload.password@ by {
                        if i < k {
                            assert(users[i].username@ != users[k as int].username@);
                        } else if k < i {
                            assert(users[k as int].username@ != users[i].username@);
                        }
                    }
                }
                Err(LedgerError::InvalidCredentials)
            }
        },
    }
}

} // verus!
