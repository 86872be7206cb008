//! Human operator accounts: the validation and authorization rules behind
//! account creation, removal, and modification.  Session mechanics and the
//! account store live outside; these functions decide, the caller acts.
use vstd::prelude::*;

use crate::password::{char_alphanumeric, valid_char};

verus! {

/// An operator account.
#[derive(Debug, Clone)]
pub struct User {
    /// The account's identifier.
    pub id: i64,
    /// The account's name.
    pub username: String,
    /// The stored password.
    pub password: String,
    /// Whether the account may administer other accounts.
    pub superuser: bool,
}

/// Login credentials, with the page to return to afterwards.
#[derive(Debug, Clone)]
pub struct Credentials {
    /// The account's name.
    pub username: String,
    /// The password offered.
    pub password: String,
    /// An optional redirect after login.
    pub next: Option<String>,
}

/// The redirect target of a login page request.
#[derive(Debug, Clone)]
pub struct Next {
    /// The optional URL to return to after login.
    pub next: Option<String>,
}

/// Query parameters naming an account to remove.
#[derive(Debug, Clone, Copy, PartialEq, Eq, Structural)]
pub struct RemoveUserQuery {
    /// The identifier of the account to remove.
    pub id: i64,
}

/// The request body of an account modification.
#[derive(Debug, Clone)]
pub struct ModifyUserJson {
    /// The account to modify; the requester's own when absent.
    pub id: Option<i64>,
    /// A new account name, when one is wanted.
    pub username: Option<String>,
    /// A new password, when one is wanted.
    pub password: Option<String>,
}

/// Does the string consist of alphanumeric characters only?  An empty
/// string passes vacuously.
pub open spec fn all_alphanumeric(s: Seq<char>) -> bool {
    forall|i: int| 0 <= i < s.len() ==> char_alphanumeric(#[trigger] s[i])
}

/// Does the string consist of acceptable password characters only?
pub open spec fn all_valid_chars(s: Seq<char>) -> bool {
    forall|i: int| 0 <= i < s.len() ==> valid_char(#[trigger] s[i])
}

/// Checks that every character of the name is alphanumeric.
pub fn is_valid_username(s: &str) -> (r: bool)
    ensures
        r == all_alphanumeric(s@),
{
    let len = s.unicode_len();
    let mut i: usize = 0;
    while i < len
        invariant
            0 <= i <= len,
            len == s@.len(),
            forall|j: int| 0 <= j < i ==> char_alphanumeric(#[trigger] s@[j]),
        decreases len - i,
    {
        if !s.get_char(i).is_alphanumeric() {
            return false;
        }
        i = i + 1;
    }
    true
}

/// Checks that every character of the password is acceptable.
pub fn is_valid_password(s: &str) -> (r: bool)
    ensures
        r == all_valid_chars(s@),
{
    let len = s.unicode_len();
    let mut i: usize = 0;
    while i < len
        invariant
            0 <= i <= len,
            len == s@.len(),
            forall|j: int| 0 <= j < i ==> valid_char(#[trigger] s@[j]),
        decreases len - i,
    {
        if !crate::password::is_valid_char(s.get_char(i)) {
            return false;
        }
        i = i + 1;
    }
    true
}

/// How an account-creation request is decided.
#[derive(Debug, Clone, Copy, PartialEq, Eq, Structural)]
pub enum NewUserDecision {
    /// The requester may not administer accounts.
    NotAuthorized,
    /// The name holds a character that is not alphanumeric.
    InvalidUsername,
    /// The password holds an unacceptable character.
    InvalidPassword,
    /// The account may be created.
    Accept,
}

/// Decides an account-creation request: only an administrator may create
/// accounts, the name must be alphanumeric, and the password must hold
/// acceptable characters only.
pub fn validate_new_user(session: &User, username: &str, password: &str) -> (r: NewUserDecision)
    ensures
        r == NewUserDecision::NotAuthorized <==> !session.superuser,
        r == NewUserDecision::InvalidUsername <==> session.superuser && !all_alphanumeric(
            username@,
        ),
        r == NewUserDecision::InvalidPassword <==> session.superuser && all_alphanumeric(username@)
            && !all_valid_chars(password@),
        r == NewUserDecision::Accept <==> session.superuser && all_alphanumeric(username@)
            && all_valid_chars(password@),
{
    if !session.superuser {
        NewUserDecision::NotAuthorized
    } else if !is_valid_username(username) {
        NewUserDecision::InvalidUsername
    } else if !is_valid_password(password) {
        NewUserDecision::InvalidPassword
    } else {
        NewUserDecision::Accept
    }
}

/// How an account-removal request is decided.
#[derive(Debug, Clone, Copy, PartialEq, Eq, Structural)]
pub enum RemoveUserDecision {
    /// The requester may not administer accounts.
    NotAuthorized,
    /// An administrator may not remove their own account.
    CannotRemoveSelf,
    /// The account may be removed.
    Accept,
}

/// Decides an account-removal request: only an administrator may remove
/// accounts, and never their own.
pub fn validate_remove_user(session: &User, target_id: i64) -> (r: RemoveUserDecision)
    ensures
        r == RemoveUserDecision::NotAuthorized <==> !session.superuser,
        r == RemoveUserDecision::CannotRemoveSelf <==> session.superuser && session.id == target_id,
        r == RemoveUserDecision::Accept <==> session.superuser && session.id != target_id,
{
    if !session.superuser {
        RemoveUserDecision::NotAuthorized
    } else if session.id == target_id {
        RemoveUserDecision::CannotRemoveSelf
    } else {
        RemoveUserDecision::Accept
    }
}

/// How an account-modification request is decided.
#[derive(Debug, Clone)]
pub enum ModifyUserDecision {
    /// Nobody is logged in.
    NotLoggedIn,
    /// The requester modifies another account without administering rights.
    NotAuthorized,
    /// The new name is empty or holds a character that is not alphanumeric.
    InvalidUsername,
    /// The new password holds an unacceptable character.
    InvalidPassword,
    /// The changes to apply: the target account, the new name when one is
    /// wanted, and the new password when a non-empty one is wanted.
    Apply(i64, Option<String>, Option<String>),
}

/// The account a modification request aims at: the named one, or the
/// requester's own.
pub open spec fn modify_target(session_id: i64, d: ModifyUserJson) -> i64 {
    match d.id {
        Some(v) => v,
        None => session_id,
    }
}

/// Decides an account-modification request.  A requester must be logged in,
/// may touch another account only as an administrator, may set only a
/// non-empty alphanumeric name, and may set only a password of acceptable
/// characters; an empty new password means "keep the old one".
pub fn validate_modify_user(session: Option<&User>, details: &ModifyUserJson) -> (r:
    ModifyUserDecision)
    ensures
        ({
            match session {
                None => r is NotLoggedIn,
                Some(u) => {
                    let target = modify_target(u.id, *details);
                    if u.id != target && !u.superuser {
                        r is NotAuthorized
                    } else if details.username is Some && (details.username->Some_0@.len() == 0
                        || !all_alphanumeric(details.username->Some_0@)) {
                        r is InvalidUsername
                    } else if details.password is Some && details.password->Some_0@.len() > 0
                        && !all_valid_chars(details.password->Some_0@) {
                        r is InvalidPassword
                    } else {
                        match r {
                            ModifyUserDecision::Apply(t, nu, np) => {
                                &&& t == target
                                &&& match (details.username, nu) {
                                    (Some(d), Some(n)) => d@ == n@,
                                    (None, None) => true,
                                    _ => false,
                                }
                                &&& match np {
                                    Some(p) => details.password is Some
                                        && details.password->Some_0@ == p@ && p@.len() > 0,
                                    None => details.password is None
                                        || details.password->Some_0@.len() == 0,
                                }
                            },
                            _ => false,
                        }
                    }
                },
            }
        }),
{
    let u = match session {
        Some(u) => u,
        None => {
            return ModifyUserDecision::NotLoggedIn;
        },
    };
    let target: i64 = match details.id {
        Some(v) => v,
        None => u.id,
    };
    if u.id != target && !u.superuser {
        return ModifyUserDecision::NotAuthorized;
    }
    let new_username: Option<String> = match &details.username {
        Some(name) => {
            if name.as_str().is_empty() || !is_valid_username(name.as_str()) {
                return ModifyUserDecision::InvalidUsername;
            }
            Some(name.clone())
        },
        None => None,
    };
    let new_password: Option<String> = match &details.password {
        Some(pw) => {
            if pw.as_str().is_empty() {
                None
            } else if !is_valid_password(pw.as_str()) {
                return ModifyUserDecision::InvalidPassword;
            } else {
                Some(pw.clone())
            }
        },
        None => None,
    };
    ModifyUserDecision::Apply(target, new_username, new_password)
}

} // verus!
