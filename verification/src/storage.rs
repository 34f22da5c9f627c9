//! Accounts and the history of attempts: what is decided of them here,
//! while the database itself is the caller's part.
//!
//! Passwords are hashed and checked by the `bcrypt` crate.

use vstd::prelude::*;
use vstd::string::*;
use crate::path::{join_path, path_joined};

verus! {

/// The error of the `bcrypt` crate.
#[verifier::external_type_specification]
#[verifier::external_body]
pub struct ExBcryptError(bcrypt::BcryptError);

/// An account. The hash of the password is held only on the way from the
/// database to the check; an account that is handed out carries the word
/// `<redacted>` in its place.
#[derive(Debug, Clone)]
pub struct User {
    pub id: i64,
    pub username: String,
    pub password_hash: String,
    pub display_name: Option<String>,
    pub avatar: Option<String>,
}

/// The mathematical content of a [`User`].
pub struct UserModel {
    pub id: i64,
    pub username: Seq<char>,
    pub password_hash: Seq<char>,
    pub display_name: Option<Seq<char>>,
    pub avatar: Option<Seq<char>>,
}

impl View for User {
    type V = UserModel;

    open spec fn view(&self) -> UserModel {
        UserModel {
            id: self.id,
            username: self.username@,
            password_hash: self.password_hash@,
            display_name: self.display_name.deep_view(),
            avatar: self.avatar.deep_view(),
        }
    }
}

/// One graded attempt of a user, as the history keeps it.
#[derive(Debug, Clone)]
pub struct Attempt {
    pub id: i64,
    pub user_id: i64,
    pub lesson_id: String,
    pub passed: bool,
    pub duration_secs: Option<u64>,
    pub timestamp: i64,
}

/// What `bcrypt::verify` makes of a password and a hash: whether they
/// match, or `None` where it refuses the hash. The algorithm is not
/// restated here.
pub uninterp spec fn bcrypt_verdict(password: Seq<char>, hash: Seq<char>) -> Option<bool>;

/// Calls `bcrypt::verify`. The contract names the outcome, which depends on
/// the password and the hash alone.
#[verifier::external_body]
fn verify_hash(password: &str, hash: &str) -> (r: Result<bool, bcrypt::BcryptError>)
    ensures
        match r {
            Ok(matches) => bcrypt_verdict(password@, hash@) == Some(matches),
            Err(_) => bcrypt_verdict(password@, hash@) is None,
        },
{
    bcrypt::verify(password, hash)
}

/// Calls `bcrypt::hash` with the crate's default cost. The salt is drawn at
/// random, so the hash itself is not told. What is told holds of every
/// hash that comes back: `bcrypt::verify` finds the password under it,
/// since it reads cost and salt out of the hash and hashes the password
/// with them again.
#[verifier::external_body]
fn hash_with_default_cost(password: &str) -> (r: Result<String, bcrypt::BcryptError>)
    ensures
        r matches Ok(hash) ==> bcrypt_verdict(password@, hash@) == Some(true),
{
    bcrypt::hash(password, bcrypt::DEFAULT_COST)
}

/// Why an account could not be made.
#[derive(Debug, Clone, Copy, PartialEq, Eq, Structural)]
pub enum StorageError {
    /// The password could not be hashed.
    Hashing,
}

/// What becomes of the outcome of hashing: a hash is stored as it came,
/// and any failure of the hashing is the one error that an account can
/// meet here.
pub fn stored_hash(outcome: Result<String, bcrypt::BcryptError>) -> (r: Result<String, StorageError>)
    ensures
        match outcome {
            Ok(hash) => r == Ok::<String, StorageError>(hash),
            Err(_) => r == Err::<String, StorageError>(StorageError::Hashing),
        },
{
    match outcome {
        Ok(hash) => Ok(hash),
        Err(_) => Err(StorageError::Hashing),
    }
}

/// The hash to store for a new password: one under which the password, as
/// it was given, is let in. Whether a hash comes back lies with the source
/// of randomness; where none does, the error says so.
pub fn hash_password(password: &str) -> (r: Result<String, StorageError>)
    ensures
        match r {
            Ok(hash) => lets_in(bcrypt_verdict(password@, hash@)),
            Err(e) => e == StorageError::Hashing,
        },
{
    stored_hash(hash_with_default_cost(password))
}

/// The word that stands in place of a hash in an account that is handed
/// out.
pub open spec fn redacted() -> Seq<char> {
    "<redacted>"@
}

/// The account as it is handed out.
pub open spec fn without_hash(user: UserModel) -> UserModel {
    UserModel { password_hash: redacted(), ..user }
}

/// The account of a user who has just registered under `username` and got
/// the row `id`.
pub fn registered_user(id: i64, username: &str) -> (user: User)
    ensures
        user@ == (UserModel {
            id,
            username: username@,
            password_hash: redacted(),
            display_name: None,
            avatar: None,
        }),
{
    User {
        id,
        username: username.to_owned(),
        password_hash: "<redacted>".to_owned(),
        display_name: None,
        avatar: None,
    }
}

/// Whether a verdict on a password lets the user in: only a match does,
/// a refused hash does not.
pub open spec fn lets_in(verdict: Option<bool>) -> bool {
    verdict == Some(true)
}

/// Hands out the account if the verdict on the password lets the user in.
pub fn grant(user: User, verdict: Option<bool>) -> (granted: Option<User>)
    ensures
        granted.deep_view() == if lets_in(verdict) {
            Some(without_hash(user@))
        } else {
            None
        },
{
    match verdict {
        Some(true) => {
            let mut user = user;
            user.password_hash = "<redacted>".to_owned();
            Some(user)
        },
        _ => None,
    }
}

impl DeepView for User {
    type V = UserModel;

    open spec fn deep_view(&self) -> UserModel {
        self@
    }
}

/// Checks a password against the account row that was found for a name,
/// if any: the account is handed out, without its hash, exactly if there
/// is a row and the password matches its hash.
pub fn authenticate(row: Option<User>, password: &str) -> (granted: Option<User>)
    ensures
        granted.deep_view() == match row {
            Some(user) if lets_in(bcrypt_verdict(password@, user.password_hash@)) => Some(
                without_hash(user@),
            ),
            _ => None,
        },
{
    match row {
        None => None,
        Some(user) => {
            let verdict = match verify_hash(password, user.password_hash.as_str()) {
                Ok(matches) => Some(matches),
                Err(_) => None,
            };
            grant(user, verdict)
        },
    }
}

/// The number that the history stores for a verdict.
pub fn passed_flag(passed: bool) -> (flag: i64)
    ensures
        flag == if passed {
            1i64
        } else {
            0i64
        },
{
    if passed {
        1
    } else {
        0
    }
}

/// The duration as the history stores it: the same number, cast to the
/// signed integer of a row.
pub fn stored_duration(duration_secs: Option<u64>) -> (stored: Option<i64>)
    ensures
        stored == match duration_secs {
            Some(secs) => Some(secs as i64),
            None => None,
        },
{
    match duration_secs {
        Some(secs) => Some(#[verifier::truncate] (secs as i64)),
        None => None,
    }
}

/// The attempt that a row of the history stands for: any number but zero
/// says that the attempt passed.
pub fn attempt_from_row(
    id: i64,
    user_id: i64,
    lesson_id: String,
    passed: i64,
    duration_secs: Option<i64>,
    timestamp: i64,
) -> (attempt: Attempt)
    ensures
        attempt.id == id,
        attempt.user_id == user_id,
        attempt.lesson_id == lesson_id,
        attempt.passed == (passed != 0),
        attempt.duration_secs == match duration_secs {
            Some(secs) => Some(secs as u64),
            None => None,
        },
        attempt.timestamp == timestamp,
{
    Attempt {
        id,
        user_id,
        lesson_id,
        passed: passed != 0,
        duration_secs: match duration_secs {
            Some(secs) => Some(#[verifier::truncate] (secs as u64)),
            None => None,
        },
        timestamp,
    }
}

/// The file of the database, under the data directory.
pub fn db_path(data_dir: &str) -> (path: String)
    ensures
        path@ == path_joined(data_dir@, "app.db"@),
{
    join_path(data_dir, "app.db")
}

} // verus!
