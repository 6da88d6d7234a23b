use crate::token::TOKEN_LIFETIME_SECS;
use vstd::prelude::*;

verus! {

/// An account, with its activation state.
pub struct User {
    pub id: i32,
    pub username: String,
    pub nickname: String,
    pub email: String,
    pub password: String,
    pub activated: bool,
    /// When the account was activated, in seconds since the Unix epoch.
    pub activated_at: Option<u64>,
}

/// What an activation token carries: a snapshot of the user and the instant the token
/// stops being valid, in seconds since the Unix epoch.
pub struct TokenData {
    pub user: User,
    pub expired_at: u64,
}

/// Why an activation message could not be delivered.
pub struct SendError {
    pub message: String,
}

/// Relies on chrono::Local::now and DateTime::timestamp: the current instant, in seconds
/// since the Unix epoch.
#[verifier::external_body]
fn clock_seconds() -> (r: i64) {
    chrono::Local::now().timestamp()
}

/// The current instant in seconds since the Unix epoch. chrono panics on a clock set before
/// the epoch, so the clamp to 0 below is never taken; it only keeps the conversion total.
pub fn now_seconds() -> (r: u64)
    ensures
        r <= i64::MAX,
{
    let t = clock_seconds();
    if t < 0 {
        0
    } else {
        t as u64
    }
}

impl User {
    /// A field-by-field copy.
    pub fn duplicate(&self) -> (r: User)
        ensures
            r == *self,
    {
        User {
            id: self.id,
            username: self.username.clone(),
            nickname: self.nickname.clone(),
            email: self.email.clone(),
            password: self.password.clone(),
            activated: self.activated,
            activated_at: self.activated_at,
        }
    }

    /// The token payload for this user when the token is issued at `issued_at`.
    pub fn to_token_data_at(&self, issued_at: u64) -> (r: TokenData)
        requires
            issued_at <= u64::MAX - TOKEN_LIFETIME_SECS,
        ensures
            r.user == *self,
            r.expired_at == issued_at + TOKEN_LIFETIME_SECS,
    {
        TokenData { user: self.duplicate(), expired_at: issued_at + TOKEN_LIFETIME_SECS }
    }

    /// The token payload for this user, issued now.
    pub fn to_token_data(&self) -> (r: TokenData)
        ensures
            r.user == *self,
            r.expired_at <= i64::MAX + TOKEN_LIFETIME_SECS,
            r.expired_at >= TOKEN_LIFETIME_SECS,
    {
        let now = now_seconds();
        self.to_token_data_at(now)
    }

    /// The outcome of an activation request once the notifier has answered: its failure
    /// when it reported one, else this user, unchanged and so not yet activated.
    pub fn prepare_activate(&self, delivery: Option<SendError>) -> (r: Result<User, SendError>)
        ensures
            match r {
                Ok(u) => delivery.is_none() && u == *self,
                Err(e) => delivery == Some(e),
            },
    {
        match delivery {
            Some(err) => Err(err),
            None => Ok(self.duplicate()),
        }
    }
}

} // verus!
