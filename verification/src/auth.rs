//! The data shapes the authentication collaborator exchanges with the
//! core, the user-facing error categories, and the password policy.
//!
//! Authentication itself (hashing, sessions, cookies) lives outside the
//! library; only the plain values and the rules that can be checked on them
//! are here.

use vstd::prelude::*;

use crate::text::{chars_vec, is_ascii_lowercase, is_ascii_uppercase, is_digit_char};

verus! {

/// The user-visible failure categories; internal causes are logged by the
/// boundary and never exposed.
#[derive(Debug, Clone, Copy, PartialEq, Eq, Structural)]
pub enum AppError {
    ErrorWithRequest,
    Unauthorized,
    Forbidden,
    RegistrationError,
}

/// The fixed user-facing message of each error category.
pub open spec fn error_message(e: AppError) -> Seq<char> {
    match e {
        AppError::ErrorWithRequest => "There was an error with your request."@,
        AppError::Unauthorized => "Unauthorized."@,
        AppError::Forbidden => "You are not permitted to perform this action."@,
        AppError::RegistrationError => "There was an error registering your account."@,
    }
}

impl AppError {
    /// The message shown to the caller for this category.
    pub fn message(&self) -> (r: &'static str)
        ensures
            r@ == error_message(*self),
    {
        match self {
            AppError::ErrorWithRequest => "There was an error with your request.",
            AppError::Unauthorized => "Unauthorized.",
            AppError::Forbidden => "You are not permitted to perform this action.",
            AppError::RegistrationError => "There was an error registering your account.",
        }
    }
}

/// A registration request.
#[derive(Debug, Clone)]
pub struct RegisterUser {
    pub email: String,
    pub password1: String,
    pub password2: String,
    pub username: Option<String>,
    pub first_name: String,
    pub last_name: String,
}

pub open spec fn is_ascii_alnum(c: char) -> bool {
    is_ascii_lowercase(c) || is_ascii_uppercase(c) || is_digit_char(c)
}

/// The password policy: at least twelve characters on one line, with a
/// lowercase letter, an uppercase letter, a digit, and a character that is
/// none of those.
pub open spec fn password_ok(s: Seq<char>) -> bool {
    &&& s.len() >= 12
    &&& forall|i: int| 0 <= i < s.len() ==> #[trigger] s[i] != '\n'
    &&& exists|i: int| 0 <= i < s.len() && is_ascii_lowercase(#[trigger] s[i])
    &&& exists|i: int| 0 <= i < s.len() && is_ascii_uppercase(#[trigger] s[i])
    &&& exists|i: int| 0 <= i < s.len() && is_digit_char(#[trigger] s[i])
    &&& exists|i: int| 0 <= i < s.len() && !is_ascii_alnum(#[trigger] s[i])
}

impl RegisterUser {
    /// Whether the password meets the policy.
    pub fn validate_password(password: &str) -> (r: bool)
        ensures
            r == password_ok(password@),
    {
        let v = chars_vec(password);
        let mut has_newline = false;
        let mut has_lower = false;
        let mut has_upper = false;
        let mut has_digit = false;
        let mut has_special = false;
        let mut i: usize = 0;
        while i < v.len()
            invariant
                i <= v@.len(),
                v@ == password@,
                has_newline == exists|j: int| 0 <= j < i && #[trigger] v@[j] == '\n',
                has_lower == exists|j: int| 0 <= j < i && is_ascii_lowercase(#[trigger] v@[j]),
                has_upper == exists|j: int| 0 <= j < i && is_ascii_uppercase(#[trigger] v@[j]),
                has_digit == exists|j: int| 0 <= j < i && is_digit_char(#[trigger] v@[j]),
                has_special == exists|j: int| 0 <= j < i && !is_ascii_alnum(#[trigger] v@[j]),
            decreases v@.len() - i,
        {
            let c = v[i];
            proof {
                assert(v@[i as int] == c);
            }
            if c == '\n' {
                has_newline = true;
            }
            if 'a' <= c && c <= 'z' {
                has_lower = true;
            }
            if 'A' <= c && c <= 'Z' {
                has_upper = true;
            }
            if '0' <= c && c <= '9' {
                has_digit = true;
            }
            if !(('a' <= c && c <= 'z') || ('A' <= c && c <= 'Z') || ('0' <= c && c <= '9')) {
                has_special = true;
            }
            i = i + 1;
        }
        v.len() >= 12 && !has_newline && has_lower && has_upper && has_digit && has_special
    }
}

/// A login request.
#[derive(Debug, Clone)]
pub struct Credentials {
    pub username: String,
    pub password: String,
}

/// The authenticated user as sessions carry it.
#[derive(Debug, Clone)]
pub struct AuthUser {
    pub id: String,
    pub username: String,
    pub first_name: String,
    pub last_name: String,
}

/// A session wrapping its user.
#[derive(Debug, Clone)]
pub struct AuthSession {
    pub user: AuthUser,
}

/// The reply that starts a login flow.
#[derive(Debug, Clone)]
pub struct AuthInitResponse {
    pub auth_url: String,
    pub state: String,
}

/// The callback that completes a login flow.
#[derive(Debug, Clone)]
pub struct CallbackQuery {
    pub state: String,
    pub username: String,
    pub password: String,
}

/// A verification request for a freshly-registered user.
#[derive(Debug, Clone)]
pub struct AuthUserVerifyQuery {
    pub user_id: String,
    pub code: String,
}

} // verus!
