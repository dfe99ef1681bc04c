//! Error taxonomy of the service: user-correctable validation failures,
//! not-found and conflict outcomes, authentication failures, and opaque
//! internal faults.

use vstd::prelude::*;
use vstd::string::StringExecFns;

verus! {

/// Every failure a request can surface. Each variant determines both the
/// HTTP-level status class and the message shown to the caller.
#[derive(Clone, Copy, Debug, PartialEq, Eq, Structural)]
pub enum ApiError {
    /// A registration or rename supplied an empty username.
    EmptyUsername,
    /// A registration supplied an empty password.
    EmptyPassword,
    /// A message send supplied empty content.
    EmptyContent,
    /// A read-marking request did not name a counterpart.
    MissingWithUser,
    /// The requested username is already held by another account.
    UsernameTaken,
    /// No account carries the named username.
    UserNotFound,
    /// The named recipient of a message does not exist.
    RecipientNotFound,
    /// The target account has never published a key bundle.
    KeysNotFound,
    /// The stored credentials do not match the supplied password.
    InvalidPassword,
    /// The request carried no usable session token, or an unknown one.
    Unauthenticated,
    /// A fault of the store, the password hasher, or token generation.
    Internal,
}

impl ApiError {
    /// The HTTP status code that the boundary reports for this error.
    pub fn status_code(&self) -> (c: u16)
        ensures
            c == self.spec_status_code(),
    {
        match self {
            ApiError::EmptyUsername => 400,
            ApiError::EmptyPassword => 400,
            ApiError::EmptyContent => 400,
            ApiError::MissingWithUser => 400,
            ApiError::UsernameTaken => 409,
            ApiError::UserNotFound => 404,
            ApiError::RecipientNotFound => 404,
            ApiError::KeysNotFound => 404,
            ApiError::InvalidPassword => 401,
            ApiError::Unauthenticated => 401,
            ApiError::Internal => 500,
        }
    }

    /// The status code of each variant: 400 for validation failures, 404 for
    /// missing targets, 409 for conflicts, 401 for authentication failures,
    /// 500 for internal faults.
    pub open spec fn spec_status_code(self) -> u16 {
        match self {
            ApiError::EmptyUsername => 400,
            ApiError::EmptyPassword => 400,
            ApiError::EmptyContent => 400,
            ApiError::MissingWithUser => 400,
            ApiError::UsernameTaken => 409,
            ApiError::UserNotFound => 404,
            ApiError::RecipientNotFound => 404,
            ApiError::KeysNotFound => 404,
            ApiError::InvalidPassword => 401,
            ApiError::Unauthenticated => 401,
            ApiError::Internal => 500,
        }
    }

    /// The caller-facing message for this error.
    pub fn message(&self) -> (m: String)
        ensures
            m@ == self.spec_message(),
    {
        match self {
            ApiError::EmptyUsername => String::from_str("Username cannot be empty"),
            ApiError::EmptyPassword => String::from_str("Password cannot be empty"),
            ApiError::EmptyContent => String::from_str("Message content cannot be empty"),
            ApiError::MissingWithUser => String::from_str("with_user parameter is required"),
            ApiError::UsernameTaken => String::from_str("Username already exists"),
            ApiError::UserNotFound => String::from_str("User not found"),
            ApiError::RecipientNotFound => String::from_str("Recipient user not found"),
            ApiError::KeysNotFound => String::from_str("Keys not found for this user"),
            ApiError::InvalidPassword => String::from_str("Invalid password"),
            ApiError::Unauthenticated => String::from_str("Unauthorized"),
            ApiError::Internal => String::from_str("Internal server error"),
        }
    }

    /// The message of each variant.
    pub open spec fn spec_message(self) -> Seq<char> {
        match self {
            ApiError::EmptyUsername => "Username cannot be empty"@,
            ApiError::EmptyPassword => "Password cannot be empty"@,
            ApiError::EmptyContent => "Message content cannot be empty"@,
            ApiError::MissingWithUser => "with_user parameter is required"@,
            ApiError::UsernameTaken => "Username already exists"@,
            ApiError::UserNotFound => "User not found"@,
            ApiError::RecipientNotFound => "Recipient user not found"@,
            ApiError::KeysNotFound => "Keys not found for this user"@,
            ApiError::InvalidPassword => "Invalid password"@,
            ApiError::Unauthenticated => "Unauthorized"@,
            ApiError::Internal => "Internal server error"@,
        }
    }
}

} // verus!
