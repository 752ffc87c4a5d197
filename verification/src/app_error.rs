//! Errors that are answered with a status and a message.

use vstd::prelude::*;
use vstd::string::StringExecFns;

verus! {

/// What a lookup of a user can fail with.
#[derive(Clone, Copy, Debug, PartialEq, Eq, Structural)]
pub enum UserRepoError {
    NotFound,
    InvalidUsername,
}

/// An error on its way to the caller.
#[derive(Clone, Copy, Debug, PartialEq, Eq, Structural)]
pub enum AppError {
    UserRepo(UserRepoError),
}

impl From<UserRepoError> for AppError {
    fn from(inner: UserRepoError) -> (error: AppError) {
        AppError::UserRepo(inner)
    }
}

impl vstd::std_specs::convert::FromSpecImpl<UserRepoError> for AppError {
    open spec fn obeys_from_spec() -> bool {
        true
    }

    open spec fn from_spec(inner: UserRepoError) -> AppError {
        AppError::UserRepo(inner)
    }
}

/// Status for a resource that does not exist.
pub const NOT_FOUND: u16 = 404;

/// Status for a request that is well formed and cannot be processed.
pub const UNPROCESSABLE_ENTITY: u16 = 422;

impl AppError {
    /// The status that answers the error.
    pub open spec fn status(self) -> u16 {
        match self {
            AppError::UserRepo(UserRepoError::NotFound) => NOT_FOUND,
            AppError::UserRepo(UserRepoError::InvalidUsername) => UNPROCESSABLE_ENTITY,
        }
    }

    /// The message that answers the error.
    pub open spec fn text(self) -> Seq<char> {
        match self {
            AppError::UserRepo(UserRepoError::NotFound) => "User not found"@,
            AppError::UserRepo(UserRepoError::InvalidUsername) => "Invalid username"@,
        }
    }

    /// The status that answers the error.
    pub fn status_code(&self) -> (status: u16)
        ensures
            status == self.status(),
    {
        match self {
            AppError::UserRepo(UserRepoError::NotFound) => NOT_FOUND,
            AppError::UserRepo(UserRepoError::InvalidUsername) => UNPROCESSABLE_ENTITY,
        }
    }

    /// The message that answers the error.
    pub fn error_message(&self) -> (message: String)
        ensures
            message@ == self.text(),
    {
        match self {
            AppError::UserRepo(UserRepoError::NotFound) => String::from_str("User not found"),
            AppError::UserRepo(UserRepoError::InvalidUsername) => String::from_str(
                "Invalid username",
            ),
        }
    }
}

} // verus!
