//! The user query and mutation layer's input and error types.

use vstd::prelude::*;

verus! {

/// What can go wrong in the user mutations.
#[derive(Debug)]
pub enum UserMutationError {
    /// A user with the same value of the named unique field exists.
    UserAlreadyExists(String),
    /// An unclassified data store failure, with its description.
    Default(String),
    /// No user matches the given login.
    UserNotFound,
    /// The password does not match.
    InvalidPassword,
}

impl UserMutationError {
    /// A readable description of the error.
    pub fn message(&self) -> (r: String)
        ensures
            match self {
                UserMutationError::UserAlreadyExists(f) => r@ == "A user with this "@ + f@
                    + " already exists"@,
                UserMutationError::Default(c) => r@ == "unknown data store error: "@ + c@,
                UserMutationError::UserNotFound => r@ == "User not found"@,
                UserMutationError::InvalidPassword => r@ == "Invalid password"@,
            },
    {
        match self {
            UserMutationError::UserAlreadyExists(f) => {
                let mut m = "A user with this ".to_owned();
                m.append(f.as_str());
                m.append(" already exists");
                m
            },
            UserMutationError::Default(c) => {
                let mut m = "unknown data store error: ".to_owned();
                m.append(c.as_str());
                m
            },
            UserMutationError::UserNotFound => "User not found".to_owned(),
            UserMutationError::InvalidPassword => "Invalid password".to_owned(),
        }
    }

    /// The status code reported for the error: not-found for a missing
    /// user, a client error for a duplicate user or a wrong password, a
    /// server error otherwise.
    pub fn status_code(&self) -> (r: u16)
        ensures
            r == match self {
                UserMutationError::UserAlreadyExists(_) => 400u16,
                UserMutationError::Default(_) => 500u16,
                UserMutationError::UserNotFound => 404u16,
                UserMutationError::InvalidPassword => 400u16,
            },
    {
        match self {
            UserMutationError::UserAlreadyExists(_) => 400,
            UserMutationError::Default(_) => 500,
            UserMutationError::UserNotFound => 404,
            UserMutationError::InvalidPassword => 400,
        }
    }
}

/// The input of the user-creation mutation.
#[derive(Debug)]
pub struct CreateUserInput {
    pub email: String,
    pub username: String,
    pub password: String,
}

/// The input of the login mutation.
#[derive(Debug)]
pub struct LoginUserInput {
    pub email: String,
    pub password: String,
}

} // verus!
