//! The user-creation mutation's input and error types.

use vstd::prelude::*;

verus! {

/// What can go wrong when creating a user.
#[derive(Debug)]
pub enum MutationError {
    /// A user with the same value of the named unique field exists.
    UserAlreadyExists(String),
    /// An unclassified data store failure, with its description.
    Default(String),
}

impl MutationError {
    /// A readable description of the error.
    pub fn message(&self) -> (r: String)
        ensures
            match self {
                MutationError::UserAlreadyExists(f) => r@ == "A user with this "@ + f@
                    + " already exists"@,
                MutationError::Default(c) => r@ == "unknown data store error: "@ + c@,
            },
    {
        match self {
            MutationError::UserAlreadyExists(f) => {
                let mut m = "A user with this ".to_owned();
                m.append(f.as_str());
                m.append(" already exists");
                m
            },
            MutationError::Default(c) => {
                let mut m = "unknown data store error: ".to_owned();
                m.append(c.as_str());
                m
            },
        }
    }

    /// The status code reported for the error: a client error for a
    /// duplicate user, a server error otherwise.
    pub fn status_code(&self) -> (r: u16)
        ensures
            r == match self {
                MutationError::UserAlreadyExists(_) => 400u16,
                MutationError::Default(_) => 500u16,
            },
    {
        match self {
            MutationError::UserAlreadyExists(_) => 400,
            MutationError::Default(_) => 500,
        }
    }
}

/// The input of the user-creation mutation.
#[derive(Debug)]
pub struct CreateUserInput {
    pub email: String,
    pub username: String,
    pub password: String,
}

} // verus!
