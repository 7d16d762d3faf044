//! The workspace mutation layer's error type.

use vstd::prelude::*;

verus! {

/// What can go wrong in the workspace mutations.
#[derive(Debug)]
pub enum WorkspaceMutationError {
    /// An unclassified failure, with its description.
    DefaultError(String),
    /// The uploaded image's file name carries the named unusable
    /// extension.
    InvalidImageExtension(String),
}

impl WorkspaceMutationError {
    /// A readable description of the error.
    pub fn message(&self) -> (r: String)
        ensures
            match self {
                WorkspaceMutationError::DefaultError(c) => r@ == "generic error: "@ + c@,
                WorkspaceMutationError::InvalidImageExtension(x) => r@
                    == "Invalid image extension: "@ + x@,
            },
    {
        match self {
            WorkspaceMutationError::DefaultError(c) => {
                let mut m = "generic error: ".to_owned();
                m.append(c.as_str());
                m
            },
            WorkspaceMutationError::InvalidImageExtension(x) => {
                let mut m = "Invalid image extension: ".to_owned();
                m.append(x.as_str());
                m
            },
        }
    }

    /// The status code reported for the error: a server error for the
    /// unclassified case, a client error otherwise.
    pub fn status_code(&self) -> (r: u16)
        ensures
            r == match self {
                WorkspaceMutationError::DefaultError(_) => 500u16,
                WorkspaceMutationError::InvalidImageExtension(_) => 400u16,
            },
    {
        match self {
            WorkspaceMutationError::DefaultError(_) => 500,
            WorkspaceMutationError::InvalidImageExtension(_) => 400,
        }
    }
}

} // verus!
