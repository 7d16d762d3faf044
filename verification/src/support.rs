//! Shared response types of the service layer.

use vstd::prelude::*;

verus! {

/// A per-field input validation error, reported beside a partial result.
#[derive(Debug)]
pub struct InputError {
    /// Which input field the error is about.
    pub field: String,
    /// What is wrong with it.
    pub message: String,
}

impl InputError {
    /// An error naming the field it is about.
    pub fn new(field: String, message: String) -> (r: InputError)
        ensures
            r.field@ == field@,
            r.message@ == message@,
    {
        InputError { field, message }
    }
}

/// A result carrying either a value or the input errors that kept one
/// from being produced.
#[derive(Debug)]
pub struct WithError<T> {
    /// The per-field input errors, empty on success.
    pub errors: Vec<InputError>,
    /// The produced value, absent when errors are reported.
    pub value: Option<T>,
}

impl<T> WithError<T> {
    /// A successful result: the value, with no errors.
    pub fn from_value(value: T) -> (r: WithError<T>)
        ensures
            r.errors@ == Seq::<InputError>::empty(),
            r.value == Some(value),
    {
        WithError { errors: Vec::new(), value: Some(value) }
    }
}

} // verus!
