//! The engine's error taxonomy: a failed store operation, a textual value
//! that could not be coerced to the field's type, and a required field for
//! which no source produced a value.

use vstd::prelude::*;

verus! {

/// A store operation (get or set) reported a fault.
#[derive(Debug, PartialEq, Eq, Structural, Clone, Copy)]
pub struct SourceFault;

/// The spec-level shape of an engine error.
pub enum ErrorModel {
    Parsing(Seq<char>),
    Datastore,
    FieldNotSet(Seq<char>),
}

/// A terminal error of one `build` call.
#[derive(Debug)]
pub enum AppConfigError {
    /// A textual value could not be coerced to the named field's type.
    ParsingError(String),
    /// A store adapter get or set failed, or a declared alternate source
    /// was not supplied by the caller.
    DatastoreError,
    /// No step of the precedence chain produced a value for the named field.
    FieldNotSetError(String),
}

impl View for AppConfigError {
    type V = ErrorModel;

    open spec fn view(&self) -> ErrorModel {
        match self {
            AppConfigError::ParsingError(f) => ErrorModel::Parsing(f@),
            AppConfigError::DatastoreError => ErrorModel::Datastore,
            AppConfigError::FieldNotSetError(f) => ErrorModel::FieldNotSet(f@),
        }
    }
}

impl AppConfigError {
    /// A readable description of the error.
    pub fn message(&self) -> (r: String)
        ensures
            match self@ {
                ErrorModel::Parsing(f) => r@ == "ParseError: "@ + f,
                ErrorModel::Datastore => r@ == "Datastore error"@,
                ErrorModel::FieldNotSet(f) => r@ == "Field not set error: "@ + f,
            },
    {
        match self {
            AppConfigError::ParsingError(f) => {
                let mut m = "ParseError: ".to_owned();
                m.append(f.as_str());
                m
            },
            AppConfigError::DatastoreError => "Datastore error".to_owned(),
            AppConfigError::FieldNotSetError(f) => {
                let mut m = "Field not set error: ".to_owned();
                m.append(f.as_str());
                m
            },
        }
    }
}

} // verus!
