//! Errors that flattening can end in.

use serde_json::Error as JsonError;
use vstd::prelude::*;

verus! {

/// `serde_json::Error`, opaque to the verifier.
#[verifier::external_type_specification]
#[verifier::external_body]
pub struct ExJsonError(JsonError);

/// Errors that can happen while flattening.
#[derive(Debug)]
pub enum Error {
    /// The value handed to the flattener is not an object.
    FirstLevelMustBeAnObject,
    /// Two values of the input would end at this same key.
    KeyWillBeOverwritten(String),
    /// An error of the JSON library, passed on as it came.
    SerdeJson(JsonError),
}

/// An error as a mathematical value.
pub enum ErrorView {
    FirstLevelMustBeAnObject,
    KeyWillBeOverwritten(Seq<char>),
    SerdeJson,
}

impl View for Error {
    type V = ErrorView;

    open spec fn view(&self) -> ErrorView {
        match self {
            Error::FirstLevelMustBeAnObject => ErrorView::FirstLevelMustBeAnObject,
            Error::KeyWillBeOverwritten(key) => ErrorView::KeyWillBeOverwritten(key@),
            Error::SerdeJson(_) => ErrorView::SerdeJson,
        }
    }
}

/// `ToString::to_string` of a `serde_json::Error`: its message, of which
/// nothing is stated here.
#[verifier::external_body]
fn json_error_message(error: &JsonError) -> (r: String) {
    error.to_string()
}

impl Error {
    /// What the error says: for an error of the JSON library, the message of
    /// that error.
    pub fn message(&self) -> (r: String)
        ensures
            self is FirstLevelMustBeAnObject ==> r@ == "Only objects can be flattened"@,
            self matches Error::KeyWillBeOverwritten(key) ==> r@
                == "Flattening the object will overwrite the key '"@ + key@ + "'"@,
    {
        match self {
            Error::FirstLevelMustBeAnObject => "Only objects can be flattened".to_owned(),
            Error::KeyWillBeOverwritten(key) => {
                let mut text = "Flattening the object will overwrite the key '".to_owned();
                text.append(key.as_str());
                text.append("'");
                text
            },
            Error::SerdeJson(error) => json_error_message(error),
        }
    }
}

impl From<JsonError> for Error {
    fn from(source: JsonError) -> (r: Error) {
        Error::SerdeJson(source)
    }
}

impl vstd::std_specs::convert::FromSpecImpl<JsonError> for Error {
    open spec fn obeys_from_spec() -> bool {
        true
    }

    open spec fn from_spec(source: JsonError) -> Error {
        Error::SerdeJson(source)
    }
}

} // verus!
