//! What a failed RPC method is answered with.
use jsonrpsee::types::ErrorObjectOwned;
use vstd::prelude::*;
use vstd::std_specs::convert::{FromSpec, FromSpecImpl};

verus! {

/// The error code of a failed runtime call.
pub const RUNTIME_ERROR: i32 = 1;

/// Error type of this RPC api.
#[derive(Debug)]
pub enum Error {
    /// The call to runtime failed.
    RuntimeError(String),
}

/// A JSON-RPC error object of the `jsonrpsee` crate.
#[verifier::external_type_specification]
#[verifier::external_body]
pub struct ExErrorObject<'a>(jsonrpsee::types::ErrorObject<'a>);

/// The error object with a code and a message, and without data.
pub uninterp spec fn error_object(code: i32, message: Seq<char>) -> ErrorObjectOwned;

/// `jsonrpsee::types::ErrorObject::owned` makes an error object of the code and
/// the message; there is no data to attach. What it makes depends on these two
/// alone.
#[verifier::external_body]
fn owned_error_object(code: i32, message: String) -> (object: ErrorObjectOwned)
    ensures
        object == error_object(code, message@),
{
    jsonrpsee::types::ErrorObject::owned(code, message, None::<()>)
}

impl From<Error> for ErrorObjectOwned {
    fn from(e: Error) -> (object: ErrorObjectOwned) {
        match e {
            Error::RuntimeError(message) => owned_error_object(RUNTIME_ERROR, message),
        }
    }
}

impl FromSpecImpl<Error> for ErrorObjectOwned {
    open spec fn obeys_from_spec() -> bool {
        true
    }

    open spec fn from_spec(e: Error) -> ErrorObjectOwned {
        match e {
            Error::RuntimeError(message) => error_object(RUNTIME_ERROR, message@),
        }
    }
}

impl From<Error> for i32 {
    fn from(e: Error) -> (code: i32) {
        match e {
            Error::RuntimeError(_) => RUNTIME_ERROR,
        }
    }
}

impl FromSpecImpl<Error> for i32 {
    open spec fn obeys_from_spec() -> bool {
        true
    }

    open spec fn from_spec(e: Error) -> i32 {
        RUNTIME_ERROR
    }
}

/// A failed runtime call is answered with the error code 1 and its message, and
/// converts to that code.
pub proof fn law_a_failed_call_has_code_one(message: String)
    ensures
        <ErrorObjectOwned as FromSpec<Error>>::from_spec(Error::RuntimeError(message))
            == error_object(1, message@),
        <i32 as FromSpec<Error>>::from_spec(Error::RuntimeError(message)) == 1,
        <ErrorObjectOwned as FromSpec<Error>>::obeys_from_spec(),
        <i32 as FromSpec<Error>>::obeys_from_spec(),
{
}

} // verus!
