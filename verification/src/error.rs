use vstd::prelude::*;

verus! {

/// Code of an invalid request.
pub const INVALID: i32 = -32602;
/// Code of a request that the caller's authority does not cover.
pub const DENIED: i32 = -32001;
/// Code of a request that conflicts with recorded state.
pub const CONFLICT: i32 = -32002;
/// Code of a request that names something that does not exist.
pub const MISSING: i32 = -32004;
/// Code of a request that a limit refuses.
pub const EXHAUSTED: i32 = -32005;
/// Code of a failure of the host itself.
pub const INTERNAL: i32 = -32603;

/// The error of every fallible operation: a protocol code and a message.
#[derive(Debug)]
pub struct Error {
    pub code: i32,
    pub message: String,
}

impl Error {
    pub fn invalid(message: &str) -> (e: Error)
        ensures
            e.code == INVALID,
            e.message@ == message@,
    {
        Error { code: INVALID, message: message.to_owned() }
    }

    pub fn denied(message: &str) -> (e: Error)
        ensures
            e.code == DENIED,
            e.message@ == message@,
    {
        Error { code: DENIED, message: message.to_owned() }
    }

    pub fn conflict(message: &str) -> (e: Error)
        ensures
            e.code == CONFLICT,
            e.message@ == message@,
    {
        Error { code: CONFLICT, message: message.to_owned() }
    }

    pub fn missing(message: &str) -> (e: Error)
        ensures
            e.code == MISSING,
            e.message@ == message@,
    {
        Error { code: MISSING, message: message.to_owned() }
    }

    pub fn exhausted(message: &str) -> (e: Error)
        ensures
            e.code == EXHAUSTED,
            e.message@ == message@,
    {
        Error { code: EXHAUSTED, message: message.to_owned() }
    }

    pub fn internal(message: &str) -> (e: Error)
        ensures
            e.code == INTERNAL,
            e.message@ == message@,
    {
        Error { code: INTERNAL, message: message.to_owned() }
    }
}

/// The result of every fallible operation.
pub type Result<T> = core::result::Result<T, Error>;

} // verus!
