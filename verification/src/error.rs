use vstd::prelude::*;

verus! {

/// The kinds of failure an operation can report: a path that does not
/// resolve, a request of the wrong shape or kind, a name collision on
/// create, a permission refusal, a missing or invalid bearer token, and
/// an internal failure (an uninitialized store).
#[derive(Clone, Copy, Debug, PartialEq, Eq, Structural)]
pub enum FsError {
    NotFound,
    Invalid,
    Duplicate,
    Denied,
    Unauthenticated,
    Internal,
}

impl FsError {
    /// The HTTP status this error maps to.
    pub open spec fn spec_status(self) -> u16 {
        match self {
            FsError::NotFound => 404,
            FsError::Invalid => 400,
            FsError::Duplicate => 409,
            FsError::Denied => 403,
            FsError::Unauthenticated => 401,
            FsError::Internal => 500,
        }
    }

    /// Map an error kind to its HTTP status code.
    pub fn http_status(self) -> (r: u16)
        ensures
            r == self.spec_status(),
    {
        match self {
            FsError::NotFound => 404,
            FsError::Invalid => 400,
            FsError::Duplicate => 409,
            FsError::Denied => 403,
            FsError::Unauthenticated => 401,
            FsError::Internal => 500,
        }
    }

    /// A short human-readable description.
    pub fn message(self) -> String {
        match self {
            FsError::NotFound => "not found".to_owned(),
            FsError::Invalid => "Invalid request".to_owned(),
            FsError::Duplicate => "already exists".to_owned(),
            FsError::Denied => "Permission denied".to_owned(),
            FsError::Unauthenticated => "Invalid token".to_owned(),
            FsError::Internal => "Internal error".to_owned(),
        }
    }
}

} // verus!
