//! The outcomes that the gateway reports and the HTTP status of each.

use vstd::prelude::*;

verus! {

/// Status of a served listing or file.
pub const STATUS_OK: u16 = 200;

/// Status of a finished upload.
pub const STATUS_CREATED: u16 = 201;

/// Status of a finished delete.
pub const STATUS_NO_CONTENT: u16 = 204;

/// Status of the redirect to a built package.
pub const STATUS_SEE_OTHER: u16 = 303;

/// The ways in which a request can fail.
#[derive(Clone, Copy, Debug, PartialEq, Eq, Structural)]
pub enum Failure {
    /// Unknown category, missing path, unsupported build request, or a build
    /// that the device reported as failed.
    NotFound,
    /// A delete in a category that is not deletable, or of a category's root.
    Forbidden,
    /// An upload whose category is unknown or whose path is malformed.
    BadRequest,
    /// The device could not be reached or gave no usable answer.
    DependencyFailure,
    /// The device did not answer a build request in time.
    Timeout,
    /// The filesystem refused an operation.
    IoFailure,
}

impl Failure {
    /// The HTTP status of this failure.
    pub open spec fn code(self) -> u16 {
        match self {
            Failure::NotFound => 404,
            Failure::Forbidden => 403,
            Failure::BadRequest => 400,
            Failure::DependencyFailure => 424,
            Failure::Timeout => 504,
            Failure::IoFailure => 500,
        }
    }

    /// The HTTP status of this failure.
    pub fn status_code(self) -> (code: u16)
        ensures
            code == self.code(),
    {
        match self {
            Failure::NotFound => 404,
            Failure::Forbidden => 403,
            Failure::BadRequest => 400,
            Failure::DependencyFailure => 424,
            Failure::Timeout => 504,
            Failure::IoFailure => 500,
        }
    }
}

} // verus!
