//! Why a request cannot be answered.

use vstd::prelude::*;

verus! {

/// Why a request cannot be answered.
#[derive(Clone, Copy, Debug, PartialEq, Eq, Structural)]
pub enum RequestError {
    /// The buffer is not valid UTF-8.
    MalformedUtf8,
    /// There is no request line, or it has fewer than two tokens.
    MalformedRequestLine,
    /// The route needs the `User-Agent` header and the request has none.
    MissingHeader,
    /// The route needs the directory of files and none is configured.
    MissingDirectory,
    /// The method is neither `GET` nor `POST`.
    UnsupportedMethod,
    /// An upload without the blank line that its body follows.
    MissingBody,
}

} // verus!
