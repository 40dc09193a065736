use vstd::prelude::*;

verus! {

/// Every failure the core can report. Allocation and capacity failures are
/// returned to the immediate caller and never abort; task-level parse and
/// socket failures are fatal to one task, never to the process.
#[derive(Clone, Copy, Debug, PartialEq, Eq, Structural)]
pub enum Error {
    /// The arena has too little free space for the requested size.
    Allocation,
    /// An array or map operation would exceed a fixed capacity.
    OutOfBounds,
    /// A static resource could not be loaded.
    FileNotFound,
    /// The socket could not be set up.
    Connect,
    /// The request line is missing a token.
    Parsing,
    /// The method token is neither `GET` nor `POST`.
    HttpMethod,
    /// The version token does not start with `HTTP/`.
    Protocol,
    /// The version is neither `1.0` nor `1.1`.
    HttpVersion,
}

} // verus!
