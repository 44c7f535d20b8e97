//! The parameters of WMTS requests, as plain records.

use vstd::prelude::*;

verus! {

/// A request that only names its kind.
pub struct Request {
    pub request: String,
}

/// The parameters of a `GetTile` request.
pub struct GetTile {
    pub request: String,
    pub version: String,
    pub layer: String,
    pub style: String,
    pub format: String,
    pub tilematrixset: String,
    pub tilematrix: i32,
    pub tilerow: i32,
    pub tilecol: i32,
}

} // verus!
