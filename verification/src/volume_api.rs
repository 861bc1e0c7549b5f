//! Bodies of the manager's volume endpoints.

use vstd::prelude::*;

verus! {

/// A volume operation that succeeded, with what was done.
#[derive(Debug, Clone, PartialEq, Eq)]
pub struct OkResponse {
    pub message: String,
}

} // verus!
