//! The error of the conversions.

use vstd::prelude::*;

verus! {

/// Why a body could not be converted.
#[derive(Debug)]
pub struct ProxyError {
    pub message: String,
}

} // verus!
