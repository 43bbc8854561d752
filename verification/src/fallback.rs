//! The handler of last resort.

use crate::response::{Response, BAD_REQUEST};
use vstd::prelude::*;

verus! {

/// Answers a trigger that no handler recognises: a client error, and nothing
/// else happens.
pub fn default() -> (response: Response)
    ensures
        response.status_code == BAD_REQUEST,
{
    Response { status_code: BAD_REQUEST }
}

} // verus!
