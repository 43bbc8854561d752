//! What a trigger is answered with.

use vstd::prelude::*;

verus! {

/// Status of a trigger that was taken up, whatever became of its work.
pub const OK: u16 = 200;

/// Status of a trigger that no handler recognises.
pub const BAD_REQUEST: u16 = 400;

/// The acknowledgement handed back to whoever raised a trigger.
#[derive(Clone, Copy, Debug, PartialEq, Eq, Structural)]
pub struct Response {
    pub status_code: u16,
}

} // verus!
