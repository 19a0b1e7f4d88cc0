//! Process exit codes.
use vstd::prelude::*;

verus! {

pub const SUCCESS: i32 = 0;
pub const OPERATIONAL: i32 = 1;
pub const VALIDATION: i32 = 2;
pub const PENDING_CHANGES: i32 = 3;

} // verus!
