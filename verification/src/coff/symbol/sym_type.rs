use vstd::prelude::*;

verus! {

pub const IS_FUNCTION: u16 = 0x20;

} // verus!
