use vstd::prelude::*;

verus! {

/// Intel 386 and compatibles.
pub const I386: u16 = 0x014c;

} // verus!
