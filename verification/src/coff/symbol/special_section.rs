use vstd::prelude::*;

verus! {

/// An external symbol that is not defined here.
pub const UNDEFINED: u16 = 0;

/// An absolute value that needs no relocation.
pub const ABSOLUTE: u16 = 0xFFFF;

/// Debugging information.
pub const DEBUG: u16 = 0xFFFE;

} // verus!
