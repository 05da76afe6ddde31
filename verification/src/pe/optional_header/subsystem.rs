use vstd::prelude::*;

verus! {

pub const WINDOWS_GUI: u16 = 2;

pub const WINDOWS_CUI: u16 = 3;

} // verus!
