use vstd::prelude::*;

verus! {

pub const EXTERNAL: u8 = 2;

pub const STATIC: u8 = 3;

pub const FUNCTION: u8 = 101;

pub const FILE: u8 = 103;

} // verus!
