//! Bit flags of a section's `characteristics`.
use vstd::prelude::*;

verus! {

pub const CONTAINS_CODE: u32 = 0x0000_0020;

pub const CONTAINS_INITIALIZED_DATA: u32 = 0x0000_0040;

pub const CONTAINS_UNINITIALIZED_DATA: u32 = 0x0000_0080;

pub const LINK_INFO: u32 = 0x0000_0200;

pub const LINK_REMOVE: u32 = 0x0000_0800;

pub const CAN_EXECUTE: u32 = 0x2000_0000;

pub const CAN_READ: u32 = 0x4000_0000;

pub const CAN_WRITE: u32 = 0x8000_0000;

} // verus!
