//! Indices into the data directory table.
use vstd::prelude::*;

verus! {

pub const EXPORT: usize = 0;

pub const IMPORT: usize = 1;

pub const RESOURCE: usize = 2;

pub const BASE_RELOCATION: usize = 5;

pub const IAT: usize = 12;

} // verus!
