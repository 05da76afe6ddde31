pub mod binary_io;
pub mod error;
pub mod coff;
pub mod text;
pub mod pe;
pub mod linker;
