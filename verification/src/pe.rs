pub mod dos_header;
pub mod optional_header;
pub mod pe_file;
pub mod pe_header;
