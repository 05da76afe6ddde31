pub mod file_header;
pub mod object_file;
pub mod section_header;
pub mod symbol;
