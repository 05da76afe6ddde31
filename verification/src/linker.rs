pub mod dll;
pub mod import;
pub mod name_map;
pub mod options;
pub mod output;
pub mod relocation;
pub mod section;
pub mod symbol;
