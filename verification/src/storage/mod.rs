pub mod backend;
pub mod parts;
pub mod table;
