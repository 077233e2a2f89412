pub mod cstr;
pub mod types;
pub mod manager;
