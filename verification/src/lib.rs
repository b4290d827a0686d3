pub mod flag;
pub mod laws;
pub mod manifest;
pub mod num;
