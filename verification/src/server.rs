pub mod cache;
pub mod protocol;
