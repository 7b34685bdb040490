pub mod addr;
pub mod buffer;
pub mod define;
pub mod helper;
pub mod local;
pub mod server;

pub use define::ErrCode;
pub use define::Ip;
