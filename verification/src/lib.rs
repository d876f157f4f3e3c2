//! A logger that sends its messages to remote addresses, the protocol that
//! frames those messages, and a monitor that receives them.

pub mod address;
pub mod frame;
pub mod io_error;
pub mod level;
pub mod logger;
pub mod monitor;
pub mod protocol;
pub mod text;
