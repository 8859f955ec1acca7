//! What holds of the library as a whole.

pub mod accepting;
pub mod codec;
pub mod conversations;
pub mod ports;
pub mod protocol;
pub mod sharing;
pub mod sockets;
pub mod steps;
pub mod tables;
pub mod wire;
