//! The core of a stream multiplexor: many streams over one stream, with `u16` ports in the
//! manner of TCP. The crate holds the wire format, the per-connection state machine, the port
//! tables and the decisions of the tasks that drive them; it performs no I/O itself.

pub mod action;
pub mod config;
pub mod error;
pub mod frame;
pub mod inner;
pub mod laws;
pub mod listener;
pub mod multiplexor;
pub mod outside;
pub mod socket;
pub mod text;
pub mod wire;

pub use action::Action;
pub use config::StreamMultiplexorConfig;
pub use error::{CodecError, Fault};
pub use frame::{read_body, Flag, Frame, FrameDecoder, FrameEncoder};
pub use inner::{
    Delivery, Farewell, ReaderAction, ReaderEvent, Reading, StateAction, StateEvent,
    StreamMultiplexorInner, WriterAction, WriterEvent,
};
pub use listener::MuxListener;
pub use multiplexor::{Dial, StreamMultiplexor};
pub use socket::{MuxSocket, PortState, StreamAction, StreamEvent};
