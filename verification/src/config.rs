//! What a multiplexor is configured with.

use vstd::prelude::*;

verus! {

/// The limits of a multiplexor, and a name for its logs.
#[derive(Copy, Clone, Debug)]
pub struct StreamMultiplexorConfig {
    /// The largest frame, in encoded bytes and without its length prefix, that is sent or accepted.
    pub max_frame_size: usize,
    /// How many bytes are read from a stream at once.
    pub buf_size: usize,
    /// Tells the multiplexors of one process apart.
    pub identifier: &'static str,
}

impl Default for StreamMultiplexorConfig {
    /// Frames of up to 4 MiB, reads of up to 1 MiB, no identifier.
    fn default() -> (config: Self)
        ensures
            config.max_frame_size == 4 * 1024 * 1024,
            config.buf_size == 1024 * 1024,
            config.identifier@ == Seq::<char>::empty(),
    {
        proof {
            reveal_strlit("");
        }
        StreamMultiplexorConfig {
            max_frame_size: 4 * 1024 * 1024,
            buf_size: 1024 * 1024,
            identifier: "",
        }
    }
}

impl StreamMultiplexorConfig {
    /// The same configuration under another identifier.
    pub fn with_identifier(self, identifier: &'static str) -> (config: Self)
        ensures
            config.identifier == identifier,
            config.max_frame_size == self.max_frame_size,
            config.buf_size == self.buf_size,
    {
        StreamMultiplexorConfig {
            max_frame_size: self.max_frame_size,
            buf_size: self.buf_size,
            identifier,
        }
    }
}

} // verus!
