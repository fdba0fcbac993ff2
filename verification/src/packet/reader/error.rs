use vstd::prelude::*;

verus! {

/// Why a frame was not delivered, or why a replay run was given up.
///
/// The texts are diagnostics taken over from the layer that failed; nothing
/// in the engine reads them.
#[derive(Debug, PartialEq, Eq)]
pub enum PacketReaderError {
    /// The interface gave no transmit channel.
    NetworkError(String),
    /// The interface has a channel, but not one that carries Ethernet frames.
    UnsupportedChannelType,
    /// The link layer did not take the frame.
    SendError(String),
    /// The store could not answer, so there is nothing to replay.
    ConfigurationError(String),
    /// The payload is longer than the link carries; holds its length, then the limit.
    FrameTooLarge(usize, usize),
}

} // verus!
