use vstd::prelude::*;
use crate::packet::reader::error::PacketReaderError;
use crate::packet::types::MAX_FRAME_SIZE;

verus! {

/// What is known of the link when the next step of a transmission is decided.
#[derive(Debug, PartialEq, Eq)]
pub enum LinkEvent {
    /// Nothing has been asked of the interface yet.
    Ready,
    /// The interface opened an Ethernet channel, or one is open from an
    /// earlier transmission and can be used again.
    ChannelOpened,
    /// The interface opened a channel of another kind.
    ChannelUnsupported,
    /// The interface could not open a channel.
    ChannelFailed(String),
    /// The channel took the frame.
    Sent,
    /// The channel refused the frame.
    SendFailed(String),
    /// The channel had no destination to send to.
    NoDestination,
}

/// What to do next for one frame.
#[derive(Debug, PartialEq, Eq)]
pub enum SendStep {
    /// Open a transmit channel on the interface and report what came of it.
    OpenChannel,
    /// Hand the payload to the open channel and report what came of it.
    Transmit,
    /// Nothing is left to do; the transmission ended this way.
    Done(Result<(), PacketReaderError>),
}

/// The diagnostic of a channel that knows no destination.
pub const NO_DESTINATION: &'static str = "宛先が指定されていません";

/// Whether `step` is the step that follows `link` for a payload of `len` bytes.
///
/// A payload over the limit is refused before anything else is looked at.
/// Otherwise a channel is opened, the payload is handed to it, and whatever
/// goes wrong on the way ends the transmission with the matching error.
pub open spec fn follows(len: nat, link: LinkEvent, step: SendStep) -> bool {
    if len > MAX_FRAME_SIZE {
        step == SendStep::Done(
            Err(PacketReaderError::FrameTooLarge(len as usize, MAX_FRAME_SIZE)),
        )
    } else {
        match link {
            LinkEvent::Ready => step == SendStep::OpenChannel,
            LinkEvent::ChannelOpened => step == SendStep::Transmit,
            LinkEvent::ChannelUnsupported => step == SendStep::Done(
                Err(PacketReaderError::UnsupportedChannelType),
            ),
            LinkEvent::ChannelFailed(why) => step == SendStep::Done(
                Err(PacketReaderError::NetworkError(why)),
            ),
            LinkEvent::Sent => step == SendStep::Done(Ok(())),
            LinkEvent::SendFailed(why) => step == SendStep::Done(
                Err(PacketReaderError::SendError(why)),
            ),
            LinkEvent::NoDestination => {
                &&& step matches SendStep::Done(Err(PacketReaderError::SendError(why)))
                &&& why@ == NO_DESTINATION@
            },
        }
    }
}

/// Delivers one raw frame onto one interface, one step at a time.
pub struct PacketSender;

impl PacketSender {
    /// The longest payload that is handed to the link.
    pub const MAX_PACKET_SIZE: usize = MAX_FRAME_SIZE;

    /// Decides the next step for `raw_packet`, given what the link reported last.
    ///
    /// A payload over the limit ends at once with `FrameTooLarge`, whatever
    /// the link reported, so the link is never asked to carry it.
    pub fn send_packet(raw_packet: &Vec<u8>, link: LinkEvent) -> (step: SendStep)
        ensures
            follows(raw_packet@.len(), link, step),
    {
        if raw_packet.len() > MAX_FRAME_SIZE {
            return SendStep::Done(
                Err(PacketReaderError::FrameTooLarge(raw_packet.len(), MAX_FRAME_SIZE)),
            );
        }
        match link {
            LinkEvent::Ready => SendStep::OpenChannel,
            LinkEvent::ChannelOpened => SendStep::Transmit,
            LinkEvent::ChannelUnsupported => SendStep::Done(
                Err(PacketReaderError::UnsupportedChannelType),
            ),
            LinkEvent::ChannelFailed(why) => SendStep::Done(
                Err(PacketReaderError::NetworkError(why)),
            ),
            LinkEvent::Sent => SendStep::Done(Ok(())),
            LinkEvent::SendFailed(why) => SendStep::Done(Err(PacketReaderError::SendError(why))),
            LinkEvent::NoDestination => SendStep::Done(
                Err(PacketReaderError::SendError(NO_DESTINATION.to_owned())),
            ),
        }
    }
}

} // verus!
