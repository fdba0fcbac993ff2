pub mod error;
pub mod pacer;
pub mod packet_reader;
pub mod packet_sender;

pub use error::PacketReaderError;
pub use pacer::{Pacer, PacerStep, PacerView, Wave, WaveView};
pub use packet_reader::{
    LiveTail, PacketReader, TailAction, TailConfig, TailEvent, TailState, DEFAULT_BACKOFF_MILLIS,
    DEFAULT_BATCH_LIMIT, DEFAULT_POLL_INTERVAL_MILLIS,
};
pub use packet_sender::{LinkEvent, PacketSender, SendStep, NO_DESTINATION};
