pub mod reader;
pub mod repository;
pub mod types;

pub use types::{
    ascending, frame_views, CapturedFrame, FrameView, ReplaySummary, TimeRange, Timestamp,
    MAX_FRAME_SIZE,
};
