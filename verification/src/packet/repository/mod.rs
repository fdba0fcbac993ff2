pub mod packet_repository;

pub use packet_repository::{
    covered_by, first_of, frames_of, is_extent, is_slot, pending_for, rows_ascending,
    select_pending, select_range, NodeId, PacketRepository, StoredFrame, StoredFrameView,
};
