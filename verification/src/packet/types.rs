use vstd::prelude::*;
use crate::config::error::ConfigError;

verus! {

/// An instant in UTC, counted in microseconds since 1970-01-01T00:00:00Z.
pub type Timestamp = i64;

/// The largest payload, in bytes, that is accepted for transmission.
pub const MAX_FRAME_SIZE: usize = 1500;

/// One replay unit: a raw link-layer frame and the instant at which it was captured.
#[derive(Debug, PartialEq, Eq)]
pub struct CapturedFrame {
    pub captured_at: Timestamp,
    pub payload: Vec<u8>,
}

/// What a `CapturedFrame` stands for in contracts.
pub struct FrameView {
    pub captured_at: int,
    pub payload: Seq<u8>,
}

impl View for CapturedFrame {
    type V = FrameView;

    open spec fn view(&self) -> FrameView {
        FrameView { captured_at: self.captured_at as int, payload: self.payload@ }
    }
}

impl CapturedFrame {
    /// The frame with these bytes, captured at this instant.
    pub fn new(captured_at: Timestamp, payload: Vec<u8>) -> (frame: CapturedFrame)
        ensures
            frame@ == (FrameView { captured_at: captured_at as int, payload: payload@ }),
    {
        CapturedFrame { captured_at, payload }
    }

    /// A second frame with the same instant and the same bytes.
    pub fn duplicate(&self) -> (copy: CapturedFrame)
        ensures
            copy@ == self@,
    {
        let payload = self.payload.clone();
        assert(payload@ =~= self.payload@);
        CapturedFrame { captured_at: self.captured_at, payload }
    }
}

/// What a sequence of frames stands for in contracts.
pub open spec fn frame_views(frames: Seq<CapturedFrame>) -> Seq<FrameView> {
    frames.map_values(|frame: CapturedFrame| frame@)
}

/// Whether the frames are in the order of their capture, earliest first.
pub open spec fn ascending(frames: Seq<FrameView>) -> bool {
    forall|i: int, j: int|
        0 <= i <= j < frames.len() ==> frames[i].captured_at <= frames[j].captured_at
}

/// The bounds of a replay query. A frame lies in the range when
/// `start <= captured_at <= end`; the end is always after the start.
#[derive(Debug, Clone, Copy, PartialEq, Eq)]
pub struct TimeRange {
    start: Timestamp,
    end: Timestamp,
}

impl TimeRange {
    /// Whether the end is after the start, as it is in every range that was made.
    #[verifier::type_invariant]
    pub closed spec fn well_formed(self) -> bool {
        self.start < self.end
    }

    /// The earliest instant that lies in the range.
    pub closed spec fn start_at(self) -> int {
        self.start as int
    }

    /// The latest instant that lies in the range.
    pub closed spec fn end_at(self) -> int {
        self.end as int
    }

    /// A range is nothing but its two bounds.
    pub proof fn lemma_bounds(self, other: TimeRange)
        ensures
            self.well_formed() <==> self.start_at() < self.end_at(),
            self.start_at() == other.start_at() && self.end_at() == other.end_at() ==> self
                == other,
    {
    }

    /// Whether an instant lies within the bounds, both included.
    pub open spec fn covers(self, instant: int) -> bool {
        self.start_at() <= instant <= self.end_at()
    }

    /// Accepts the bounds when the end is after the start, and refuses them otherwise.
    pub fn new(start: Timestamp, end: Timestamp) -> (made: Result<TimeRange, ConfigError>)
        ensures
            match made {
                Ok(range) => start < end && range.start_at() == start && range.end_at() == end,
                Err(refusal) => start >= end && refusal == ConfigError::InvalidDateOrder(
                    start,
                    end,
                ),
            },
    {
        if start < end {
            Ok(TimeRange { start, end })
        } else {
            Err(ConfigError::InvalidDateOrder(start, end))
        }
    }

    /// The earliest instant that lies in the range.
    pub fn start(&self) -> (at: Timestamp)
        ensures
            at == self.start_at(),
            at < self.end_at(),
    {
        proof {
            use_type_invariant(self);
        }
        self.start
    }

    /// The latest instant that lies in the range.
    pub fn end(&self) -> (at: Timestamp)
        ensures
            at == self.end_at(),
            at > self.start_at(),
    {
        proof {
            use_type_invariant(self);
        }
        self.end
    }

    /// Whether `instant` lies within the bounds, both included.
    pub fn contains(&self, instant: Timestamp) -> (inside: bool)
        ensures
            inside == self.covers(instant as int),
    {
        self.start <= instant && instant <= self.end
    }
}

/// What a replay run reports: how many frames were handed to the transmitter,
/// and how many of them it delivered or dropped.
#[derive(Debug, Clone, Copy, PartialEq, Eq, Structural)]
pub struct ReplaySummary {
    pub attempted: usize,
    pub sent: usize,
    pub failed: usize,
}

impl ReplaySummary {
    /// Every frame that was attempted was either sent or dropped.
    pub open spec fn balanced(self) -> bool {
        self.sent + self.failed == self.attempted
    }
}

} // verus!
