use vstd::prelude::*;
use crate::packet::reader::error::PacketReaderError;
use crate::packet::types::{ascending, frame_views, CapturedFrame, FrameView, ReplaySummary};

verus! {

/// Whether a frame captured at `instant` is dispatched together with the frame
/// captured at `anchor`: it is not later, or later by less than `resolution`.
pub open spec fn coalesces(anchor: int, instant: int, resolution: int) -> bool {
    instant <= anchor || instant - anchor < resolution
}

/// Whether `frames[first..end]` is a wave: a longest run of consecutive frames
/// that all coalesce with its first frame.
pub open spec fn is_wave(frames: Seq<FrameView>, resolution: int, first: int, end: int) -> bool {
    &&& 0 <= first < end <= frames.len()
    &&& forall|k: int|
        first <= k < end ==> coalesces(
            frames[first].captured_at,
            #[trigger] frames[k].captured_at,
            resolution,
        )
    &&& end < frames.len() ==> !coalesces(
        frames[first].captured_at,
        frames[end].captured_at,
        resolution,
    )
}

/// How long after the start of the replay `frames[k]` is due, in microseconds:
/// as long as it was captured after the first frame.
pub open spec fn due_offset(frames: Seq<FrameView>, k: int) -> int {
    if frames[k].captured_at > frames[0].captured_at {
        frames[k].captured_at - frames[0].captured_at
    } else {
        0
    }
}

/// How long to wait for something due at `due` when `elapsed` has passed:
/// the time that is left, and nothing when the moment has gone by.
pub open spec fn wait_for(due: int, elapsed: int) -> int {
    if due > elapsed {
        due - elapsed
    } else {
        0
    }
}

/// How many of the first `count` frames of a wave have no success among `outcomes`.
/// A frame without an outcome counts as dropped.
pub open spec fn failures(outcomes: Seq<Result<(), PacketReaderError>>, count: int) -> int
    decreases count,
{
    if count <= 0 {
        0
    } else {
        failures(outcomes, count - 1) + if count - 1 < outcomes.len() && outcomes[count - 1] is Ok {
            0int
        } else {
            1int
        }
    }
}

/// What a `Pacer` stands for in contracts.
pub struct PacerView {
    /// The frames to replay, in the order in which they are dispatched.
    pub frames: Seq<FrameView>,
    /// The coalescing tolerance, in microseconds.
    pub resolution: int,
    /// How many frames have been dispatched and accounted for.
    pub next: int,
    /// How many of those were dropped.
    pub failed: int,
}

impl PacerView {
    /// Whether the counts fit the frames: no more were dropped than were
    /// dispatched, and no more dispatched than there are.
    pub open spec fn well_formed(self) -> bool {
        0 <= self.failed <= self.next <= self.frames.len() && 0 <= self.resolution
    }

    /// The state before anything was dispatched.
    pub open spec fn fresh(frames: Seq<FrameView>, resolution: int) -> PacerView {
        PacerView { frames, resolution, next: 0, failed: 0 }
    }

    /// Whether every frame has been dispatched.
    pub open spec fn finished(self) -> bool {
        self.next == self.frames.len()
    }

    /// The counts so far.
    pub open spec fn summary(self) -> ReplaySummary {
        ReplaySummary {
            attempted: self.next as usize,
            sent: (self.next - self.failed) as usize,
            failed: self.failed as usize,
        }
    }
}

/// What a `Wave` stands for in contracts.
pub struct WaveView {
    /// The pacer as it was when the wave was formed.
    pub pacer: PacerView,
    /// The wave is `pacer.frames[pacer.next..end]`.
    pub end: int,
    /// How long to wait before the wave is dispatched, in microseconds.
    pub delay: int,
}

impl WaveView {
    /// The frames of the wave.
    pub open spec fn frames(self) -> Seq<FrameView> {
        self.pacer.frames.subrange(self.pacer.next, self.end)
    }

    /// The pacer after the wave was dispatched with these outcomes.
    pub open spec fn completed(self, outcomes: Seq<Result<(), PacketReaderError>>) -> PacerView {
        PacerView {
            next: self.end,
            failed: self.pacer.failed + failures(outcomes, self.end - self.pacer.next),
            ..self.pacer
        }
    }
}

/// Hands out the frames of a replay wave by wave and keeps count.
///
/// The first frame anchors the schedule: a frame captured `d` microseconds
/// after the first is due `d` microseconds after the replay began.
pub struct Pacer {
    frames: Vec<CapturedFrame>,
    resolution: u64,
    next: usize,
    failed: usize,
}

/// A wave that has been formed and whose transmissions are awaited.
pub struct Wave {
    pacer: Pacer,
    end: usize,
    delay: u64,
}

/// What the pacer asks for next.
pub enum PacerStep {
    /// Wait for the wave's delay, send all its frames at once, then report the outcomes.
    Dispatch(Wave),
    /// All frames were dispatched; these are the final counts.
    Finished(ReplaySummary),
}

impl View for Pacer {
    type V = PacerView;

    closed spec fn view(&self) -> PacerView {
        PacerView {
            frames: frame_views(self.frames@),
            resolution: self.resolution as int,
            next: self.next as int,
            failed: self.failed as int,
        }
    }
}

impl View for Wave {
    type V = WaveView;

    closed spec fn view(&self) -> WaveView {
        WaveView { pacer: self.pacer@, end: self.end as int, delay: self.delay as int }
    }
}

impl Pacer {
    #[verifier::type_invariant]
    closed spec fn inv(self) -> bool {
        self.failed <= self.next <= self.frames.len()
    }

    /// A pacer for `frames`, which coalesces frames captured less than
    /// `resolution_micros` after the first frame of their wave.
    pub fn new(frames: Vec<CapturedFrame>, resolution_micros: u64) -> (pacer: Pacer)
        ensures
            pacer@ == PacerView::fresh(frame_views(frames@), resolution_micros as int),
    {
        Pacer { frames, resolution: resolution_micros, next: 0, failed: 0 }
    }

    /// The counts so far.
    pub fn summary(&self) -> (counts: ReplaySummary)
        ensures
            self@.well_formed(),
            counts == self@.summary(),
            counts.balanced(),
    {
        proof {
            use_type_invariant(self);
        }
        ReplaySummary {
            attempted: self.next,
            sent: self.next - self.failed,
            failed: self.failed,
        }
    }

    /// Forms the next wave, `elapsed_micros` after the replay began.
    ///
    /// When frames are left, the wave starts at the first of them and its
    /// delay is the time until that frame is due, or nothing if it is overdue.
    /// When none is left, the final counts are returned.
    pub fn next_wave(self, elapsed_micros: u64) -> (step: PacerStep)
        ensures
            self@.well_formed(),
            match step {
                PacerStep::Finished(counts) => self@.finished() && counts == self@.summary()
                    && counts.balanced(),
                PacerStep::Dispatch(wave) => {
                    &&& !self@.finished()
                    &&& wave@.pacer == self@
                    &&& is_wave(self@.frames, self@.resolution, self@.next, wave@.end)
                    &&& wave@.delay == wait_for(
                        due_offset(self@.frames, self@.next),
                        elapsed_micros as int,
                    )
                    &&& wave@ == self@.wave_at(elapsed_micros as int)
                },
            },
    {
        proof {
            use_type_invariant(&self);
        }
        let total = self.frames.len();
        if self.next == total {
            return PacerStep::Finished(self.summary());
        }
        let first = self.next;
        let anchor = self.frames[first].captured_at;
        let ghost views = frame_views(self.frames@);
        let mut end = first + 1;
        while end < total && joins(anchor, self.frames[end].captured_at, self.resolution)
            invariant
                first < end <= total,
                total == self.frames.len(),
                views == frame_views(self.frames@),
                anchor == views[first as int].captured_at,
                forall|k: int|
                    first <= k < end ==> coalesces(
                        anchor as int,
                        #[trigger] views[k].captured_at,
                        self.resolution as int,
                    ),
            decreases total - end,
        {
            end = end + 1;
        }
        proof {
            assert(is_wave(views, self.resolution as int, first as int, end as int));
            lemma_wave_exists_once(views, self.resolution as int, first as int);
        }
        let due = offset_after(self.frames[0].captured_at, anchor);
        let delay = if due > elapsed_micros {
            due - elapsed_micros
        } else {
            0
        };
        PacerStep::Dispatch(Wave { pacer: self, end, delay })
    }
}

/// Whether `instant` coalesces with `anchor`.
fn joins(anchor: i64, instant: i64, resolution: u64) -> (together: bool)
    ensures
        together == coalesces(anchor as int, instant as int, resolution as int),
{
    instant <= anchor || (instant as i128 - anchor as i128) < resolution as i128
}

/// How long after `origin` the instant `at` lies, in microseconds; nothing if it is not later.
fn offset_after(origin: i64, at: i64) -> (offset: u64)
    ensures
        offset == if at > origin {
            at - origin
        } else {
            0
        },
{
    if at > origin {
        (at as i128 - origin as i128) as u64
    } else {
        0
    }
}

impl Wave {
    #[verifier::type_invariant]
    closed spec fn inv(self) -> bool {
        &&& self.pacer.inv()
        &&& self.pacer.next < self.end <= self.pacer.frames.len()
    }

    /// How long to wait before the wave is dispatched, in microseconds.
    pub fn delay_micros(&self) -> (delay: u64)
        ensures
            delay == self@.delay,
    {
        self.delay
    }

    /// How many frames the wave holds.
    pub fn len(&self) -> (count: usize)
        ensures
            count == self@.end - self@.pacer.next,
            count > 0,
    {
        proof {
            use_type_invariant(self);
        }
        self.end - self.pacer.next
    }

    /// The `k`-th frame of the wave, if it has that many.
    pub fn frame(&self, k: usize) -> (found: Option<&CapturedFrame>)
        ensures
            k < self@.frames().len() ==> found is Some && found->Some_0@ == self@.frames()[k as int],
            k >= self@.frames().len() ==> found is None,
            self@.frames().len() == self@.end - self@.pacer.next,
    {
        proof {
            use_type_invariant(self);
        }
        if k < self.end - self.pacer.next {
            Some(&self.pacer.frames[self.pacer.next + k])
        } else {
            None
        }
    }

    /// Accounts for the wave once all its transmissions have ended.
    ///
    /// `outcomes[k]` is what became of the `k`-th frame of the wave. A frame
    /// whose outcome is missing or an error counts as dropped; the others
    /// count as sent. The pacer then stands behind the wave.
    pub fn complete(self, outcomes: &Vec<Result<(), PacketReaderError>>) -> (pacer: Pacer)
        ensures
            pacer@ == self@.completed(outcomes@),
            pacer@.well_formed(),
    {
        proof {
            use_type_invariant(&self);
        }
        let count = self.end - self.pacer.next;
        let mut dropped: usize = 0;
        let mut k: usize = 0;
        while k < count
            invariant
                k <= count,
                dropped == failures(outcomes@, k as int),
                dropped <= k,
            decreases count - k,
        {
            let delivered = k < outcomes.len() && outcomes[k].is_ok();
            if !delivered {
                dropped = dropped + 1;
            }
            k = k + 1;
        }
        let Wave { pacer, end, delay: _ } = self;
        let Pacer { frames, resolution, next: _, failed } = pacer;
        Pacer { frames, resolution, next: end, failed: failed + dropped }
    }
}

impl PacerView {
    /// Where the wave that starts at the first frame not yet dispatched ends.
    pub open spec fn wave_end(self) -> int {
        choose|end: int| is_wave(self.frames, self.resolution, self.next, end)
    }

    /// The wave that `next_wave` forms in this state when `elapsed` microseconds have passed.
    pub open spec fn wave_at(self, elapsed: int) -> WaveView {
        WaveView {
            pacer: self,
            end: self.wave_end(),
            delay: wait_for(due_offset(self.frames, self.next), elapsed),
        }
    }
}

/// A run of frames that coalesce with `frames[first]` can be extended to a wave.
proof fn lemma_wave_from(frames: Seq<FrameView>, resolution: int, first: int, upto: int)
    requires
        0 <= first < upto <= frames.len(),
        forall|k: int|
            first <= k < upto ==> coalesces(
                frames[first].captured_at,
                #[trigger] frames[k].captured_at,
                resolution,
            ),
    ensures
        exists|end: int| is_wave(frames, resolution, first, end),
    decreases frames.len() - upto,
{
    if upto < frames.len() && coalesces(
        frames[first].captured_at,
        frames[upto].captured_at,
        resolution,
    ) {
        lemma_wave_from(frames, resolution, first, upto + 1);
    } else {
        assert(is_wave(frames, resolution, first, upto));
    }
}

/// Every frame starts exactly one wave: there is an end, and only one.
pub proof fn lemma_wave_exists_once(frames: Seq<FrameView>, resolution: int, first: int)
    requires
        0 <= first < frames.len(),
    ensures
        exists|end: int| is_wave(frames, resolution, first, end),
        forall|a: int, b: int|
            is_wave(frames, resolution, first, a) && is_wave(frames, resolution, first, b) ==> a
                == b,
{
    lemma_wave_from(frames, resolution, first, first + 1);
    assert forall|a: int, b: int|
        is_wave(frames, resolution, first, a) && is_wave(
            frames,
            resolution,
            first,
            b,
        ) implies a == b by {
        if a < b {
            assert(coalesces(frames[first].captured_at, frames[a].captured_at, resolution));
        } else if b < a {
            assert(coalesces(frames[first].captured_at, frames[b].captured_at, resolution));
        }
    }
}

/// With nothing to replay the pacer is finished at once and reports that
/// nothing was attempted, sent or dropped.
pub proof fn lemma_nothing_to_replay(frames: Seq<FrameView>, resolution: int)
    requires
        frames.len() == 0,
    ensures
        PacerView::fresh(frames, resolution).finished(),
        PacerView::fresh(frames, resolution).summary() == (ReplaySummary {
            attempted: 0,
            sent: 0,
            failed: 0,
        }),
{
}

/// A wave is dispatched when its first frame is due, or at once if that
/// moment has passed: never earlier, and never with a negative wait.
pub proof fn lemma_dispatch_on_schedule(pacer: PacerView, elapsed: int)
    requires
        pacer.well_formed(),
        !pacer.finished(),
        0 <= elapsed,
    ensures
        pacer.wave_at(elapsed).delay >= 0,
        elapsed + pacer.wave_at(elapsed).delay == if elapsed < due_offset(
            pacer.frames,
            pacer.next,
        ) {
            due_offset(pacer.frames, pacer.next)
        } else {
            elapsed
        },
        ascending(pacer.frames) ==> due_offset(pacer.frames, pacer.next)
            == pacer.frames[pacer.next].captured_at - pacer.frames[0].captured_at,
{
}

/// In a sequence ordered by capture, later frames are never due earlier.
pub proof fn lemma_due_in_order(frames: Seq<FrameView>, i: int, j: int)
    requires
        ascending(frames),
        0 <= i <= j < frames.len(),
    ensures
        due_offset(frames, i) <= due_offset(frames, j),
{
}

/// In a sequence ordered by capture, two frames captured at the same instant
/// are dispatched in the same wave: the wave that holds the earlier of the
/// two holds the other as well.
pub proof fn lemma_same_instant_same_wave(
    frames: Seq<FrameView>,
    resolution: int,
    first: int,
    end: int,
    i: int,
    j: int,
)
    requires
        ascending(frames),
        is_wave(frames, resolution, first, end),
        first <= i < end,
        i <= j < frames.len(),
        frames[i].captured_at == frames[j].captured_at,
    ensures
        j < end,
{
    if j >= end {
        assert(frames[i].captured_at <= frames[end].captured_at);
        assert(frames[end].captured_at <= frames[j].captured_at);
        assert(coalesces(frames[first].captured_at, frames[i].captured_at, resolution));
    }
}

} // verus!
