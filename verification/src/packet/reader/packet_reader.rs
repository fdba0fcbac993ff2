use vstd::prelude::*;
use crate::database::error::DatabaseError;
use crate::packet::reader::error::PacketReaderError;
use crate::packet::reader::pacer::{failures, lemma_wave_exists_once, Pacer, PacerView};
use crate::packet::repository::packet_repository::{
    select_range, NodeId, PacketRepository, StoredFrameView,
};
use crate::packet::types::{ascending, CapturedFrame, FrameView, ReplaySummary, TimeRange};

verus! {

/// The top-level driver of a replay: it begins a bounded run over a time
/// range, and it decides the steps of the continuous live tail.
pub struct PacketReader;

impl PacketReader {
    /// Begins the replay of the frames that `range` selects.
    ///
    /// `store` is the repository as it was loaded, or the failure that kept
    /// it from being loaded. A failure gives the run up and is handed on with
    /// its diagnostic. Otherwise the selected frames, earliest first, go to a
    /// pacer that has dispatched nothing yet; a range that selects nothing
    /// gives a pacer that is finished from the start.
    pub fn replay_packets(
        store: Result<&PacketRepository, DatabaseError>,
        range: &TimeRange,
        resolution_micros: u64,
    ) -> (begun: Result<Pacer, PacketReaderError>)
        ensures
            match store {
                Ok(repository) => {
                    &&& begun matches Ok(pacer)
                    &&& pacer@ == PacerView::fresh(
                        select_range(repository@, *range),
                        resolution_micros as int,
                    )
                    &&& ascending(pacer@.frames)
                },
                Err(failure) => {
                    &&& begun matches Err(PacketReaderError::ConfigurationError(text))
                    &&& failure.described_by(text)
                },
            },
    {
        match store {
            Ok(repository) => {
                let frames = repository.get_packets_in_timerange(range);
                Ok(Pacer::new(frames, resolution_micros))
            },
            Err(failure) => Err(PacketReaderError::ConfigurationError(failure.diagnostic())),
        }
    }
}

/// What a transmitter that answers by the frame alone makes of each frame of a wave.
pub open spec fn wave_outcomes(
    wave: Seq<FrameView>,
    transmitter: spec_fn(FrameView) -> Result<(), PacketReaderError>,
) -> Seq<Result<(), PacketReaderError>> {
    wave.map_values(transmitter)
}

/// The counts with which a replay ends when it goes on from `pacer`, reads
/// `clock(n)` as the time elapsed once `n` frames are dispatched, and has
/// every frame answered by `transmitter`: wave after wave is formed as
/// `Pacer::next_wave` forms it and accounted for as `Wave::complete` does,
/// until no frame is left.
pub open spec fn replay_outcome(
    pacer: PacerView,
    clock: spec_fn(int) -> int,
    transmitter: spec_fn(FrameView) -> Result<(), PacketReaderError>,
) -> ReplaySummary
    decreases pacer.frames.len() - pacer.next,
    via replay_outcome_ends
{
    if pacer.well_formed() && !pacer.finished() {
        let wave = pacer.wave_at(clock(pacer.next));
        replay_outcome(wave.completed(wave_outcomes(wave.frames(), transmitter)), clock, transmitter)
    } else {
        pacer.summary()
    }
}

#[via_fn]
proof fn replay_outcome_ends(
    pacer: PacerView,
    clock: spec_fn(int) -> int,
    transmitter: spec_fn(FrameView) -> Result<(), PacketReaderError>,
) {
    if pacer.well_formed() && !pacer.finished() {
        lemma_wave_exists_once(pacer.frames, pacer.resolution, pacer.next);
    }
}

/// How many of `frames` a transmitter drops.
pub open spec fn dropped_by(
    frames: Seq<FrameView>,
    transmitter: spec_fn(FrameView) -> Result<(), PacketReaderError>,
) -> int {
    failures(wave_outcomes(frames, transmitter), frames.len() as int)
}

/// Counting the drops among the first `count` outcomes looks at those outcomes only.
proof fn lemma_failures_of_prefix(
    whole: Seq<Result<(), PacketReaderError>>,
    part: Seq<Result<(), PacketReaderError>>,
    count: int,
)
    requires
        0 <= count <= part.len() <= whole.len(),
        forall|k: int| 0 <= k < count ==> part[k] == whole[k],
    ensures
        failures(part, count) == failures(whole, count),
    decreases count,
{
    if count > 0 {
        lemma_failures_of_prefix(whole, part, count - 1);
    }
}

/// The drops among two runs of outcomes add up.
proof fn lemma_failures_add(
    head: Seq<Result<(), PacketReaderError>>,
    tail: Seq<Result<(), PacketReaderError>>,
    count: int,
)
    requires
        0 <= count <= tail.len(),
    ensures
        failures(head + tail, head.len() + count) == failures(head, head.len() as int) + failures(
            tail,
            count,
        ),
    decreases count,
{
    if count == 0 {
        lemma_failures_of_prefix(head + tail, head, head.len() as int);
    } else {
        lemma_failures_add(head, tail, count - 1);
        assert((head + tail)[head.len() + count - 1] == tail[count - 1]);
    }
}

/// From any state on, a replay that is driven to its end has attempted every
/// frame, and has dropped what was dropped before and what the transmitter
/// drops of the frames that were left.
proof fn lemma_replay_counts_from(
    pacer: PacerView,
    clock: spec_fn(int) -> int,
    transmitter: spec_fn(FrameView) -> Result<(), PacketReaderError>,
)
    requires
        pacer.well_formed(),
        pacer.frames.len() <= usize::MAX,
    ensures
        replay_outcome(pacer, clock, transmitter).attempted == pacer.frames.len(),
        replay_outcome(pacer, clock, transmitter).failed == pacer.failed + dropped_by(
            pacer.frames.skip(pacer.next),
            transmitter,
        ),
        replay_outcome(pacer, clock, transmitter).balanced(),
    decreases pacer.frames.len() - pacer.next,
{
    let rest = pacer.frames.skip(pacer.next);
    if pacer.finished() {
        assert(rest.len() == 0);
        assert(dropped_by(rest, transmitter) == 0);
    } else {
        lemma_wave_exists_once(pacer.frames, pacer.resolution, pacer.next);
        let wave = pacer.wave_at(clock(pacer.next));
        let outcomes = wave_outcomes(wave.frames(), transmitter);
        let after = wave.completed(outcomes);
        let later = pacer.frames.skip(after.next);
        assert(rest =~= wave.frames() + later);
        assert(wave_outcomes(rest, transmitter) =~= outcomes + wave_outcomes(later, transmitter));
        lemma_failures_add(outcomes, wave_outcomes(later, transmitter), later.len() as int);
        lemma_failures_bounded(outcomes, outcomes.len() as int);
        lemma_replay_counts_from(after, clock, transmitter);
    }
}

/// No more frames are dropped than were looked at.
proof fn lemma_failures_bounded(outcomes: Seq<Result<(), PacketReaderError>>, count: int)
    requires
        0 <= count,
    ensures
        0 <= failures(outcomes, count) <= count,
    decreases count,
{
    if count > 0 {
        lemma_failures_bounded(outcomes, count - 1);
    }
}

/// A replay that is driven to its end reports every frame as attempted and,
/// as dropped, the frames that the transmitter drops: the counts depend on
/// the frames and on the transmitter, not on the clock or on how the frames
/// fell into waves.
pub proof fn lemma_replay_counts(
    frames: Seq<FrameView>,
    resolution: int,
    clock: spec_fn(int) -> int,
    transmitter: spec_fn(FrameView) -> Result<(), PacketReaderError>,
)
    requires
        0 <= resolution,
        frames.len() <= usize::MAX,
    ensures
        replay_outcome(PacerView::fresh(frames, resolution), clock, transmitter) == (
        ReplaySummary {
            attempted: frames.len() as usize,
            sent: (frames.len() - dropped_by(frames, transmitter)) as usize,
            failed: dropped_by(frames, transmitter) as usize,
        }),
{
    let pacer = PacerView::fresh(frames, resolution);
    lemma_replay_counts_from(pacer, clock, transmitter);
    assert(frames.skip(0) =~= frames);
    lemma_failures_bounded(wave_outcomes(frames, transmitter), frames.len() as int);
}

/// A range that selects no frame, be it because the store is empty or
/// because nothing was captured within the range, is replayed by sending
/// nothing: the run ends at once and reports three zeros.
pub proof fn lemma_empty_range_sends_nothing(
    store: Seq<StoredFrameView>,
    range: TimeRange,
    resolution: int,
    clock: spec_fn(int) -> int,
    transmitter: spec_fn(FrameView) -> Result<(), PacketReaderError>,
)
    requires
        select_range(store, range).len() == 0,
    ensures
        PacerView::fresh(select_range(store, range), resolution).finished(),
        replay_outcome(
            PacerView::fresh(select_range(store, range), resolution),
            clock,
            transmitter,
        ) == (ReplaySummary { attempted: 0, sent: 0, failed: 0 }),
{
}

/// Replaying the same range twice over a store that has not changed, with a
/// transmitter that answers by the frame alone, ends with the same counts,
/// whatever the clock read during either run.
pub proof fn lemma_replay_idempotent(
    store: Seq<StoredFrameView>,
    range: TimeRange,
    resolution: int,
    first_clock: spec_fn(int) -> int,
    second_clock: spec_fn(int) -> int,
    transmitter: spec_fn(FrameView) -> Result<(), PacketReaderError>,
)
    requires
        0 <= resolution,
        store.len() <= usize::MAX,
    ensures
        replay_outcome(
            PacerView::fresh(select_range(store, range), resolution),
            first_clock,
            transmitter,
        ) == replay_outcome(
            PacerView::fresh(select_range(store, range), resolution),
            second_clock,
            transmitter,
        ),
{
    let frames = select_range(store, range);
    assert(frames.len() <= store.len()) by {
        store.lemma_filter_len(crate::packet::repository::packet_repository::covered_by(range));
    }
    lemma_replay_counts(frames, resolution, first_clock, transmitter);
    lemma_replay_counts(frames, resolution, second_clock, transmitter);
}

/// How the live tail polls the store.
#[derive(Debug, Clone, Copy, PartialEq, Eq, Structural)]
pub struct TailConfig {
    /// The most frames that one poll asks for.
    pub batch_limit: usize,
    /// How long to rest after a batch before the next poll, in milliseconds.
    pub poll_interval_millis: u64,
    /// How long to rest after a failed poll before the next, in milliseconds.
    pub backoff_millis: u64,
}

/// How many frames one poll asks for unless told otherwise.
pub const DEFAULT_BATCH_LIMIT: usize = 100;

/// How long the tail rests after a batch unless told otherwise, in milliseconds.
pub const DEFAULT_POLL_INTERVAL_MILLIS: u64 = 50;

/// How long the tail rests after a failed poll unless told otherwise, in milliseconds.
pub const DEFAULT_BACKOFF_MILLIS: u64 = 5000;

impl Default for TailConfig {
    /// Batches of a hundred frames, a rest of some tens of milliseconds
    /// between polls, and one of several seconds after a poll that failed.
    fn default() -> (config: TailConfig)
        ensures
            config == (TailConfig {
                batch_limit: DEFAULT_BATCH_LIMIT,
                poll_interval_millis: DEFAULT_POLL_INTERVAL_MILLIS,
                backoff_millis: DEFAULT_BACKOFF_MILLIS,
            }),
    {
        TailConfig {
            batch_limit: DEFAULT_BATCH_LIMIT,
            poll_interval_millis: DEFAULT_POLL_INTERVAL_MILLIS,
            backoff_millis: DEFAULT_BACKOFF_MILLIS,
        }
    }
}

/// Where the live tail stands.
#[derive(Debug, Clone, Copy, PartialEq, Eq, Structural)]
pub enum TailState {
    /// The store has been asked for pending frames.
    Polling,
    /// A batch is being sent.
    Dispatching,
    /// The last poll failed; the tail rests before it asks again.
    Backoff,
}

/// What happened since the last step of the live tail.
#[derive(Debug, PartialEq, Eq)]
pub enum TailEvent {
    /// The store answered the poll with these frames.
    Fetched(Vec<CapturedFrame>),
    /// The store did not answer the poll.
    FetchFailed(DatabaseError),
    /// What the last action asked for has been done.
    Completed,
}

/// What the live tail asks for next.
#[derive(Debug, PartialEq, Eq)]
pub enum TailAction {
    /// Ask the store for up to `limit` pending frames of `node_id`.
    Fetch { node_id: NodeId, limit: usize },
    /// Send all `frames` at once, wait until every transmission has ended,
    /// then rest for `pause_millis`.
    Dispatch { frames: Vec<CapturedFrame>, pause_millis: u64 },
    /// Rest for `millis`.
    Sleep { millis: u64 },
}

/// The continuous mode: it forwards the pending frames of one node batch by
/// batch, as fast as the store hands them out, and never ends by itself.
#[derive(Debug, PartialEq, Eq)]
pub struct LiveTail {
    pub node_id: NodeId,
    pub config: TailConfig,
    pub state: TailState,
}

impl LiveTail {
    /// The poll that the tail asks for whenever it is in `Polling`.
    pub open spec fn poll(self) -> TailAction {
        TailAction::Fetch { node_id: self.node_id, limit: self.config.batch_limit }
    }

    /// The state and the action that follow `event`.
    ///
    /// A poll that is answered leads to the dispatch of the whole batch, a
    /// poll that fails to a rest of the backoff interval; an event that
    /// answers no poll leaves the poll standing. After a dispatch or a rest,
    /// the store is polled again.
    pub open spec fn after(self, event: TailEvent) -> (LiveTail, TailAction) {
        match self.state {
            TailState::Polling => match event {
                TailEvent::Fetched(frames) => (
                    LiveTail { state: TailState::Dispatching, ..self },
                    TailAction::Dispatch {
                        frames,
                        pause_millis: self.config.poll_interval_millis,
                    },
                ),
                TailEvent::FetchFailed(_) => (
                    LiveTail { state: TailState::Backoff, ..self },
                    TailAction::Sleep { millis: self.config.backoff_millis },
                ),
                TailEvent::Completed => (self, self.poll()),
            },
            TailState::Dispatching => (LiveTail { state: TailState::Polling, ..self }, self.poll()),
            TailState::Backoff => (LiveTail { state: TailState::Polling, ..self }, self.poll()),
        }
    }

    /// A tail for `node_id` that is about to poll, and its first poll.
    pub fn new(node_id: NodeId, config: TailConfig) -> (begun: (LiveTail, TailAction))
        ensures
            begun.0 == (LiveTail { node_id, config, state: TailState::Polling }),
            begun.1 == begun.0.poll(),
    {
        (
            LiveTail { node_id, config, state: TailState::Polling },
            TailAction::Fetch { node_id, limit: config.batch_limit },
        )
    }

    /// Takes one step: the state and the action that follow `event`.
    pub fn step(self, event: TailEvent) -> (next: (LiveTail, TailAction))
        ensures
            next == self.after(event),
    {
        let LiveTail { node_id, config, state } = self;
        let poll = TailAction::Fetch { node_id, limit: config.batch_limit };
        match state {
            TailState::Polling => match event {
                TailEvent::Fetched(frames) => (
                    LiveTail { node_id, config, state: TailState::Dispatching },
                    TailAction::Dispatch { frames, pause_millis: config.poll_interval_millis },
                ),
                TailEvent::FetchFailed(_) => (
                    LiveTail { node_id, config, state: TailState::Backoff },
                    TailAction::Sleep { millis: config.backoff_millis },
                ),
                TailEvent::Completed => (
                    LiveTail { node_id, config, state: TailState::Polling },
                    poll,
                ),
            },
            TailState::Dispatching => (
                LiveTail { node_id, config, state: TailState::Polling },
                poll,
            ),
            TailState::Backoff => (LiveTail { node_id, config, state: TailState::Polling }, poll),
        }
    }
}

/// Where the tail stands after the events, taken in order.
pub open spec fn tail_after(tail: LiveTail, events: Seq<TailEvent>) -> LiveTail
    decreases events.len(),
{
    if events.len() == 0 {
        tail
    } else {
        tail_after(tail, events.drop_last()).after(events.last()).0
    }
}

/// How many times the tail went into backoff over the events.
pub open spec fn backoffs(tail: LiveTail, events: Seq<TailEvent>) -> nat
    decreases events.len(),
{
    if events.len() == 0 {
        0
    } else if tail_after(tail, events).state == TailState::Backoff {
        backoffs(tail, events.drop_last()) + 1
    } else {
        backoffs(tail, events.drop_last())
    }
}

/// What a tail sees when its polls fail with `failures`, one after the
/// other: each failure, and after each the end of the rest that it caused.
pub open spec fn failed_polls(failures: Seq<DatabaseError>) -> Seq<TailEvent>
    decreases failures.len(),
{
    if failures.len() == 0 {
        Seq::empty()
    } else {
        failed_polls(failures.drop_last()).push(TailEvent::FetchFailed(failures.last())).push(
            TailEvent::Completed,
        )
    }
}

/// The tail has no last state: whatever happens, it polls the store again
/// after this step or after the next.
pub proof fn lemma_tail_polls_again(tail: LiveTail, event: TailEvent, then: TailEvent)
    ensures
        tail.after(event).0.state == TailState::Polling || tail.after(event).0.after(then).0.state
            == TailState::Polling,
        tail.after(event).0.state == TailState::Polling ==> tail.after(event).1 == tail.poll(),
        tail.after(event).0.state != TailState::Polling ==> tail.after(event).0.after(then).1
            == tail.poll(),
{
}

/// However many polls fail in a row, the tail goes into backoff once for
/// each, rests for the backoff interval, and stands ready to poll again; the
/// first poll that is answered is dispatched whole, and then the store is
/// polled as before.
pub proof fn lemma_tail_recovers(
    tail: LiveTail,
    failures: Seq<DatabaseError>,
    frames: Vec<CapturedFrame>,
)
    requires
        tail.state == TailState::Polling,
    ensures
        tail_after(tail, failed_polls(failures)) == tail,
        backoffs(tail, failed_polls(failures)) == failures.len(),
        forall|failure: DatabaseError|
            tail.after(TailEvent::FetchFailed(failure)) == (
                LiveTail { state: TailState::Backoff, ..tail },
                TailAction::Sleep { millis: tail.config.backoff_millis },
            ),
        tail_after(tail, failed_polls(failures)).after(TailEvent::Fetched(frames)) == (
            LiveTail { state: TailState::Dispatching, ..tail },
            TailAction::Dispatch { frames, pause_millis: tail.config.poll_interval_millis },
        ),
        tail_after(
            tail,
            failed_polls(failures).push(TailEvent::Fetched(frames)).push(TailEvent::Completed),
        ) == tail,
    decreases failures.len(),
{
    if failures.len() > 0 {
        let earlier = failed_polls(failures.drop_last());
        let failed = earlier.push(TailEvent::FetchFailed(failures.last()));
        let rested = failed.push(TailEvent::Completed);
        lemma_tail_recovers(tail, failures.drop_last(), frames);
        assert(failed.drop_last() =~= earlier);
        assert(rested.drop_last() =~= failed);
        assert(tail_after(tail, failed).state == TailState::Backoff);
        assert(tail_after(tail, rested) == tail);
        assert(backoffs(tail, failed) == backoffs(tail, earlier) + 1);
        assert(backoffs(tail, rested) == backoffs(tail, failed));
    }
    let polls = failed_polls(failures);
    let fetched = polls.push(TailEvent::Fetched(frames));
    let done = fetched.push(TailEvent::Completed);
    assert(fetched.drop_last() =~= polls);
    assert(done.drop_last() =~= fetched);
    assert(tail_after(tail, fetched).state == TailState::Dispatching);
}

} // verus!
