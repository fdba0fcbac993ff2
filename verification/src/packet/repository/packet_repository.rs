use vstd::prelude::*;
use crate::database::error::DatabaseError;
use crate::packet::types::{
    ascending, frame_views, CapturedFrame, FrameView, TimeRange, Timestamp,
};

verus! {

/// The collection node at which a frame was captured.
pub type NodeId = u32;

/// A frame as the store keeps it: with the node it came from and whether it
/// has been forwarded already.
#[derive(Debug, PartialEq, Eq)]
pub struct StoredFrame {
    pub captured_at: Timestamp,
    pub payload: Vec<u8>,
    pub node_id: NodeId,
    pub delivered: bool,
}

/// What a `StoredFrame` stands for in contracts.
pub struct StoredFrameView {
    pub captured_at: int,
    pub payload: Seq<u8>,
    pub node_id: NodeId,
    pub delivered: bool,
}

impl View for StoredFrame {
    type V = StoredFrameView;

    open spec fn view(&self) -> StoredFrameView {
        StoredFrameView {
            captured_at: self.captured_at as int,
            payload: self.payload@,
            node_id: self.node_id,
            delivered: self.delivered,
        }
    }
}

impl StoredFrameView {
    /// The replay unit that the row holds.
    pub open spec fn frame(self) -> FrameView {
        FrameView { captured_at: self.captured_at, payload: self.payload }
    }
}

/// The replay units of some rows, in their order.
pub open spec fn frames_of(rows: Seq<StoredFrameView>) -> Seq<FrameView> {
    rows.map_values(|row: StoredFrameView| row.frame())
}

/// The rows that were captured within `range`.
pub open spec fn covered_by(range: TimeRange) -> spec_fn(StoredFrameView) -> bool {
    |row: StoredFrameView| range.covers(row.captured_at)
}

/// The rows of `node_id` that have not been forwarded.
pub open spec fn pending_for(node_id: NodeId) -> spec_fn(StoredFrameView) -> bool {
    |row: StoredFrameView| row.node_id == node_id && !row.delivered
}

/// The first `limit` of the frames, or all of them if they are fewer.
pub open spec fn first_of(frames: Seq<FrameView>, limit: nat) -> Seq<FrameView> {
    if limit < frames.len() {
        frames.take(limit as int)
    } else {
        frames
    }
}

/// The answer to a range query: every frame captured within `range`, in the
/// order of the rows.
pub open spec fn select_range(rows: Seq<StoredFrameView>, range: TimeRange) -> Seq<FrameView> {
    frames_of(rows.filter(covered_by(range)))
}

/// The answer to a pending query: the first `limit` frames of `node_id`
/// that have not been forwarded, in the order of the rows.
pub open spec fn select_pending(rows: Seq<StoredFrameView>, node_id: NodeId, limit: nat) -> Seq<
    FrameView,
> {
    first_of(frames_of(rows.filter(pending_for(node_id))), limit)
}

/// Whether the rows are in the order of their capture, earliest first.
pub open spec fn rows_ascending(rows: Seq<StoredFrameView>) -> bool {
    forall|i: int, j: int|
        0 <= i <= j < rows.len() ==> rows[i].captured_at <= rows[j].captured_at
}

/// Whether `slot` is where a row captured at `instant` belongs: behind every
/// row that is not later, before every row that is.
pub open spec fn is_slot(rows: Seq<StoredFrameView>, instant: int, slot: int) -> bool {
    &&& 0 <= slot <= rows.len()
    &&& forall|i: int| 0 <= i < slot ==> (#[trigger] rows[i]).captured_at <= instant
    &&& forall|i: int| slot <= i < rows.len() ==> (#[trigger] rows[i]).captured_at > instant
}

/// Whether `earliest` and `latest` are the least and the greatest instant of
/// capture among the rows.
pub open spec fn is_extent(rows: Seq<StoredFrameView>, earliest: int, latest: int) -> bool {
    &&& exists|i: int| 0 <= i < rows.len() && (#[trigger] rows[i]).captured_at == earliest
    &&& exists|j: int| 0 <= j < rows.len() && (#[trigger] rows[j]).captured_at == latest
    &&& forall|k: int|
        0 <= k < rows.len() ==> earliest <= (#[trigger] rows[k]).captured_at <= latest
}

/// A time-indexed set of stored frames, kept in the order of their capture.
pub struct PacketRepository {
    rows: Vec<StoredFrame>,
}

impl View for PacketRepository {
    type V = Seq<StoredFrameView>;

    closed spec fn view(&self) -> Seq<StoredFrameView> {
        self.rows@.map_values(|row: StoredFrame| row@)
    }
}

impl PacketRepository {
    #[verifier::type_invariant]
    closed spec fn inv(self) -> bool {
        rows_ascending(self@)
    }

    /// A repository that holds no frame.
    pub fn new() -> (repository: PacketRepository)
        ensures
            repository@ == Seq::<StoredFrameView>::empty(),
    {
        let repository = PacketRepository { rows: Vec::new() };
        assert(repository@ =~= Seq::<StoredFrameView>::empty());
        repository
    }

    /// How many frames are stored.
    pub fn len(&self) -> (count: usize)
        ensures
            count == self@.len(),
            rows_ascending(self@),
    {
        proof {
            use_type_invariant(self);
        }
        self.rows.len()
    }

    /// Stores a frame where its instant of capture puts it, behind the frames
    /// captured at the same instant, and returns that place.
    pub fn insert(&mut self, frame: StoredFrame) -> (slot: usize)
        ensures
            is_slot(old(self)@, frame@.captured_at, slot as int),
            final(self)@ == old(self)@.insert(slot as int, frame@),
            rows_ascending(final(self)@),
    {
        proof {
            use_type_invariant(&*self);
        }
        let ghost before = self@;
        let ghost row = frame@;
        let mut slot = self.rows.len();
        while slot > 0 && self.rows[slot - 1].captured_at > frame.captured_at
            invariant
                slot <= self.rows.len(),
                self@ == before,
                rows_ascending(before),
                forall|i: int|
                    slot <= i < before.len() ==> (#[trigger] before[i]).captured_at
                        > frame.captured_at,
            decreases slot,
        {
            slot = slot - 1;
        }
        assert(is_slot(before, row.captured_at, slot as int)) by {
            assert forall|i: int| 0 <= i < slot implies (#[trigger] before[i]).captured_at
                <= row.captured_at by {
                assert(before[i].captured_at <= before[slot - 1].captured_at);
            }
        }
        proof {
            let after = self.rows@.insert(slot as int, frame).map_values(|row: StoredFrame| row@);
            assert(after =~= before.insert(slot as int, row));
            assert(rows_ascending(after)) by {
                assert forall|i: int, j: int| 0 <= i <= j < after.len() implies after[i].captured_at
                    <= after[j].captured_at by {
                    if i < slot && j > slot {
                        assert(after[i] == before[i]);
                        assert(after[j] == before[j - 1]);
                    } else if i < slot && j < slot {
                        assert(after[i] == before[i]);
                        assert(after[j] == before[j]);
                    } else if i > slot {
                        assert(after[i] == before[i - 1]);
                        assert(after[j] == before[j - 1]);
                    } else if i < slot {
                        assert(after[i] == before[i]);
                    } else if j > slot {
                        assert(after[j] == before[j - 1]);
                    }
                }
            }
        }
        let mut rows: Vec<StoredFrame> = Vec::new();
        core::mem::swap(&mut self.rows, &mut rows);
        rows.insert(slot, frame);
        self.rows = rows;
        slot
    }

    /// Every stored frame captured within `range`, earliest first.
    pub fn get_packets_in_timerange(&self, range: &TimeRange) -> (frames: Vec<CapturedFrame>)
        ensures
            frame_views(frames@) == select_range(self@, *range),
            ascending(frame_views(frames@)),
            forall|k: int|
                0 <= k < frames.len() ==> range.covers((#[trigger] frames[k]).captured_at as int),
    {
        let frames = self.collect(Wanted::Within(*range), usize::MAX);
        proof {
            let chosen = self@.filter(covered_by(*range));
            assert(Wanted::Within(*range).test() == covered_by(*range));
            assert(self@.len() == self.rows.len());
            self@.lemma_filter_len(covered_by(*range));
            assert(frames_of(chosen).len() == chosen.len());
            assert forall|k: int| 0 <= k < frames.len() implies range.covers(
                (#[trigger] frames[k]).captured_at as int,
            ) by {
                self@.lemma_filter_pred(covered_by(*range), k);
                assert(frame_views(frames@)[k] == chosen[k].frame());
            }
        }
        frames
    }

    /// The instants of the earliest and of the latest stored frame, which
    /// bound what a replay can cover. An empty store has no such bounds.
    pub fn get_packet_time_range(&self) -> (extent: Result<(Timestamp, Timestamp), DatabaseError>)
        ensures
            self@.len() == 0 ==> extent == Err::<(Timestamp, Timestamp), DatabaseError>(
                DatabaseError::EmptyStore,
            ),
            self@.len() > 0 ==> extent is Ok && is_extent(
                self@,
                extent->Ok_0.0 as int,
                extent->Ok_0.1 as int,
            ),
    {
        proof {
            use_type_invariant(self);
        }
        let count = self.rows.len();
        if count == 0 {
            return Err(DatabaseError::EmptyStore);
        }
        let earliest = self.rows[0].captured_at;
        let latest = self.rows[count - 1].captured_at;
        proof {
            let rows = self@;
            assert(rows[0].captured_at == earliest);
            assert(rows[count - 1].captured_at == latest);
            assert forall|k: int| 0 <= k < rows.len() implies earliest <= (
            #[trigger] rows[k]).captured_at <= latest by {
                assert(rows[0].captured_at <= rows[k].captured_at);
                assert(rows[k].captured_at <= rows[count - 1].captured_at);
            }
        }
        Ok((earliest, latest))
    }

    /// The frames of `node_id` that have not been forwarded, oldest first
    /// and at most `limit` of them. Nothing is marked as forwarded.
    pub fn get_pending(&self, node_id: NodeId, limit: usize) -> (frames: Vec<CapturedFrame>)
        ensures
            frame_views(frames@) == select_pending(self@, node_id, limit as nat),
            frames.len() <= limit,
            ascending(frame_views(frames@)),
    {
        self.collect(Wanted::PendingFor(node_id), limit)
    }

    /// Copies out the first `limit` frames that are wanted, in the order of the rows.
    fn collect(&self, wanted: Wanted, limit: usize) -> (frames: Vec<CapturedFrame>)
        ensures
            frame_views(frames@) == first_of(frames_of(self@.filter(wanted.test())), limit as nat),
            frames.len() <= limit,
            ascending(frame_views(frames@)),
    {
        proof {
            use_type_invariant(self);
        }
        let ghost rows = self@;
        let ghost test = wanted.test();
        let mut frames: Vec<CapturedFrame> = Vec::new();
        let mut i: usize = 0;
        assert(rows.take(0) =~= Seq::<StoredFrameView>::empty());
        assert(frame_views(frames@) =~= frames_of(rows.take(0).filter(test)));
        while i < self.rows.len() && frames.len() < limit
            invariant
                i <= self.rows.len(),
                rows == self@,
                test == wanted.test(),
                rows_ascending(rows),
                frames.len() <= limit,
                frame_views(frames@) == frames_of(rows.take(i as int).filter(test)),
                forall|k: int, j: int|
                    0 <= k < frames.len() && i <= j < rows.len() ==> (#[trigger] frames[k]).captured_at
                        <= (#[trigger] rows[j]).captured_at,
                ascending(frame_views(frames@)),
            decreases self.rows.len() - i,
        {
            let row = &self.rows[i];
            let ghost seen = rows.take(i as int);
            let ghost found = frames@;
            proof {
                assert(rows.take(i + 1) =~= seen.push(rows[i as int]));
                seen.lemma_filter_push(rows[i as int], test);
            }
            if wanted.admits(row) {
                let payload = row.payload.clone();
                assert(payload@ =~= row.payload@);
                let frame = CapturedFrame { captured_at: row.captured_at, payload };
                assert(frame@ == rows[i as int].frame());
                frames.push(frame);
                proof {
                    assert(frame_views(frames@) =~= frame_views(found).push(frame@));
                    assert(frames_of(seen.filter(test).push(rows[i as int])) =~= frames_of(
                        seen.filter(test),
                    ).push(rows[i as int].frame()));
                    assert forall|a: int, b: int| 0 <= a <= b < frames.len() implies frame_views(
                        frames@,
                    )[a].captured_at <= frame_views(frames@)[b].captured_at by {
                        if b < found.len() {
                            assert(frame_views(found)[a] == frame_views(frames@)[a]);
                            assert(frame_views(found)[b] == frame_views(frames@)[b]);
                        } else if a < found.len() {
                            assert(found[a].captured_at <= rows[i as int].captured_at);
                        }
                    }
                    assert forall|k: int, j: int|
                        0 <= k < frames.len() && i + 1 <= j < rows.len() implies (
                    #[trigger] frames[k]).captured_at <= (#[trigger] rows[j]).captured_at by {
                        if k < found.len() {
                            assert(frames[k] == found[k]);
                        } else {
                            assert(rows[i as int].captured_at <= rows[j].captured_at);
                        }
                    }
                }
            }
            i = i + 1;
        }
        proof {
            let head = rows.take(i as int);
            let tail = rows.skip(i as int);
            assert(rows =~= head + tail);
            Seq::filter_distributes_over_add(head, tail, test);
            let waiting = frames_of(rows.filter(test));
            assert(waiting =~= frames_of(head.filter(test)) + frames_of(tail.filter(test)));
            if i == rows.len() {
                assert(tail =~= Seq::<StoredFrameView>::empty());
                assert(tail.filter(test) =~= Seq::<StoredFrameView>::empty()) by {
                    tail.lemma_filter_len(test);
                }
                assert(waiting =~= frame_views(frames@));
            } else {
                assert(frames.len() == limit);
                if limit < waiting.len() {
                    assert(waiting.take(limit as int) =~= frame_views(frames@));
                } else {
                    assert(waiting =~= frame_views(frames@));
                }
            }
        }
        frames
    }
}

/// What a query looks for.
enum Wanted {
    /// The rows captured within a range.
    Within(TimeRange),
    /// The rows of a node that have not been forwarded.
    PendingFor(NodeId),
}

impl Wanted {
    /// The rows that are looked for.
    spec fn test(self) -> spec_fn(StoredFrameView) -> bool {
        match self {
            Wanted::Within(range) => covered_by(range),
            Wanted::PendingFor(node_id) => pending_for(node_id),
        }
    }

    /// Whether `row` is looked for.
    fn admits(&self, row: &StoredFrame) -> (wanted: bool)
        ensures
            wanted == self.test()(row@),
    {
        match self {
            Wanted::Within(range) => range.contains(row.captured_at),
            Wanted::PendingFor(node_id) => row.node_id == *node_id && !row.delivered,
        }
    }
}

} // verus!
