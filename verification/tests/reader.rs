use packet_replay::database::{DatabaseError, EMPTY_STORE};
use packet_replay::packet::reader::{
    LinkEvent, LiveTail, Pacer, PacerStep, PacketReader, PacketReaderError, PacketSender,
    SendStep, TailAction, TailConfig, TailEvent, TailState,
};
use packet_replay::packet::repository::{PacketRepository, StoredFrame};
use packet_replay::packet::{CapturedFrame, ReplaySummary, TimeRange};

fn stored(captured_at: i64, len: usize) -> StoredFrame {
    StoredFrame { captured_at, payload: vec![0x5au8; len], node_id: 3, delivered: false }
}

fn store() -> PacketRepository {
    let mut repository = PacketRepository::new();
    repository.insert(stored(1_000, 64));
    repository.insert(stored(1_000, 1501));
    repository.insert(stored(101_000, 1500));
    repository.insert(stored(251_000, 9000));
    repository.insert(stored(999_000, 10));
    repository
}

fn transmit(frame: &CapturedFrame) -> Result<(), PacketReaderError> {
    let mut link = LinkEvent::Ready;
    loop {
        match PacketSender::send_packet(&frame.payload, link) {
            SendStep::OpenChannel => link = LinkEvent::ChannelOpened,
            SendStep::Transmit => link = LinkEvent::Sent,
            SendStep::Done(outcome) => return outcome,
        }
    }
}

/// Drives a pacer to its end; the clock advances by `tick` between two steps.
fn drive(pacer: Pacer, tick: u64) -> (ReplaySummary, Vec<u64>) {
    let mut now = 0u64;
    let mut instants = Vec::new();
    let mut step = pacer.next_wave(now);
    loop {
        match step {
            PacerStep::Dispatch(wave) => {
                now += wave.delay_micros();
                instants.push(now);
                let mut outcomes = Vec::new();
                let mut k = 0;
                while let Some(frame) = wave.frame(k) {
                    outcomes.push(transmit(frame));
                    k += 1;
                }
                now += tick;
                step = wave.complete(&outcomes).next_wave(now);
            },
            PacerStep::Finished(counts) => return (counts, instants),
        }
    }
}

fn begin(range: &TimeRange) -> Pacer {
    let repository = store();
    match PacketReader::replay_packets(Ok(&repository), range, 0) {
        Ok(pacer) => pacer,
        Err(refusal) => panic!("the store was there: {:?}", refusal),
    }
}

#[test]
fn bounded_replay_reports_what_was_sent_and_dropped() {
    let range = TimeRange::new(0, 500_000).expect("the end is after the start");
    let (counts, instants) = drive(begin(&range), 10);
    assert_eq!(counts, ReplaySummary { attempted: 4, sent: 2, failed: 2 });
    assert_eq!(instants, vec![0, 100_000, 250_000]);
}

#[test]
fn bounded_replay_of_an_empty_range_sends_nothing() {
    let range = TimeRange::new(300_000, 400_000).expect("the end is after the start");
    let (counts, instants) = drive(begin(&range), 10);
    assert_eq!(counts, ReplaySummary { attempted: 0, sent: 0, failed: 0 });
    assert_eq!(instants, Vec::<u64>::new());
}

#[test]
fn bounded_replay_of_an_empty_store_sends_nothing() {
    let repository = PacketRepository::new();
    let range = TimeRange::new(0, 1).expect("the end is after the start");
    let begun = PacketReader::replay_packets(Ok(&repository), &range, 1000);
    let pacer = begun.ok().expect("the store was there");
    assert!(matches!(
        pacer.next_wave(0),
        PacerStep::Finished(ReplaySummary { attempted: 0, sent: 0, failed: 0 })
    ));
}

#[test]
fn bounded_replay_is_given_up_when_the_store_fails() {
    let range = TimeRange::new(0, 1).expect("the end is after the start");
    let failure = DatabaseError::ConnectionError("connection refused".to_string());
    let begun = PacketReader::replay_packets(Err(failure), &range, 0);
    assert_eq!(
        begun.err(),
        Some(PacketReaderError::ConfigurationError("connection refused".to_string()))
    );
}

#[test]
fn every_store_failure_hands_on_its_diagnostic() {
    let range = TimeRange::new(0, 1).expect("the end is after the start");
    let failures = vec![
        (DatabaseError::PoolRetrievalError("no pool".to_string()), "no pool"),
        (DatabaseError::ConnectionError("no route".to_string()), "no route"),
        (DatabaseError::QueryPreparationError("syntax".to_string()), "syntax"),
        (DatabaseError::QueryExecutionError("timeout".to_string()), "timeout"),
        (DatabaseError::EmptyStore, EMPTY_STORE),
    ];
    for (failure, text) in failures {
        let begun = PacketReader::replay_packets(Err(failure), &range, 0);
        assert_eq!(begun.err(), Some(PacketReaderError::ConfigurationError(text.to_string())));
    }
}

#[test]
fn diagnostic_of_each_store_failure() {
    assert_eq!(DatabaseError::PoolRetrievalError("a".to_string()).diagnostic(), "a");
    assert_eq!(DatabaseError::ConnectionError("b".to_string()).diagnostic(), "b");
    assert_eq!(DatabaseError::QueryPreparationError("c".to_string()).diagnostic(), "c");
    assert_eq!(DatabaseError::QueryExecutionError("d".to_string()).diagnostic(), "d");
    assert_eq!(DatabaseError::EmptyStore.diagnostic(), "パケットが存在しません");
}

#[test]
fn replaying_a_range_twice_gives_the_same_counts() {
    let range = TimeRange::new(1_000, 999_000).expect("the end is after the start");
    let (first, _) = drive(begin(&range), 0);
    let (second, _) = drive(begin(&range), 130_000);
    assert_eq!(first, ReplaySummary { attempted: 5, sent: 3, failed: 2 });
    assert_eq!(second, first);
}

#[test]
fn counts_do_not_depend_on_the_resolution() {
    let repository = store();
    let range = TimeRange::new(0, 1_000_000).expect("the end is after the start");
    let fine = PacketReader::replay_packets(Ok(&repository), &range, 0).ok().expect("a pacer");
    let coarse =
        PacketReader::replay_packets(Ok(&repository), &range, 200_000).ok().expect("a pacer");
    let (fine_counts, fine_instants) = drive(fine, 1);
    let (coarse_counts, coarse_instants) = drive(coarse, 1);
    assert_eq!(fine_counts, coarse_counts);
    assert_eq!(fine_instants, vec![0, 100_000, 250_000, 998_000]);
    assert_eq!(coarse_instants, vec![0, 250_000, 998_000]);
}

fn config() -> TailConfig {
    TailConfig { batch_limit: 100, poll_interval_millis: 50, backoff_millis: 5000 }
}

fn poll() -> TailAction {
    TailAction::Fetch { node_id: 8, limit: 100 }
}

#[test]
fn tail_rests_briefly_between_polls_and_longer_after_a_failure() {
    let usual = TailConfig::default();
    assert_eq!(
        usual,
        TailConfig { batch_limit: 100, poll_interval_millis: 50, backoff_millis: 5000 }
    );
    assert!(usual.poll_interval_millis < usual.backoff_millis);
}

#[test]
fn tail_begins_with_a_poll() {
    let (tail, action) = LiveTail::new(8, config());
    assert_eq!(tail, LiveTail { node_id: 8, config: config(), state: TailState::Polling });
    assert_eq!(action, poll());
}

#[test]
fn tail_dispatches_the_batch_and_polls_again() {
    let (tail, _) = LiveTail::new(8, config());
    let batch = vec![CapturedFrame::new(1, vec![1]), CapturedFrame::new(2, vec![2])];
    let (tail, action) = tail.step(TailEvent::Fetched(batch));
    assert_eq!(tail.state, TailState::Dispatching);
    assert_eq!(
        action,
        TailAction::Dispatch {
            frames: vec![CapturedFrame::new(1, vec![1]), CapturedFrame::new(2, vec![2])],
            pause_millis: 50,
        }
    );
    let (tail, action) = tail.step(TailEvent::Completed);
    assert_eq!(tail.state, TailState::Polling);
    assert_eq!(action, poll());
}

#[test]
fn tail_dispatches_an_empty_batch_too() {
    let (tail, _) = LiveTail::new(8, config());
    let (tail, action) = tail.step(TailEvent::Fetched(Vec::new()));
    assert_eq!(tail.state, TailState::Dispatching);
    assert_eq!(action, TailAction::Dispatch { frames: Vec::new(), pause_millis: 50 });
}

#[test]
fn tail_backs_off_twice_and_resumes() {
    let (tail, _) = LiveTail::new(8, config());

    let (tail, action) =
        tail.step(TailEvent::FetchFailed(DatabaseError::ConnectionError("down".to_string())));
    assert_eq!(tail.state, TailState::Backoff);
    assert_eq!(action, TailAction::Sleep { millis: 5000 });
    let (tail, action) = tail.step(TailEvent::Completed);
    assert_eq!(tail.state, TailState::Polling);
    assert_eq!(action, poll());

    let (tail, action) =
        tail.step(TailEvent::FetchFailed(DatabaseError::QueryExecutionError("slow".to_string())));
    assert_eq!(tail.state, TailState::Backoff);
    assert_eq!(action, TailAction::Sleep { millis: 5000 });
    let (tail, action) = tail.step(TailEvent::Completed);
    assert_eq!(tail.state, TailState::Polling);
    assert_eq!(action, poll());

    let (tail, action) = tail.step(TailEvent::Fetched(vec![CapturedFrame::new(5, vec![5])]));
    assert_eq!(tail.state, TailState::Dispatching);
    assert_eq!(
        action,
        TailAction::Dispatch { frames: vec![CapturedFrame::new(5, vec![5])], pause_millis: 50 }
    );
    let (tail, action) = tail.step(TailEvent::Completed);
    assert_eq!(tail, LiveTail { node_id: 8, config: config(), state: TailState::Polling });
    assert_eq!(action, poll());
}

#[test]
fn tail_keeps_running_through_many_failures() {
    let (mut tail, _) = LiveTail::new(8, config());
    let mut rests = 0;
    for round in 0..1000 {
        let failure = DatabaseError::ConnectionError(format!("attempt {}", round));
        let (next, action) = tail.step(TailEvent::FetchFailed(failure));
        assert_eq!(action, TailAction::Sleep { millis: 5000 });
        rests += 1;
        let (next, action) = next.step(TailEvent::Completed);
        assert_eq!(action, poll());
        tail = next;
    }
    assert_eq!(rests, 1000);
    assert_eq!(tail.state, TailState::Polling);
}

#[test]
fn tail_leaves_the_poll_standing_when_nothing_answered_it() {
    let (tail, _) = LiveTail::new(8, config());
    let (tail, action) = tail.step(TailEvent::Completed);
    assert_eq!(tail.state, TailState::Polling);
    assert_eq!(action, poll());
}

#[test]
fn tail_polls_after_a_dispatch_or_a_rest_whatever_is_reported() {
    let dispatching = LiveTail { node_id: 8, config: config(), state: TailState::Dispatching };
    let (tail, action) = dispatching.step(TailEvent::Fetched(vec![CapturedFrame::new(1, vec![])]));
    assert_eq!((tail.state, action), (TailState::Polling, poll()));
    let resting = LiveTail { node_id: 8, config: config(), state: TailState::Backoff };
    let (tail, action) =
        resting.step(TailEvent::FetchFailed(DatabaseError::ConnectionError("x".to_string())));
    assert_eq!((tail.state, action), (TailState::Polling, poll()));
}

#[test]
fn tail_forwards_what_the_store_holds_for_the_node() {
    let repository = store();
    let (tail, action) = LiveTail::new(3, TailConfig { batch_limit: 2, ..config() });
    let fetched = match action {
        TailAction::Fetch { node_id, limit } => repository.get_pending(node_id, limit),
        other => panic!("expected a poll, got {:?}", other),
    };
    let (_, action) = tail.step(TailEvent::Fetched(fetched));
    match action {
        TailAction::Dispatch { frames, pause_millis } => {
            assert_eq!(pause_millis, 50);
            assert_eq!(frames.len(), 2);
            assert_eq!(frames[0].captured_at, 1_000);
            assert_eq!(frames[0].payload.len(), 64);
            assert_eq!(frames[1].payload.len(), 1501);
        },
        other => panic!("expected a dispatch, got {:?}", other),
    }
}
