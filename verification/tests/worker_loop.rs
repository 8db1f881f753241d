use coalesce_worker::{newest, worker_loop, Msg, Output, WorkerAction, WorkerEvent, WorkerState};

fn run(m: u64, r: &'static str) -> Msg<&'static str> {
    Msg::Run { generation: m, request: r }
}

/// Feeds one round (first message received, the rest drained, then the
/// queue is empty) and returns the final action.
fn round(msgs: Vec<Msg<&'static str>>) -> WorkerAction<&'static str> {
    let mut state = WorkerState::new();
    let mut action = WorkerAction::Wait;
    for (k, m) in msgs.into_iter().enumerate() {
        let event = if k == 0 { WorkerEvent::Received(m) } else { WorkerEvent::Queued(m) };
        let (s, a) = worker_loop(state, event);
        assert!(matches!(a, WorkerAction::Drain));
        state = s;
        action = a;
    }
    let _ = action;
    worker_loop(state, WorkerEvent::Empty).1
}

#[test]
fn round_processes_only_the_newest_request() {
    match round(vec![run(3, "a"), run(5, "b"), run(4, "c")]) {
        WorkerAction::Handle { generation, request } => {
            assert_eq!(generation, 5);
            assert_eq!(request, "b");
        }
        _ => panic!("expected Handle"),
    }
}

#[test]
fn round_tie_keeps_the_earlier_request() {
    match round(vec![run(5, "first"), run(5, "second"), run(2, "old")]) {
        WorkerAction::Handle { generation, request } => {
            assert_eq!(generation, 5);
            assert_eq!(request, "first");
        }
        _ => panic!("expected Handle"),
    }
}

#[test]
fn round_with_shutdown_stops() {
    assert!(matches!(round(vec![run(1, "a"), Msg::Shutdown, run(2, "b")]), WorkerAction::Stop));
    assert!(matches!(round(vec![Msg::Shutdown]), WorkerAction::Stop));
}

#[test]
fn single_request_round_is_processed() {
    match round(vec![run(1, "only")]) {
        WorkerAction::Handle { generation, request } => {
            assert_eq!((generation, request), (1, "only"));
        }
        _ => panic!("expected Handle"),
    }
}

#[test]
fn received_starts_a_fresh_round() {
    let (s, _) = worker_loop(WorkerState::new(), WorkerEvent::Received(run(9, "old")));
    let (s, a) = worker_loop(s, WorkerEvent::Received(run(2, "new")));
    assert!(matches!(a, WorkerAction::Drain));
    assert_eq!(s.latest, Some((2, "new")));
    assert!(!s.shutdown);
}

#[test]
fn empty_without_requests_waits() {
    let (s, a) = worker_loop(WorkerState::<u8>::new(), WorkerEvent::Empty);
    assert!(matches!(a, WorkerAction::Wait));
    assert!(s.latest.is_none());
}

#[test]
fn disconnect_and_failed_delivery_stop() {
    assert!(matches!(worker_loop(WorkerState::<u8>::new(), WorkerEvent::Disconnected).1, WorkerAction::Stop));
    assert!(matches!(worker_loop(WorkerState::<u8>::new(), WorkerEvent::Undeliverable).1, WorkerAction::Stop));
    let s = WorkerState { latest: Some((4u64, 1u8)), shutdown: false };
    assert!(matches!(worker_loop(s, WorkerEvent::Disconnected).1, WorkerAction::Stop));
}

#[test]
fn delivered_waits_again() {
    assert!(matches!(worker_loop(WorkerState::<u8>::new(), WorkerEvent::Delivered).1, WorkerAction::Wait));
}

#[test]
fn absorb_keeps_newer_and_remembers_shutdown() {
    let s = WorkerState::new().absorb(run(4, "x"));
    let s = s.absorb(run(3, "y"));
    assert_eq!(s.latest, Some((4, "x")));
    let s = s.absorb(run(4, "z"));
    assert_eq!(s.latest, Some((4, "x")));
    let s = s.absorb(run(6, "w"));
    assert_eq!(s.latest, Some((6, "w")));
    let s = s.absorb(Msg::Shutdown);
    assert!(s.shutdown);
    assert_eq!(s.latest, Some((6, "w")));
}

#[test]
fn newest_picks_highest_generation_first_on_tie() {
    let v = vec![
        Output { generation: 2, value: 'a' },
        Output { generation: 9, value: 'b' },
        Output { generation: 9, value: 'c' },
        Output { generation: 1, value: 'd' },
    ];
    let out = newest(v).unwrap();
    assert_eq!((out.generation, out.value), (9, 'b'));
    assert!(newest::<char>(Vec::new()).is_none());
    let one = newest(vec![Output { generation: 0, value: 5 }]).unwrap();
    assert_eq!((one.generation, one.value), (0, 5));
}

#[test]
fn consecutive_rounds_process_one_rising_request_each() {
    let rounds = vec![
        vec![run(1, "a"), run(2, "b")],
        vec![run(3, "c")],
        vec![run(4, "d"), run(5, "e"), run(6, "f")],
    ];
    let mut state = WorkerState::new();
    let mut handled = Vec::new();
    for msgs in rounds {
        for (k, m) in msgs.into_iter().enumerate() {
            let event = if k == 0 { WorkerEvent::Received(m) } else { WorkerEvent::Queued(m) };
            let (s, a) = worker_loop(state, event);
            assert!(matches!(a, WorkerAction::Drain));
            state = s;
        }
        let (s, a) = worker_loop(state, WorkerEvent::Empty);
        match a {
            WorkerAction::Handle { generation, request } => handled.push((generation, request)),
            _ => panic!("expected Handle"),
        }
        let (s, a) = worker_loop(s, WorkerEvent::Delivered);
        assert!(matches!(a, WorkerAction::Wait));
        state = s;
    }
    assert_eq!(handled, vec![(2, "b"), (3, "c"), (6, "f")]);
}
