use coalesce_worker::{worker_loop, Coalescer, Msg, Output, Worker, WorkerAction, WorkerEvent, WorkerState};
use std::sync::atomic::{AtomicUsize, Ordering};
use std::sync::mpsc::{Receiver, Sender, TryRecvError};
use std::sync::Arc;

/// Trivial worker that echoes its input and counts its calls.
struct CountingWorker {
    calls: Arc<AtomicUsize>,
}

impl Worker for CountingWorker {
    type Request = u32;
    type Response = u32;

    fn handle(&mut self, req: u32) -> u32 {
        self.calls.fetch_add(1, Ordering::SeqCst);
        req
    }
}

/// Runs the worker side on the current thread until it would block
/// waiting for a new message (or stops).
fn run_until_idle<W: Worker>(
    worker: &mut W,
    rx: &Receiver<Msg<W::Request>>,
    tx: &Sender<Output<W::Response>>,
) -> bool {
    let mut state = WorkerState::new();
    let mut action = WorkerAction::Wait;
    loop {
        let event = match action {
            WorkerAction::Wait => match rx.try_recv() {
                Ok(m) => WorkerEvent::Received(m),
                Err(TryRecvError::Empty) => return true,
                Err(TryRecvError::Disconnected) => WorkerEvent::Disconnected,
            },
            WorkerAction::Drain => match rx.try_recv() {
                Ok(m) => WorkerEvent::Queued(m),
                Err(TryRecvError::Empty) => WorkerEvent::Empty,
                Err(TryRecvError::Disconnected) => WorkerEvent::Disconnected,
            },
            WorkerAction::Handle { generation, request } => {
                let value = worker.handle(request);
                if tx.send(Output { generation, value }).is_ok() {
                    WorkerEvent::Delivered
                } else {
                    WorkerEvent::Undeliverable
                }
            }
            WorkerAction::Stop => return false,
        };
        let (next_state, next_action) = worker_loop(state, event);
        state = next_state;
        action = next_action;
    }
}

fn open() -> (
    Coalescer<CountingWorker>,
    Receiver<Msg<u32>>,
    Sender<Output<u32>>,
) {
    let (c, rx, tx) = Coalescer::<CountingWorker>::open();
    (c, rx.into_inner(), tx.into_inner())
}

fn counting() -> (Arc<AtomicUsize>, CountingWorker) {
    let calls = Arc::new(AtomicUsize::new(0));
    let w = CountingWorker { calls: Arc::clone(&calls) };
    (calls, w)
}

#[test]
fn submit_and_poll_roundtrip() {
    let (_calls, mut w) = counting();
    let (mut c, rx, tx) = open();

    let generation = c.submit(42);
    assert_eq!(generation, 1);

    assert!(run_until_idle(&mut w, &rx, &tx));
    let got = c.poll();
    assert!(got.is_some(), "timed out waiting for response");
    let out = got.unwrap();
    assert_eq!(out.generation, 1);
    assert_eq!(out.value, 42);
}

#[test]
fn poll_returns_newest_when_multiple_pending() {
    let (_calls, mut w) = counting();
    let (mut c, rx, tx) = open();
    for i in 0..5 {
        c.submit(i);
    }
    assert!(run_until_idle(&mut w, &rx, &tx));
    let out = c.poll().expect("should receive at least one response");
    assert!(out.generation <= 5);
    assert!(c.poll().is_none());
}

#[test]
fn coalescing_drops_intermediate_requests() {
    let (calls, mut w) = counting();
    let (mut c, rx, tx) = open();
    for i in 0..100 {
        c.submit(i);
    }
    assert!(run_until_idle(&mut w, &rx, &tx));
    let mut max_gen = 0;
    if let Some(out) = c.poll() {
        max_gen = max_gen.max(out.generation);
    }
    assert_eq!(max_gen, 100, "final request should eventually complete");
    let total_calls = calls.load(Ordering::SeqCst);
    assert!(total_calls < 100, "expected coalescing to drop work, got {total_calls} calls");
    assert_eq!(total_calls, 1);
}

#[test]
fn flush_pending_drops_unread_responses() {
    let (calls, mut w) = counting();
    let (mut c, rx, tx) = open();
    c.submit(1);
    assert!(run_until_idle(&mut w, &rx, &tx));
    assert!(calls.load(Ordering::SeqCst) >= 1);

    c.flush_pending();
    assert!(c.poll().is_none(), "flush should have dropped the pending response");
}

#[test]
fn generation_monotonic() {
    let (mut c, _rx, _tx) = open();
    assert_eq!(c.current_generation(), 0);
    for i in 1..=5 {
        let g = c.submit(i);
        assert_eq!(g, i as u64);
    }
    assert_eq!(c.current_generation(), 5);
}

#[test]
fn drop_shuts_down_cleanly() {
    let (_calls, _w) = counting();
    let (c, _rx, _tx) = open();
    drop(c);
}

#[test]
fn drop_tells_the_worker_to_stop() {
    let (_calls, mut w) = counting();
    let (c, rx, tx) = open();
    drop(c);
    assert!(matches!(rx.try_recv(), Ok(Msg::Shutdown)));
    assert!(!run_until_idle(&mut w, &rx, &tx));
}

#[test]
fn submit_sends_the_request_with_its_generation() {
    let (mut c, rx, _tx) = open();
    c.submit(7);
    c.submit(9);
    match rx.try_recv() {
        Ok(Msg::Run { generation, request }) => {
            assert_eq!(generation, 1);
            assert_eq!(request, 7);
        }
        _ => panic!("expected a request"),
    }
    match rx.try_recv() {
        Ok(Msg::Run { generation, request }) => {
            assert_eq!(generation, 2);
            assert_eq!(request, 9);
        }
        _ => panic!("expected a request"),
    }
}

#[test]
fn poll_keeps_the_highest_generation_of_what_arrived() {
    let (mut c, _rx, tx) = open();
    tx.send(Output { generation: 3, value: 30 }).unwrap();
    tx.send(Output { generation: 7, value: 70 }).unwrap();
    tx.send(Output { generation: 5, value: 50 }).unwrap();
    let out = c.poll().unwrap();
    assert_eq!((out.generation, out.value), (7, 70));
    assert!(c.poll().is_none());
    assert_eq!(c.current_generation(), 0);
}

#[test]
fn poll_on_tie_keeps_the_first_arrival() {
    let (mut c, _rx, tx) = open();
    tx.send(Output { generation: 4, value: 1 }).unwrap();
    tx.send(Output { generation: 4, value: 2 }).unwrap();
    let out = c.poll().unwrap();
    assert_eq!((out.generation, out.value), (4, 1));
}

#[test]
fn poll_with_nothing_arrived_is_none() {
    let (mut c, _rx, _tx) = open();
    assert!(c.poll().is_none());
}

#[test]
fn responses_after_a_flush_are_seen() {
    let (mut c, _rx, tx) = open();
    tx.send(Output { generation: 1, value: 10 }).unwrap();
    c.flush_pending();
    tx.send(Output { generation: 2, value: 20 }).unwrap();
    let out = c.poll().unwrap();
    assert_eq!((out.generation, out.value), (2, 20));
}

#[test]
fn worker_stops_when_shutdown_follows_a_request() {
    let (calls, mut w) = counting();
    let (mut c, rx, tx) = open();
    c.submit(3);
    drop(c);
    // The request and the Shutdown arrive in the same round: the worker
    // stops without processing the request.
    assert!(!run_until_idle(&mut w, &rx, &tx));
    assert_eq!(calls.load(Ordering::SeqCst), 0);
}
