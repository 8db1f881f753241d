//! What one round of the worker loop decides, stated over the whole round.
use crate::worker::{Msg, WorkerAction, WorkerEvent, WorkerState};
use vstd::prelude::*;

verus! {

/// Some message of `msgs` is a `Shutdown`.
pub open spec fn has_shutdown<R>(msgs: Seq<Msg<R>>) -> bool {
    exists|i: int| 0 <= i < msgs.len() && #[trigger] msgs[i] is Shutdown
}

/// Some message of `msgs` is a `Run`.
pub open spec fn has_run<R>(msgs: Seq<Msg<R>>) -> bool {
    exists|i: int| 0 <= i < msgs.len() && #[trigger] msgs[i] is Run
}

/// `i` is the position of the newest request in `msgs`: a `Run` with the
/// highest generation, every `Run` before it having a strictly lower one.
pub open spec fn is_newest_run_at<R>(msgs: Seq<Msg<R>>, i: int) -> bool {
    &&& 0 <= i < msgs.len()
    &&& msgs[i] is Run
    &&& forall|j: int|
        0 <= j < msgs.len() && #[trigger] msgs[j] is Run ==> msgs[j]->generation
            <= msgs[i]->generation
    &&& forall|j: int| 0 <= j < i && #[trigger] msgs[j] is Run ==> msgs[j]->generation < msgs[i]->generation
}

/// The events of a round in which `msgs` arrive: the first through the
/// blocking wait, the others while draining, then the queue is empty.
pub open spec fn round_events<R>(msgs: Seq<Msg<R>>) -> Seq<WorkerEvent<R>> {
    draining_events(msgs).push(WorkerEvent::Empty)
}

/// The events in which `msgs` arrive: the first through the blocking wait,
/// the others while draining.
pub open spec fn draining_events<R>(msgs: Seq<Msg<R>>) -> Seq<WorkerEvent<R>> {
    Seq::new(
        msgs.len(),
        |i: int|
            if i == 0 {
                WorkerEvent::Received(msgs[i])
            } else {
                WorkerEvent::Queued(msgs[i])
            },
    )
}

/// The state and the last action after feeding `events` to the worker loop
/// from state `s`.
pub open spec fn run<R>(s: WorkerState<R>, events: Seq<WorkerEvent<R>>) -> (
    WorkerState<R>,
    WorkerAction<R>,
)
    decreases events.len(),
{
    if events.len() == 0 {
        (s, WorkerAction::Wait)
    } else {
        run(s, events.drop_last()).0.step(events.last())
    }
}

/// The state after absorbing `msgs` in order, starting from `s`.
pub open spec fn absorb_all<R>(s: WorkerState<R>, msgs: Seq<Msg<R>>) -> WorkerState<R>
    decreases msgs.len(),
{
    if msgs.len() == 0 {
        s
    } else {
        absorb_all(s, msgs.drop_last()).absorbed(msgs.last())
    }
}

proof fn lemma_absorb_all<R>(msgs: Seq<Msg<R>>)
    ensures
        ({
            let st = absorb_all(WorkerState::<R>::idle(), msgs);
            &&& st.shutdown == has_shutdown(msgs)
            &&& (st.latest is None <==> !has_run(msgs))
            &&& st.latest matches Some((g, r)) ==> exists|i: int|
                is_newest_run_at(msgs, i) && msgs[i] == Msg::Run { generation: g, request: r }
        }),
    decreases msgs.len(),
{
    if msgs.len() > 0 {
        let pre = msgs.drop_last();
        let m = msgs.last();
        let n = msgs.len() - 1;
        lemma_absorb_all(pre);
        let st0 = absorb_all(WorkerState::<R>::idle(), pre);
        let st = absorb_all(WorkerState::<R>::idle(), msgs);
        assert(st == st0.absorbed(m));
        assert(forall|j: int| 0 <= j < n ==> msgs[j] == pre[j]);
        assert(msgs[n] == m);
        // shutdown
        if has_shutdown(pre) {
            let i = choose|i: int| 0 <= i < pre.len() && #[trigger] pre[i] is Shutdown;
            assert(msgs[i] is Shutdown);
        }
        if has_shutdown(msgs) {
            let i = choose|i: int| 0 <= i < msgs.len() && #[trigger] msgs[i] is Shutdown;
            if i < n {
                assert(pre[i] is Shutdown);
            }
        }
        if has_run(pre) {
            let i = choose|i: int| 0 <= i < pre.len() && #[trigger] pre[i] is Run;
            assert(msgs[i] is Run);
        }
        if has_run(msgs) {
            let i = choose|i: int| 0 <= i < msgs.len() && #[trigger] msgs[i] is Run;
            if i < n {
                assert(pre[i] is Run);
            }
        }
        match m {
            Msg::Run { generation, request } => {
                match st0.latest {
                    Some((g0, r0)) => {
                        let i0 = choose|i: int|
                            is_newest_run_at(pre, i) && pre[i] == Msg::Run {
                                generation: g0,
                                request: r0,
                            };
                        if g0 >= generation {
                            assert(is_newest_run_at(msgs, i0));
                        } else {
                            assert(is_newest_run_at(msgs, n));
                        }
                    },
                    None => {
                        assert forall|j: int| 0 <= j < n implies !(#[trigger] msgs[j] is Run) by {
                            if msgs[j] is Run {
                                assert(pre[j] is Run);
                            }
                        }
                        assert(is_newest_run_at(msgs, n));
                    },
                }
            },
            Msg::Shutdown => {
                match st0.latest {
                    Some((g0, r0)) => {
                        let i0 = choose|i: int|
                            is_newest_run_at(pre, i) && pre[i] == Msg::Run {
                                generation: g0,
                                request: r0,
                            };
                        assert(is_newest_run_at(msgs, i0));
                    },
                    None => {},
                }
            },
        }
    }
}

proof fn lemma_draining<R>(s: WorkerState<R>, msgs: Seq<Msg<R>>)
    requires
        msgs.len() > 0,
    ensures
        run(s, draining_events(msgs)) == (
            absorb_all(WorkerState::<R>::idle(), msgs),
            WorkerAction::<R>::Drain,
        ),
    decreases msgs.len(),
{
    let ev = draining_events(msgs);
    let pre = msgs.drop_last();
    assert(ev.last() == if msgs.len() == 1 {
        WorkerEvent::Received(msgs.last())
    } else {
        WorkerEvent::Queued(msgs.last())
    });
    if msgs.len() == 1 {
        assert(ev.drop_last() =~= Seq::<WorkerEvent<R>>::empty());
        assert(pre =~= Seq::<Msg<R>>::empty());
        assert(absorb_all(WorkerState::<R>::idle(), pre) == WorkerState::<R>::idle());
    } else {
        assert(ev.drop_last() =~= draining_events(pre));
        lemma_draining(s, pre);
    }
}

/// A round coalesces its messages: when `msgs` arrive in one round (the
/// first through the blocking wait, the rest while draining) and the queue
/// is then found empty, the worker stops if any of them is a `Shutdown`;
/// otherwise it processes only the newest request (highest generation, the
/// earliest on a tie) and drops the rest, or waits again if there was none.
/// What happened in earlier rounds plays no part.
pub proof fn lemma_round_coalesces<R>(s: WorkerState<R>, msgs: Seq<Msg<R>>)
    requires
        msgs.len() > 0,
    ensures
        ({
            let a = run(s, round_events(msgs)).1;
            &&& has_shutdown(msgs) ==> a is Stop
            &&& !has_shutdown(msgs) && !has_run(msgs) ==> a is Wait
            &&& !has_shutdown(msgs) && has_run(msgs) ==> exists|i: int|
                is_newest_run_at(msgs, i) && a == WorkerAction::Handle {
                    generation: msgs[i]->generation,
                    request: msgs[i]->request,
                }
        }),
{
    lemma_draining(s, msgs);
    lemma_absorb_all(msgs);
    let ev = round_events(msgs);
    assert(ev.drop_last() =~= draining_events(msgs));
    assert(ev.last() == WorkerEvent::<R>::Empty);
}

/// At most one position of `msgs` holds the newest request, so the request
/// that a round processes is determined by the round's messages.
pub proof fn lemma_newest_run_unique<R>(msgs: Seq<Msg<R>>, i: int, k: int)
    requires
        is_newest_run_at(msgs, i),
        is_newest_run_at(msgs, k),
    ensures
        i == k,
{
    if i < k {
        assert(msgs[i] is Run);
    } else if k < i {
        assert(msgs[k] is Run);
    }
}

/// The requests that the worker processes along `events` from state `s`,
/// as (generation, request) pairs in order: one for each `Handle` action.
pub open spec fn handled<R>(s: WorkerState<R>, events: Seq<WorkerEvent<R>>) -> Seq<(u64, R)>
    decreases events.len(),
{
    if events.len() == 0 {
        Seq::empty()
    } else {
        let rest = handled(s, events.drop_last());
        match run(s, events).1 {
            WorkerAction::Handle { generation, request } => rest.push((generation, request)),
            _ => rest,
        }
    }
}

/// The events of a complete round in which `msgs` arrive: the round itself,
/// then, when a request was processed, the successful delivery of its
/// response.
pub open spec fn round_block<R>(msgs: Seq<Msg<R>>) -> Seq<WorkerEvent<R>> {
    if has_run(msgs) && !has_shutdown(msgs) {
        round_events(msgs).push(WorkerEvent::Delivered)
    } else {
        round_events(msgs)
    }
}

/// The events of consecutive complete rounds, one per element of `rounds`.
pub open spec fn session<R>(rounds: Seq<Seq<Msg<R>>>) -> Seq<WorkerEvent<R>>
    decreases rounds.len(),
{
    if rounds.len() == 0 {
        Seq::empty()
    } else {
        session(rounds.drop_last()) + round_block(rounds.last())
    }
}

/// The generation and request of the newest request in `msgs`.
pub open spec fn newest_request<R>(msgs: Seq<Msg<R>>) -> (u64, R) {
    let i = choose|i: int| is_newest_run_at(msgs, i);
    (msgs[i]->generation, msgs[i]->request)
}

/// What a worker should process over `rounds`: the newest request of each
/// round that holds one, in order, and nothing else.
pub open spec fn processed<R>(rounds: Seq<Seq<Msg<R>>>) -> Seq<(u64, R)>
    decreases rounds.len(),
{
    if rounds.len() == 0 {
        Seq::empty()
    } else {
        let rest = processed(rounds.drop_last());
        if has_run(rounds.last()) {
            rest.push(newest_request(rounds.last()))
        } else {
            rest
        }
    }
}

/// Feeding `a` then `b` is feeding `b` from where `a` left the worker: the
/// requests processed along `a + b` are those along `a` followed by those
/// along `b`.
pub proof fn lemma_run_concat<R>(s: WorkerState<R>, a: Seq<WorkerEvent<R>>, b: Seq<WorkerEvent<R>>)
    ensures
        run(s, a + b).0 == run(run(s, a).0, b).0,
        b.len() > 0 ==> run(s, a + b).1 == run(run(s, a).0, b).1,
        handled(s, a + b) == handled(s, a) + handled(run(s, a).0, b),
    decreases b.len(),
{
    let t = run(s, a).0;
    if b.len() == 0 {
        assert(a + b =~= a);
        assert(handled(s, a) + handled(t, b) =~= handled(s, a));
    } else {
        let b0 = b.drop_last();
        lemma_run_concat(s, a, b0);
        assert((a + b).drop_last() =~= a + b0);
        assert((a + b).last() == b.last());
        let h = handled(s, a) + handled(t, b0);
        match run(t, b).1 {
            WorkerAction::Handle { generation, request } => {
                assert(h.push((generation, request)) =~= handled(s, a) + handled(t, b0).push(
                    (generation, request),
                ));
            },
            _ => {},
        }
    }
}

proof fn lemma_draining_handles_nothing<R>(s: WorkerState<R>, msgs: Seq<Msg<R>>)
    ensures
        handled(s, draining_events(msgs)) == Seq::<(u64, R)>::empty(),
    decreases msgs.len(),
{
    if msgs.len() > 0 {
        let ev = draining_events(msgs);
        let pre = msgs.drop_last();
        assert(ev.drop_last() =~= draining_events(pre));
        lemma_draining_handles_nothing(s, pre);
        lemma_draining(s, msgs);
    }
}

proof fn lemma_round_block<R>(s: WorkerState<R>, msgs: Seq<Msg<R>>)
    requires
        msgs.len() > 0,
        !has_shutdown(msgs),
    ensures
        handled(s, round_block(msgs)) == (if has_run(msgs) {
            seq![newest_request(msgs)]
        } else {
            Seq::<(u64, R)>::empty()
        }),
{
    let ev = round_events(msgs);
    assert(ev.drop_last() =~= draining_events(msgs));
    lemma_draining_handles_nothing(s, msgs);
    lemma_round_coalesces(s, msgs);
    if has_run(msgs) {
        let i = choose|i: int|
            is_newest_run_at(msgs, i) && run(s, ev).1 == WorkerAction::Handle {
                generation: msgs[i]->generation,
                request: msgs[i]->request,
            };
        let k = choose|k: int| is_newest_run_at(msgs, k);
        lemma_newest_run_unique(msgs, i, k);
        assert(handled(s, ev) =~= seq![newest_request(msgs)]);
        let blk = round_block(msgs);
        assert(blk.drop_last() =~= ev);
        assert(blk.last() == WorkerEvent::<R>::Delivered);
    } else {
        assert(handled(s, ev) =~= Seq::<(u64, R)>::empty());
    }
}

/// A round that holds a `Shutdown` (as sent when the dispatcher is dropped)
/// processes none of its requests, even those queued before the `Shutdown`,
/// and the worker stops.
pub proof fn lemma_shutdown_round_handles_nothing<R>(s: WorkerState<R>, msgs: Seq<Msg<R>>)
    requires
        msgs.len() > 0,
        has_shutdown(msgs),
    ensures
        handled(s, round_events(msgs)) == Seq::<(u64, R)>::empty(),
        run(s, round_events(msgs)).1 is Stop,
{
    let ev = round_events(msgs);
    assert(ev.drop_last() =~= draining_events(msgs));
    lemma_draining_handles_nothing(s, msgs);
    lemma_round_coalesces(s, msgs);
}

/// Over consecutive rounds without a `Shutdown` (each response delivered),
/// the worker processes exactly the newest request of each round that
/// holds one, in order: one request per such round, none twice, and none
/// of the older requests that the round superseded.
pub proof fn lemma_rounds_processed<R>(s: WorkerState<R>, rounds: Seq<Seq<Msg<R>>>)
    requires
        forall|k: int|
            0 <= k < rounds.len() ==> #[trigger] rounds[k].len() > 0 && !has_shutdown(rounds[k]),
    ensures
        handled(s, session(rounds)) == processed(rounds),
        processed(rounds).len() <= rounds.len(),
        (forall|k: int| 0 <= k < rounds.len() ==> has_run(#[trigger] rounds[k]))
            ==> processed(rounds).len() == rounds.len(),
    decreases rounds.len(),
{
    if rounds.len() > 0 {
        let pre = rounds.drop_last();
        assert forall|k: int| 0 <= k < pre.len() implies #[trigger] pre[k].len() > 0 && !has_shutdown(
            pre[k],
        ) by {
            assert(pre[k] == rounds[k]);
        }
        lemma_rounds_processed(s, pre);
        let last = rounds.last();
        if forall|k: int| 0 <= k < rounds.len() ==> has_run(#[trigger] rounds[k]) {
            assert forall|k: int| 0 <= k < pre.len() implies has_run(#[trigger] pre[k]) by {
                assert(pre[k] == rounds[k]);
                assert(has_run(rounds[k]));
            }
            assert(has_run(rounds[rounds.len() - 1]));
        }
        assert(last == rounds[rounds.len() - 1]);
        lemma_run_concat(s, session(pre), round_block(last));
        lemma_round_block(run(s, session(pre)).0, last);
        if has_run(last) {
            assert(processed(pre) + seq![newest_request(last)] =~= processed(pre).push(
                newest_request(last),
            ));
        } else {
            assert(processed(pre) + Seq::<(u64, R)>::empty() =~= processed(pre));
        }
    }
}

/// `g` is the generation of the newest request of one of `rounds`.
spec fn newest_generation_in<R>(rounds: Seq<Seq<Msg<R>>>, g: u64) -> bool {
    exists|a: int, i: int|
        0 <= a < rounds.len() && is_newest_run_at(rounds[a], i) && g == rounds[a][i]->generation
}

proof fn lemma_processed_from_rounds<R>(rounds: Seq<Seq<Msg<R>>>)
    ensures
        forall|p: int|
            0 <= p < processed(rounds).len() ==> newest_generation_in(
                rounds,
                #[trigger] processed(rounds)[p].0,
            ),
    decreases rounds.len(),
{
    if rounds.len() > 0 {
        let pre = rounds.drop_last();
        lemma_processed_from_rounds(pre);
        let last = rounds.last();
        let n = rounds.len() - 1;
        assert forall|p: int| 0 <= p < processed(rounds).len() implies newest_generation_in(
            rounds,
            #[trigger] processed(rounds)[p].0,
        ) by {
            if p < processed(pre).len() {
                assert(processed(rounds)[p] == processed(pre)[p]);
                assert(newest_generation_in(pre, processed(pre)[p].0));
                let (a, i) = choose|a: int, i: int|
                    0 <= a < pre.len() && is_newest_run_at(pre[a], i) && processed(pre)[p].0
                        == pre[a][i]->generation;
                assert(pre[a] == rounds[a]);
                assert(0 <= a < rounds.len() && is_newest_run_at(rounds[a], i) && processed(
                    rounds,
                )[p].0 == rounds[a][i]->generation);
            } else {
                assert(has_run(last));
                let w = choose|i: int| 0 <= i < last.len() && #[trigger] last[i] is Run;
                lemma_newest_exists(last, w);
                let i = choose|i: int| is_newest_run_at(last, i);
                assert(processed(rounds)[p] == newest_request(last));
                assert(rounds[n] == last);
                assert(0 <= n < rounds.len() && is_newest_run_at(rounds[n], i) && processed(
                    rounds,
                )[p].0 == rounds[n][i]->generation);
            }
        }
    }
}

proof fn lemma_newest_exists<R>(msgs: Seq<Msg<R>>, w: int)
    requires
        0 <= w < msgs.len(),
        msgs[w] is Run,
    ensures
        exists|i: int| is_newest_run_at(msgs, i),
{
    lemma_absorb_all(msgs);
    let st = absorb_all(WorkerState::<R>::idle(), msgs);
    assert(has_run(msgs));
    assert(st.latest is Some);
}

/// When every request of an earlier round has a lower generation than every
/// request of a later round (as `Coalescer::submit` numbers them), the
/// generations of the processed requests, and so of the responses sent back,
/// strictly rise.
pub proof fn lemma_processed_generations_rise<R>(rounds: Seq<Seq<Msg<R>>>)
    requires
        forall|a: int, b: int, i: int, j: int|
            0 <= a < b < rounds.len() && 0 <= i < rounds[a].len() && 0 <= j < rounds[b].len()
                && #[trigger] rounds[a][i] is Run && #[trigger] rounds[b][j] is Run
                ==> rounds[a][i]->generation < rounds[b][j]->generation,
    ensures
        forall|p: int, q: int|
            0 <= p < q < processed(rounds).len() ==> #[trigger] processed(rounds)[p].0
                < #[trigger] processed(rounds)[q].0,
    decreases rounds.len(),
{
    if rounds.len() > 0 {
        let pre = rounds.drop_last();
        let last = rounds.last();
        let n = rounds.len() - 1;
        assert forall|a: int, b: int, i: int, j: int|
            0 <= a < b < pre.len() && 0 <= i < pre[a].len() && 0 <= j < pre[b].len()
                && #[trigger] pre[a][i] is Run && #[trigger] pre[b][j] is Run implies pre[a][i]->generation
            < pre[b][j]->generation by {
            assert(pre[a] == rounds[a]);
            assert(pre[b] == rounds[b]);
        }
        lemma_processed_generations_rise(pre);
        lemma_processed_from_rounds(pre);
        if has_run(last) {
            let w = choose|i: int| 0 <= i < last.len() && #[trigger] last[i] is Run;
            lemma_newest_exists(last, w);
            let k = choose|i: int| is_newest_run_at(last, i);
            assert(rounds[n] == last);
            assert forall|p: int, q: int|
                0 <= p < q < processed(rounds).len() implies #[trigger] processed(rounds)[p].0
                < #[trigger] processed(rounds)[q].0 by {
                assert(processed(rounds)[p] == processed(pre)[p]);
                if q < processed(pre).len() {
                    assert(processed(rounds)[q] == processed(pre)[q]);
                } else {
                    assert(newest_generation_in(pre, processed(pre)[p].0));
                    let (a, i) = choose|a: int, i: int|
                        0 <= a < pre.len() && is_newest_run_at(pre[a], i) && processed(pre)[p].0
                            == pre[a][i]->generation;
                    assert(pre[a] == rounds[a]);
                    assert(rounds[a][i] is Run);
                    assert(rounds[n][k] is Run);
                }
            }
        }
    }
}

/// A session of rounds without a `Shutdown` that ends in a round holding
/// one (as when the dispatcher is dropped): the worker processes the newest
/// request of each earlier round and none of the last round's, then stops.
pub proof fn lemma_session_ends_on_shutdown<R>(
    s: WorkerState<R>,
    rounds: Seq<Seq<Msg<R>>>,
    last: Seq<Msg<R>>,
)
    requires
        forall|k: int|
            0 <= k < rounds.len() ==> #[trigger] rounds[k].len() > 0 && !has_shutdown(rounds[k]),
        last.len() > 0,
        has_shutdown(last),
    ensures
        handled(s, session(rounds) + round_events(last)) == processed(rounds),
        run(s, session(rounds) + round_events(last)).1 is Stop,
{
    lemma_rounds_processed(s, rounds);
    lemma_run_concat(s, session(rounds), round_events(last));
    lemma_shutdown_round_handles_nothing(run(s, session(rounds)).0, last);
    assert(processed(rounds) + Seq::<(u64, R)>::empty() =~= processed(rounds));
}

/// Whatever the worker has collected, finding that every sender of
/// requests is gone stops it without processing anything.
pub proof fn lemma_disconnect_stops<R>(s: WorkerState<R>)
    ensures
        s.step(WorkerEvent::Disconnected).1 is Stop,
{
}

/// Whatever the worker has collected, finding that the dispatcher is gone
/// when sending a response stops it.
pub proof fn lemma_undeliverable_stops<R>(s: WorkerState<R>)
    ensures
        s.step(WorkerEvent::Undeliverable).1 is Stop,
{
}

/// Whatever state the worker is in, once a response has been delivered it
/// waits for the next request: it keeps serving.
pub proof fn lemma_delivered_waits<R>(s: WorkerState<R>)
    ensures
        s.step(WorkerEvent::Delivered).1 is Wait,
{
}

/// A round cut off because every sender of requests is gone (as when the
/// dispatcher is dropped while requests are queued) processes none of its
/// requests, whether or not a `Shutdown` came first, and the worker stops.
pub proof fn lemma_round_cut_off<R>(s: WorkerState<R>, msgs: Seq<Msg<R>>)
    ensures
        handled(s, draining_events(msgs).push(WorkerEvent::Disconnected)) == Seq::<
            (u64, R),
        >::empty(),
        run(s, draining_events(msgs).push(WorkerEvent::Disconnected)).1 is Stop,
{
    let ev = draining_events(msgs).push(WorkerEvent::Disconnected);
    assert(ev.drop_last() =~= draining_events(msgs));
    lemma_draining_handles_nothing(s, msgs);
}

/// A complete round without a `Shutdown` leaves the worker waiting for the
/// next request, whether it processed one or not.
pub proof fn lemma_round_block_waits<R>(s: WorkerState<R>, msgs: Seq<Msg<R>>)
    requires
        msgs.len() > 0,
        !has_shutdown(msgs),
    ensures
        run(s, round_block(msgs)).1 is Wait,
{
    let ev = round_events(msgs);
    assert(ev.drop_last() =~= draining_events(msgs));
    lemma_round_coalesces(s, msgs);
    if has_run(msgs) {
        let blk = round_block(msgs);
        assert(blk.drop_last() =~= ev);
        assert(blk.last() == WorkerEvent::<R>::Delivered);
    }
}

/// The worker keeps serving: after any number (at least one) of complete
/// rounds without a `Shutdown`, each response delivered, it is waiting for
/// the next request.
pub proof fn lemma_session_keeps_serving<R>(s: WorkerState<R>, rounds: Seq<Seq<Msg<R>>>)
    requires
        rounds.len() > 0,
        forall|k: int|
            0 <= k < rounds.len() ==> #[trigger] rounds[k].len() > 0 && !has_shutdown(rounds[k]),
    ensures
        run(s, session(rounds)).1 is Wait,
{
    let pre = rounds.drop_last();
    let last = rounds.last();
    assert(last == rounds[rounds.len() - 1]);
    lemma_run_concat(s, session(pre), round_block(last));
    lemma_round_block_waits(run(s, session(pre)).0, last);
}

/// A session of rounds without a `Shutdown`, then a round cut off because
/// every sender is gone: the worker processes the newest request of each
/// complete round and none of the cut-off round's, then stops.
pub proof fn lemma_session_cut_off<R>(
    s: WorkerState<R>,
    rounds: Seq<Seq<Msg<R>>>,
    last: Seq<Msg<R>>,
)
    requires
        forall|k: int|
            0 <= k < rounds.len() ==> #[trigger] rounds[k].len() > 0 && !has_shutdown(rounds[k]),
    ensures
        handled(s, session(rounds) + draining_events(last).push(WorkerEvent::Disconnected))
            == processed(rounds),
        run(s, session(rounds) + draining_events(last).push(WorkerEvent::Disconnected)).1 is Stop,
{
    let tail = draining_events(last).push(WorkerEvent::Disconnected);
    lemma_rounds_processed(s, rounds);
    lemma_run_concat(s, session(rounds), tail);
    lemma_round_cut_off(run(s, session(rounds)).0, last);
    assert(processed(rounds) + Seq::<(u64, R)>::empty() =~= processed(rounds));
}

} // verus!
