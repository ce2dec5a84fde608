//! What holds of the async bridge over whole histories of events.
//!
//! A history is a sequence of the five things that can happen to the bridge.
//! The executable bridge takes each of these steps exactly as the model here
//! does, so what is proved of all histories holds of every run.

use crate::bridge::{
    among, lemma_complete_keeps_wf, lemma_position_is_unique, lemma_schedule_keeps_wf,
    lemma_turn_keeps_wf, lemma_turn_splits, resolved_in, still_waiting, BridgeView, PendingCall,
    Progress, Response,
};
use crate::error::ErrorBody;
use crate::payload::Payload;
use vstd::prelude::*;

verus! {

/// One thing that happens to the bridge.
pub enum BridgeEvent<T> {
    /// A handler deferred the call `call_id`.
    Schedule { call_id: u64, computation: T },
    /// The computation of the call `call_id` resolved.
    Complete { call_id: u64, outcome: Result<Payload, ErrorBody> },
    /// Every deferred call was given a turn; `turns[i]` is what became of the
    /// `i`-th of them.
    Poll { turns: Seq<Progress<T>> },
    /// The guest yielded: a scheduling point.
    Deliver,
    /// The guest environment was torn down.
    Teardown,
}

/// The bridge after one event.
pub open spec fn step<T>(bridge: BridgeView<T>, event: BridgeEvent<T>) -> BridgeView<T> {
    match event {
        BridgeEvent::Schedule { call_id, computation } => bridge.schedule(call_id, computation),
        BridgeEvent::Complete { call_id, outcome } => bridge.complete(call_id, outcome),
        BridgeEvent::Poll { turns } => if turns.len() == bridge.pending.len() {
            bridge.turn(turns)
        } else {
            bridge
        },
        BridgeEvent::Deliver => bridge.deliver(),
        BridgeEvent::Teardown => bridge.teardown(),
    }
}

/// The responses that one event hands to the guest.
pub open spec fn handed_over<T>(bridge: BridgeView<T>, event: BridgeEvent<T>) -> Seq<Response> {
    match event {
        BridgeEvent::Deliver => bridge.ready,
        _ => Seq::empty(),
    }
}

/// The bridge after a history.
pub open spec fn run<T>(start: BridgeView<T>, events: Seq<BridgeEvent<T>>) -> BridgeView<T>
    decreases events.len(),
{
    if events.len() == 0 {
        start
    } else {
        step(run(start, events.drop_last()), events.last())
    }
}

/// All responses that a history hands to the guest, in order.
pub open spec fn delivered<T>(start: BridgeView<T>, events: Seq<BridgeEvent<T>>) -> Seq<Response>
    decreases events.len(),
{
    if events.len() == 0 {
        Seq::empty()
    } else {
        delivered(start, events.drop_last()) + handed_over(
            run(start, events.drop_last()),
            events.last(),
        )
    }
}

/// How many of `responses` answer the call `call_id`.
pub open spec fn count_for(responses: Seq<Response>, call_id: u64) -> nat
    decreases responses.len(),
{
    if responses.len() == 0 {
        0
    } else {
        count_for(responses.drop_last(), call_id) + if responses.last().call_id == call_id {
            1nat
        } else {
            0nat
        }
    }
}

/// One where the call `call_id` is outstanding, else zero.
pub open spec fn outstanding<T>(bridge: BridgeView<T>, call_id: u64) -> nat {
    if bridge.is_outstanding(call_id) {
        1
    } else {
        0
    }
}

/// One where the event schedules `call_id` and the bridge takes it in.
pub open spec fn taken_in<T>(bridge: BridgeView<T>, event: BridgeEvent<T>, call_id: u64) -> nat {
    match event {
        BridgeEvent::Schedule { call_id: id, .. } => if id == call_id && bridge.refusal(call_id)
            is None {
            1
        } else {
            0
        },
        _ => 0,
    }
}

/// One where the event is a teardown that drops the outstanding call `call_id`.
pub open spec fn dropped_by<T>(bridge: BridgeView<T>, event: BridgeEvent<T>, call_id: u64) -> nat {
    match event {
        BridgeEvent::Teardown => outstanding(bridge, call_id),
        _ => 0,
    }
}

/// How often a history takes the call id `call_id` in.
pub open spec fn times_taken_in<T>(
    start: BridgeView<T>,
    events: Seq<BridgeEvent<T>>,
    call_id: u64,
) -> nat
    decreases events.len(),
{
    if events.len() == 0 {
        0
    } else {
        times_taken_in(start, events.drop_last(), call_id) + taken_in(
            run(start, events.drop_last()),
            events.last(),
            call_id,
        )
    }
}

/// How often a history drops an outstanding call with the id `call_id`.
pub open spec fn times_dropped<T>(
    start: BridgeView<T>,
    events: Seq<BridgeEvent<T>>,
    call_id: u64,
) -> nat
    decreases events.len(),
{
    if events.len() == 0 {
        0
    } else {
        times_dropped(start, events.drop_last(), call_id) + dropped_by(
            run(start, events.drop_last()),
            events.last(),
            call_id,
        )
    }
}

/// How often a history delivers a response for the call id `call_id`.
pub open spec fn times_delivered<T>(
    start: BridgeView<T>,
    events: Seq<BridgeEvent<T>>,
    call_id: u64,
) -> nat {
    count_for(delivered(start, events), call_id)
}

/// Every event keeps the bridge well formed.
pub proof fn lemma_step_keeps_wf<T>(bridge: BridgeView<T>, event: BridgeEvent<T>)
    requires
        bridge.wf(),
    ensures
        step(bridge, event).wf(),
{
    match event {
        BridgeEvent::Schedule { call_id, computation } => {
            lemma_schedule_keeps_wf(bridge, call_id, computation);
        },
        BridgeEvent::Complete { call_id, outcome } => {
            lemma_complete_keeps_wf(bridge, call_id, outcome);
        },
        BridgeEvent::Poll { turns } => {
            if turns.len() == bridge.pending.len() {
                lemma_turn_keeps_wf(bridge, turns);
            }
        },
        BridgeEvent::Deliver => {},
        BridgeEvent::Teardown => {},
    }
}

/// Every history keeps the bridge well formed: at no time is a call id
/// outstanding twice.
pub proof fn lemma_run_keeps_wf<T>(start: BridgeView<T>, events: Seq<BridgeEvent<T>>)
    requires
        start.wf(),
    ensures
        run(start, events).wf(),
    decreases events.len(),
{
    if events.len() > 0 {
        lemma_run_keeps_wf(start, events.drop_last());
        lemma_step_keeps_wf(run(start, events.drop_last()), events.last());
    }
}

/// Counting over two lists in a row adds up.
pub proof fn lemma_count_adds(first: Seq<Response>, second: Seq<Response>, call_id: u64)
    ensures
        count_for(first + second, call_id) == count_for(first, call_id) + count_for(
            second,
            call_id,
        ),
    decreases second.len(),
{
    if second.len() == 0 {
        assert(first + second =~= first);
    } else {
        assert((first + second).drop_last() =~= first + second.drop_last());
        lemma_count_adds(first, second.drop_last(), call_id);
    }
}

/// Among responses with distinct call ids, a call id is answered once where
/// it occurs and never where it does not.
pub proof fn lemma_count_among_distinct(responses: Seq<Response>, call_id: u64)
    requires
        forall|i: int, j: int|
            0 <= i < j < responses.len() ==> (#[trigger] responses[i]).call_id != (
            #[trigger] responses[j]).call_id,
    ensures
        count_for(responses, call_id) == (if exists|i: int|
            0 <= i < responses.len() && (#[trigger] responses[i]).call_id == call_id {
            1nat
        } else {
            0nat
        }),
    decreases responses.len(),
{
    if responses.len() > 0 {
        let head = responses.drop_last();
        let n = head.len() as int;
        assert forall|i: int, j: int| 0 <= i < j < head.len() implies (#[trigger] head[i]).call_id
            != (#[trigger] head[j]).call_id by {
            assert(responses[i].call_id != responses[j].call_id);
        }
        lemma_count_among_distinct(head, call_id);
        let in_head = exists|i: int| 0 <= i < head.len() && (#[trigger] head[i]).call_id == call_id;
        let in_all = exists|i: int|
            0 <= i < responses.len() && (#[trigger] responses[i]).call_id == call_id;
        if in_head {
            let i = choose|i: int| 0 <= i < head.len() && (#[trigger] head[i]).call_id == call_id;
            assert(responses[i].call_id == call_id);
            assert(responses[i].call_id != responses[n].call_id);
        } else if responses.last().call_id == call_id {
            assert(responses[n].call_id == call_id);
        } else if in_all {
            let i = choose|i: int|
                0 <= i < responses.len() && (#[trigger] responses[i]).call_id == call_id;
            assert(head[i].call_id == call_id);
        }
    }
}

/// One event keeps the books of every call id: what was outstanding or is
/// taken in is afterwards delivered, dropped or still outstanding.
pub proof fn lemma_step_keeps_books<T>(bridge: BridgeView<T>, event: BridgeEvent<T>, call_id: u64)
    requires
        bridge.wf(),
    ensures
        outstanding(bridge, call_id) + taken_in(bridge, event, call_id) == count_for(
            handed_over(bridge, event),
            call_id,
        ) + dropped_by(bridge, event, call_id) + outstanding(step(bridge, event), call_id),
{
    let after = step(bridge, event);
    match event {
        BridgeEvent::Schedule { call_id: id, computation } => {
            if bridge.refusal(id) is None {
                let n = bridge.pending.len() as int;
                assert(after.pending[n].call_id == id);
                if id != call_id {
                    if bridge.is_pending(call_id) {
                        let i = bridge.position(call_id);
                        assert(after.pending[i].call_id == call_id);
                    }
                    if after.is_pending(call_id) {
                        let i = after.position(call_id);
                        assert(bridge.pending[i].call_id == call_id);
                    }
                }
            }
        },
        BridgeEvent::Complete { call_id: id, outcome } => {
            if bridge.is_pending(id) {
                let p = bridge.position(id);
                let n = bridge.ready.len() as int;
                assert(after.ready[n].call_id == id);
                if id != call_id {
                    if bridge.is_pending(call_id) {
                        let i = bridge.position(call_id);
                        let moved = if i < p {
                            i
                        } else {
                            i - 1
                        };
                        assert(after.pending[moved].call_id == call_id);
                    }
                    if after.is_pending(call_id) {
                        let i = after.position(call_id);
                        let source = if i < p {
                            i
                        } else {
                            i + 1
                        };
                        assert(bridge.pending[source].call_id == call_id);
                    }
                    if bridge.is_ready(call_id) {
                        let i = choose|i: int|
                            0 <= i < bridge.ready.len() && (#[trigger] bridge.ready[i]).call_id
                                == call_id;
                        assert(after.ready[i].call_id == call_id);
                    }
                    if after.is_ready(call_id) {
                        let i = choose|i: int|
                            0 <= i < after.ready.len() && (#[trigger] after.ready[i]).call_id
                                == call_id;
                        assert(bridge.ready[i].call_id == call_id);
                    }
                }
            }
        },
        BridgeEvent::Poll { turns } => {
            if turns.len() == bridge.pending.len() {
                lemma_turn_splits(bridge.pending, turns);
                let waiting = still_waiting(bridge.pending, turns);
                let resolved = resolved_in(bridge.pending, turns);
                let n = bridge.ready.len() as int;
                if bridge.is_pending(call_id) {
                    let i = bridge.position(call_id);
                    if among(waiting, bridge.pending[i].call_id) {
                        let w = choose|w: int|
                            0 <= w < waiting.len() && (#[trigger] waiting[w]).call_id == call_id;
                        assert(after.pending[w].call_id == call_id);
                    } else {
                        let j = choose|j: int|
                            0 <= j < resolved.len() && (#[trigger] resolved[j]).call_id
                                == bridge.pending[i].call_id;
                        assert(after.ready[n + j].call_id == call_id);
                    }
                }
                if bridge.is_ready(call_id) {
                    let i = choose|i: int|
                        0 <= i < bridge.ready.len() && (#[trigger] bridge.ready[i]).call_id
                            == call_id;
                    assert(after.ready[i].call_id == call_id);
                }
                if after.is_pending(call_id) {
                    let i = after.position(call_id);
                    assert(among(bridge.pending, waiting[i].call_id));
                }
                if after.is_ready(call_id) {
                    let i = choose|i: int|
                        0 <= i < after.ready.len() && (#[trigger] after.ready[i]).call_id
                            == call_id;
                    if i < n {
                        assert(bridge.ready[i].call_id == call_id);
                    } else {
                        assert(among(bridge.pending, resolved[i - n].call_id));
                    }
                }
            }
        },
        BridgeEvent::Deliver => {
            lemma_count_among_distinct(bridge.ready, call_id);
            if bridge.is_pending(call_id) {
                let i = bridge.position(call_id);
                assert(after.pending[i].call_id == call_id);
                if bridge.is_ready(call_id) {
                    let j = choose|j: int|
                        0 <= j < bridge.ready.len() && (#[trigger] bridge.ready[j]).call_id
                            == call_id;
                    assert(bridge.pending[i].call_id != bridge.ready[j].call_id);
                }
            }
        },
        BridgeEvent::Teardown => {},
    }
}

/// The books of every call id balance over every history: as often as the
/// call id was outstanding at the start or taken in since, a response for it
/// was delivered, or it was dropped by a teardown, or it is outstanding now.
pub proof fn lemma_books_balance<T>(
    start: BridgeView<T>,
    events: Seq<BridgeEvent<T>>,
    call_id: u64,
)
    requires
        start.wf(),
    ensures
        outstanding(start, call_id) + times_taken_in(start, events, call_id) == times_delivered(
            start,
            events,
            call_id,
        ) + times_dropped(start, events, call_id) + outstanding(run(start, events), call_id),
    decreases events.len(),
{
    if events.len() > 0 {
        let earlier = events.drop_last();
        let before = run(start, earlier);
        lemma_books_balance(start, earlier, call_id);
        lemma_run_keeps_wf(start, earlier);
        lemma_step_keeps_books(before, events.last(), call_id);
        lemma_count_adds(
            delivered(start, earlier),
            handed_over(before, events.last()),
            call_id,
        );
    }
}

/// No call is answered twice: over every history of a bridge that starts
/// empty, a call id has been delivered at most as often as it was taken in.
pub proof fn lemma_never_delivered_twice<T>(events: Seq<BridgeEvent<T>>, call_id: u64)
    ensures
        times_delivered(BridgeView::<T>::empty(), events, call_id) <= times_taken_in(
            BridgeView::<T>::empty(),
            events,
            call_id,
        ),
{
    let start = BridgeView::<T>::empty();
    lemma_books_balance(start, events, call_id);
    assert(!start.is_outstanding(call_id));
}

/// Whether event `j` of a history that starts on the empty bridge schedules
/// the call id `call_id` and the bridge takes it in.
pub open spec fn taken_in_at<T>(events: Seq<BridgeEvent<T>>, j: int, call_id: u64) -> bool {
    &&& 0 <= j < events.len()
    &&& taken_in(run(BridgeView::<T>::empty(), events.take(j)), events[j], call_id) == 1
}

/// Whether some event of the history schedules `call_id` and the bridge takes it in.
pub open spec fn was_taken_in<T>(events: Seq<BridgeEvent<T>>, call_id: u64) -> bool {
    exists|j: int| taken_in_at(events, j, call_id)
}

/// Whether `event` resolves a pending call of `bridge` into `response`: the
/// response carries the id of that call and the outcome that the event brings.
pub open spec fn resolves<T>(bridge: BridgeView<T>, event: BridgeEvent<T>, response: Response)
    -> bool {
    match event {
        BridgeEvent::Complete { call_id, outcome } => bridge.is_pending(call_id) && response
            == (Response { call_id, outcome }),
        BridgeEvent::Poll { turns } => turns.len() == bridge.pending.len() && exists|i: int|
            0 <= i < turns.len() && #[trigger] turns[i] == Progress::<T>::Finished(
                response.outcome,
            ) && bridge.pending[i].call_id == response.call_id,
        _ => false,
    }
}

/// Whether event `k` of a history that starts on the empty bridge resolves a
/// call that is pending then into `response`.
pub open spec fn resolved_at<T>(events: Seq<BridgeEvent<T>>, k: int, response: Response) -> bool {
    &&& 0 <= k < events.len()
    &&& resolves(run(BridgeView::<T>::empty(), events.take(k)), events[k], response)
}

/// Whether `response` answers a call of the history: an event scheduled a
/// call under the response's id and the bridge took it in, and a later event
/// resolved a pending call of that id with the response's outcome.
pub open spec fn answers_a_call<T>(events: Seq<BridgeEvent<T>>, response: Response) -> bool {
    exists|j: int, k: int|
        j < k && #[trigger] taken_in_at(events, j, response.call_id) && #[trigger] resolved_at(
            events,
            k,
            response,
        )
}

/// What was taken in by a history was taken in by every longer one.
proof fn lemma_taken_in_stays<T>(events: Seq<BridgeEvent<T>>, call_id: u64)
    requires
        events.len() > 0,
        was_taken_in(events.drop_last(), call_id),
    ensures
        was_taken_in(events, call_id),
{
    let earlier = events.drop_last();
    let j = choose|j: int| taken_in_at(earlier, j, call_id);
    assert(earlier.take(j) =~= events.take(j));
    assert(taken_in_at(events, j, call_id));
}

/// What answers a call of a history answers a call of every longer one.
proof fn lemma_answer_stays<T>(events: Seq<BridgeEvent<T>>, response: Response)
    requires
        events.len() > 0,
        answers_a_call(events.drop_last(), response),
    ensures
        answers_a_call(events, response),
{
    let earlier = events.drop_last();
    let (j, k) = choose|j: int, k: int|
        j < k && #[trigger] taken_in_at(earlier, j, response.call_id) && #[trigger] resolved_at(
            earlier,
            k,
            response,
        );
    assert(earlier.take(j) =~= events.take(j));
    assert(earlier.take(k) =~= events.take(k));
    assert(taken_in_at(events, j, response.call_id));
    assert(resolved_at(events, k, response));
}

/// Each response of a turn comes from a call that resolved in that turn:
/// it carries the call's id and the outcome of its computation.
proof fn lemma_resolved_has_source<T>(
    calls: Seq<PendingCall<T>>,
    turns: Seq<Progress<T>>,
    at: int,
)
    requires
        turns.len() == calls.len(),
        0 <= at < resolved_in(calls, turns).len(),
    ensures
        exists|i: int|
            0 <= i < turns.len() && #[trigger] turns[i] == Progress::<T>::Finished(
                resolved_in(calls, turns)[at].outcome,
            ) && calls[i].call_id == resolved_in(calls, turns)[at].call_id,
    decreases calls.len(),
{
    let resolved = resolved_in(calls, turns);
    let head = resolved_in(calls.drop_last(), turns.drop_last());
    let n = calls.len() - 1;
    if at < head.len() {
        lemma_resolved_has_source(calls.drop_last(), turns.drop_last(), at);
        let i = choose|i: int|
            0 <= i < turns.drop_last().len() && #[trigger] turns.drop_last()[i] == Progress::<
                T,
            >::Finished(head[at].outcome) && calls.drop_last()[i].call_id == head[at].call_id;
        assert(turns[i] == Progress::<T>::Finished(resolved[at].outcome));
        assert(calls[i].call_id == resolved[at].call_id);
    } else {
        assert(turns[n] == Progress::<T>::Finished(resolved[at].outcome));
        assert(calls[n].call_id == resolved[at].call_id);
    }
}

/// Over every history of a bridge that starts empty, every call that is
/// pending was scheduled and taken in, and every response, queued or
/// delivered, answers a call of the history.
proof fn lemma_origins<T>(events: Seq<BridgeEvent<T>>)
    ensures
        ({
            let now = run(BridgeView::<T>::empty(), events);
            let out = delivered(BridgeView::<T>::empty(), events);
            &&& forall|i: int|
                0 <= i < now.pending.len() ==> was_taken_in(
                    events,
                    (#[trigger] now.pending[i]).call_id,
                )
            &&& forall|i: int| 0 <= i < now.ready.len() ==> answers_a_call(events, #[trigger] now.ready[i])
            &&& forall|i: int| 0 <= i < out.len() ==> answers_a_call(events, #[trigger] out[i])
        }),
    decreases events.len(),
{
    let start = BridgeView::<T>::empty();
    if events.len() > 0 {
        let earlier = events.drop_last();
        let last = events.last();
        let k = earlier.len() as int;
        let before = run(start, earlier);
        let now = run(start, events);
        let out = delivered(start, events);
        let out_before = delivered(start, earlier);
        lemma_origins(earlier);
        lemma_run_keeps_wf(start, earlier);
        assert(events.take(k) =~= earlier);
        assert forall|i: int| 0 <= i < before.pending.len() implies was_taken_in(
            events,
            (#[trigger] before.pending[i]).call_id,
        ) by {
            lemma_taken_in_stays(events, before.pending[i].call_id);
        }
        assert forall|i: int| 0 <= i < before.ready.len() implies answers_a_call(
            events,
            #[trigger] before.ready[i],
        ) by {
            lemma_answer_stays(events, before.ready[i]);
        }
        assert forall|i: int| 0 <= i < out_before.len() implies answers_a_call(
            events,
            #[trigger] out_before[i],
        ) by {
            lemma_answer_stays(events, out_before[i]);
        }
        match last {
            BridgeEvent::Schedule { call_id, computation } => {
                if before.refusal(call_id) is None {
                    assert(taken_in_at(events, k, call_id));
                    assert forall|i: int| 0 <= i < now.pending.len() implies was_taken_in(
                        events,
                        (#[trigger] now.pending[i]).call_id,
                    ) by {
                        if i < before.pending.len() {
                            assert(now.pending[i] == before.pending[i]);
                        }
                    }
                }
            },
            BridgeEvent::Complete { call_id, outcome } => {
                if before.is_pending(call_id) {
                    let p = before.position(call_id);
                    assert forall|i: int| 0 <= i < now.pending.len() implies was_taken_in(
                        events,
                        (#[trigger] now.pending[i]).call_id,
                    ) by {
                        let source = if i < p {
                            i
                        } else {
                            i + 1
                        };
                        assert(now.pending[i] == before.pending[source]);
                    }
                    let response = Response { call_id, outcome };
                    assert(was_taken_in(events, before.pending[p].call_id));
                    let j = choose|j: int| taken_in_at(events, j, call_id);
                    assert(taken_in_at(events, j, response.call_id));
                    assert(j < k);
                    assert(resolves(before, last, response));
                    assert(resolved_at(events, k, response));
                    assert(answers_a_call(events, response));
                    assert forall|i: int| 0 <= i < now.ready.len() implies answers_a_call(
                        events,
                        #[trigger] now.ready[i],
                    ) by {
                        if i < before.ready.len() {
                            assert(now.ready[i] == before.ready[i]);
                        }
                    }
                }
            },
            BridgeEvent::Poll { turns } => {
                if turns.len() == before.pending.len() {
                    lemma_turn_splits(before.pending, turns);
                    let resolved = resolved_in(before.pending, turns);
                    let n = before.ready.len() as int;
                    assert forall|i: int| 0 <= i < now.pending.len() implies was_taken_in(
                        events,
                        (#[trigger] now.pending[i]).call_id,
                    ) by {
                        assert(among(before.pending, now.pending[i].call_id));
                        let p = choose|p: int|
                            0 <= p < before.pending.len() && (#[trigger] before.pending[p]).call_id
                                == now.pending[i].call_id;
                        assert(was_taken_in(events, before.pending[p].call_id));
                    }
                    assert forall|i: int| 0 <= i < now.ready.len() implies answers_a_call(
                        events,
                        #[trigger] now.ready[i],
                    ) by {
                        if i < n {
                            assert(now.ready[i] == before.ready[i]);
                        } else {
                            let response = resolved[i - n];
                            assert(now.ready[i] == response);
                            lemma_resolved_has_source(before.pending, turns, i - n);
                            let t = choose|t: int|
                                0 <= t < turns.len() && #[trigger] turns[t] == Progress::<
                                    T,
                                >::Finished(response.outcome) && before.pending[t].call_id
                                    == response.call_id;
                            assert(was_taken_in(events, before.pending[t].call_id));
                            let j = choose|j: int| taken_in_at(events, j, response.call_id);
                            assert(j < k);
                            assert(resolved_at(events, k, response));
                        }
                    }
                }
            },
            BridgeEvent::Deliver => {
                assert forall|i: int| 0 <= i < out.len() implies answers_a_call(
                    events,
                    #[trigger] out[i],
                ) by {
                    if i < out_before.len() {
                        assert(out[i] == out_before[i]);
                    } else {
                        assert(out[i] == before.ready[i - out_before.len()]);
                    }
                }
            },
            BridgeEvent::Teardown => {},
        }
        assert(out =~= out_before + handed_over(before, last));
    }
}

/// Each delivered response matches the call that it answers: over every
/// history of a bridge that starts empty, whatever is delivered carries the
/// id of a call that was scheduled and taken in earlier, and the outcome
/// with which a pending call of that id resolved.
pub proof fn lemma_delivered_answers_its_call<T>(events: Seq<BridgeEvent<T>>, at: int)
    requires
        0 <= at < delivered(BridgeView::<T>::empty(), events).len(),
    ensures
        answers_a_call(events, delivered(BridgeView::<T>::empty(), events)[at]),
{
    lemma_origins(events);
}

/// After teardown nothing changes any more and nothing is delivered,
/// whatever happens: calls are refused, late outcomes are dropped, and every
/// scheduling point hands over nothing.
pub proof fn lemma_nothing_after_teardown<T>(bridge: BridgeView<T>, later: Seq<BridgeEvent<T>>)
    ensures
        run(bridge.teardown(), later) == bridge.teardown(),
        delivered(bridge.teardown(), later) == Seq::<Response>::empty(),
    decreases later.len(),
{
    if later.len() > 0 {
        lemma_nothing_after_teardown(bridge, later.drop_last());
        let gone = bridge.teardown();
        match later.last() {
            BridgeEvent::Complete { call_id, .. } => {
                assert(!gone.is_pending(call_id));
            },
            BridgeEvent::Poll { turns } => {
                if turns.len() == 0 {
                    assert(gone.turn(turns).ready =~= gone.ready);
                }
            },
            _ => {},
        }
        assert(step(gone, later.last()) == gone);
        assert(delivered(gone, later) =~= Seq::<Response>::empty());
    }
}

/// Whether `event` leaves the computation of the call `call_id` alone: it
/// is a scheduling point, a new call, or the outcome of another call.
pub open spec fn leaves_alone<T>(event: BridgeEvent<T>, call_id: u64) -> bool {
    match event {
        BridgeEvent::Deliver => true,
        BridgeEvent::Schedule { .. } => true,
        BridgeEvent::Complete { call_id: other, .. } => other != call_id,
        _ => false,
    }
}

/// A pending call stays pending, and nothing is delivered for it, while its
/// computation is left alone, however many scheduling points come.
pub proof fn lemma_unresolved_call_is_not_delivered<T>(
    bridge: BridgeView<T>,
    call_id: u64,
    events: Seq<BridgeEvent<T>>,
)
    requires
        bridge.wf(),
        bridge.is_pending(call_id),
        forall|i: int| 0 <= i < events.len() ==> leaves_alone(#[trigger] events[i], call_id),
    ensures
        run(bridge, events).is_pending(call_id),
        times_delivered(bridge, events, call_id) == 0,
    decreases events.len(),
{
    if events.len() > 0 {
        let earlier = events.drop_last();
        let last = events.last();
        assert forall|i: int| 0 <= i < earlier.len() implies leaves_alone(
            #[trigger] earlier[i],
            call_id,
        ) by {
            assert(earlier[i] == events[i]);
        }
        lemma_unresolved_call_is_not_delivered(bridge, call_id, earlier);
        lemma_run_keeps_wf(bridge, earlier);
        let before = run(bridge, earlier);
        let after = step(before, last);
        let i = before.position(call_id);
        assert(leaves_alone(events[events.len() - 1], call_id));
        match last {
            BridgeEvent::Deliver => {
                lemma_count_among_distinct(before.ready, call_id);
                if before.is_ready(call_id) {
                    let j = choose|j: int|
                        0 <= j < before.ready.len() && (#[trigger] before.ready[j]).call_id
                            == call_id;
                    assert(before.pending[i].call_id != before.ready[j].call_id);
                }
                assert(after.pending[i].call_id == call_id);
            },
            BridgeEvent::Schedule { call_id: id, computation } => {
                assert(after.pending[i].call_id == call_id);
            },
            BridgeEvent::Complete { call_id: other, outcome } => {
                if before.is_pending(other) {
                    let p = before.position(other);
                    let moved = if i < p {
                        i
                    } else {
                        i - 1
                    };
                    assert(after.pending[moved].call_id == call_id);
                }
            },
            _ => {},
        }
        lemma_count_adds(delivered(bridge, earlier), handed_over(before, last), call_id);
    }
}

/// A call that is still pending when the guest environment is torn down is
/// never answered: not at the scheduling points before the teardown, and not
/// by anything that happens after it.
pub proof fn lemma_pending_call_dropped_by_teardown<T>(
    bridge: BridgeView<T>,
    call_id: u64,
    before: Seq<BridgeEvent<T>>,
    later: Seq<BridgeEvent<T>>,
)
    requires
        bridge.wf(),
        bridge.is_pending(call_id),
        forall|i: int| 0 <= i < before.len() ==> leaves_alone(#[trigger] before[i], call_id),
    ensures
        times_delivered(bridge, before, call_id) == 0,
        dropped_by(run(bridge, before), BridgeEvent::<T>::Teardown, call_id) == 1,
        times_delivered(run(bridge, before).teardown(), later, call_id) == 0,
{
    lemma_unresolved_call_is_not_delivered(bridge, call_id, before);
    lemma_nothing_after_teardown(run(bridge, before), later);
}

/// Two calls in flight at once, under different call ids that are both free:
/// once both have resolved, in either order, the next scheduling point hands
/// over what waited before and then one response for each of the two, each
/// under the id of its own call and with its own outcome, in the order in
/// which they resolved. After that point neither is outstanding.
pub proof fn lemma_two_calls_both_delivered<T>(
    bridge: BridgeView<T>,
    first: PendingCall<T>,
    second: PendingCall<T>,
    first_outcome: Result<Payload, ErrorBody>,
    second_outcome: Result<Payload, ErrorBody>,
)
    requires
        bridge.wf(),
        !bridge.torn_down,
        first.call_id != second.call_id,
        !bridge.is_outstanding(first.call_id),
        !bridge.is_outstanding(second.call_id),
    ensures
        ({
            let in_flight = bridge.schedule(first.call_id, first.computation).schedule(
                second.call_id,
                second.computation,
            );
            let in_order = in_flight.complete(first.call_id, first_outcome).complete(
                second.call_id,
                second_outcome,
            );
            let reversed = in_flight.complete(second.call_id, second_outcome).complete(
                first.call_id,
                first_outcome,
            );
            let first_response = Response { call_id: first.call_id, outcome: first_outcome };
            let second_response = Response { call_id: second.call_id, outcome: second_outcome };
            &&& in_flight.is_pending(first.call_id) && in_flight.is_pending(second.call_id)
            &&& in_order.ready == bridge.ready.push(first_response).push(second_response)
            &&& reversed.ready == bridge.ready.push(second_response).push(first_response)
            &&& in_order.pending == bridge.pending
            &&& reversed.pending == bridge.pending
            &&& !in_order.deliver().is_outstanding(first.call_id)
            &&& !in_order.deliver().is_outstanding(second.call_id)
            &&& !reversed.deliver().is_outstanding(first.call_id)
            &&& !reversed.deliver().is_outstanding(second.call_id)
        }),
{
    let one = bridge.schedule(first.call_id, first.computation);
    let n = bridge.pending.len() as int;
    assert(one.pending[n].call_id == first.call_id);
    lemma_schedule_keeps_wf(bridge, first.call_id, first.computation);
    assert(!one.is_outstanding(second.call_id)) by {
        if one.is_pending(second.call_id) {
            let i = one.position(second.call_id);
            assert(bridge.pending[i].call_id == second.call_id);
        }
    }
    let in_flight = one.schedule(second.call_id, second.computation);
    lemma_schedule_keeps_wf(one, second.call_id, second.computation);
    assert(in_flight.pending[n].call_id == first.call_id);
    assert(in_flight.pending[n + 1].call_id == second.call_id);
    lemma_position_is_unique(in_flight, first.call_id, n);
    lemma_position_is_unique(in_flight, second.call_id, n + 1);

    let a = in_flight.complete(first.call_id, first_outcome);
    lemma_complete_keeps_wf(in_flight, first.call_id, first_outcome);
    assert(a.pending[n].call_id == second.call_id);
    lemma_position_is_unique(a, second.call_id, n);
    let in_order = a.complete(second.call_id, second_outcome);
    assert(in_order.pending =~= bridge.pending);

    let b = in_flight.complete(second.call_id, second_outcome);
    lemma_complete_keeps_wf(in_flight, second.call_id, second_outcome);
    assert(b.pending[n].call_id == first.call_id);
    lemma_position_is_unique(b, first.call_id, n);
    let reversed = b.complete(first.call_id, first_outcome);
    assert(reversed.pending =~= bridge.pending);
}

} // verus!
