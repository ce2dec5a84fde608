//! The life of one call, from the moment it is received to the moment its
//! response is handed to the guest, or the call is dropped.

use crate::bridge::{
    among, lemma_turn_splits, resolved_in, still_waiting, AsyncBridge, BridgeView,
};
use crate::dispatch::OpResultView;
use crate::error::OpErrorView;
use crate::history::{step, taken_in, BridgeEvent};
use vstd::prelude::*;

verus! {

/// Where a call stands.
#[derive(Debug, Clone, Copy, PartialEq, Eq, Structural)]
pub enum CallPhase {
    /// The envelope has arrived.
    Received,
    /// The op is known and the capability it requires, if any, is enabled.
    GateChecked,
    /// The payload has been decoded.
    Decoded,
    /// The handler has deferred the call; its computation is at work.
    Pending,
    /// The call has its response: a value or a failure.
    Resolved,
    /// The response has been handed to the guest.
    Delivered,
    /// The guest environment was torn down while the call was pending.
    Dropped,
}

/// What can happen to a call.
#[derive(Debug, Clone, Copy, PartialEq, Eq, Structural)]
pub enum CallEvent {
    /// The registry knew the op and the capability gate let the call pass.
    Passed,
    /// The codec decoded the payload.
    Decoded,
    /// The call got its response in the call frame: the handler answered,
    /// or the call failed on the way.
    Answered,
    /// The handler deferred the call.
    Deferred,
    /// The deferred computation resolved.
    Completed,
    /// A scheduling point came.
    Delivered,
    /// The guest environment was torn down.
    TornDown,
}

/// The phase that follows `phase` on `event`; `None` where the event cannot
/// happen to a call in that phase.
pub open spec fn next_phase(phase: CallPhase, event: CallEvent) -> Option<CallPhase> {
    match (phase, event) {
        (CallPhase::Received, CallEvent::Passed) => Some(CallPhase::GateChecked),
        (CallPhase::Received, CallEvent::Answered) => Some(CallPhase::Resolved),
        (CallPhase::GateChecked, CallEvent::Decoded) => Some(CallPhase::Decoded),
        (CallPhase::GateChecked, CallEvent::Answered) => Some(CallPhase::Resolved),
        (CallPhase::Decoded, CallEvent::Answered) => Some(CallPhase::Resolved),
        (CallPhase::Decoded, CallEvent::Deferred) => Some(CallPhase::Pending),
        (CallPhase::Pending, CallEvent::Completed) => Some(CallPhase::Resolved),
        (CallPhase::Pending, CallEvent::TornDown) => Some(CallPhase::Dropped),
        (CallPhase::Resolved, CallEvent::Delivered) => Some(CallPhase::Delivered),
        _ => None,
    }
}

/// The phase that follows `phase` on `event`; `None` where the event cannot
/// happen to a call in that phase.
pub fn advance(phase: CallPhase, event: CallEvent) -> (next: Option<CallPhase>)
    ensures
        next == next_phase(phase, event),
{
    match (phase, event) {
        (CallPhase::Received, CallEvent::Passed) => Some(CallPhase::GateChecked),
        (CallPhase::Received, CallEvent::Answered) => Some(CallPhase::Resolved),
        (CallPhase::GateChecked, CallEvent::Decoded) => Some(CallPhase::Decoded),
        (CallPhase::GateChecked, CallEvent::Answered) => Some(CallPhase::Resolved),
        (CallPhase::Decoded, CallEvent::Answered) => Some(CallPhase::Resolved),
        (CallPhase::Decoded, CallEvent::Deferred) => Some(CallPhase::Pending),
        (CallPhase::Pending, CallEvent::Completed) => Some(CallPhase::Resolved),
        (CallPhase::Pending, CallEvent::TornDown) => Some(CallPhase::Dropped),
        (CallPhase::Resolved, CallEvent::Delivered) => Some(CallPhase::Delivered),
        _ => None,
    }
}

/// The phase that a call reaches along `events`, starting in `phase`; `None`
/// where one of the events cannot happen.
pub open spec fn phase_after(phase: CallPhase, events: Seq<CallEvent>) -> Option<CallPhase>
    decreases events.len(),
{
    if events.len() == 0 {
        Some(phase)
    } else {
        match phase_after(phase, events.drop_last()) {
            Some(reached) => next_phase(reached, events.last()),
            None => None,
        }
    }
}

/// What happens to a call inside the dispatcher, by its result: a call that
/// the registry or the capability gate fails is answered at once; a call
/// that the codec fails has passed the first two stations; every other call
/// is decoded, and then answered or deferred by its handler.
pub open spec fn path_of(result: OpResultView) -> Seq<CallEvent> {
    match result {
        OpResultView::SyncError(OpErrorView::NotFound { .. }) => seq![CallEvent::Answered],
        OpResultView::SyncError(OpErrorView::UnstableFeature { .. }) => seq![CallEvent::Answered],
        OpResultView::SyncError(OpErrorView::Decode(_)) => seq![
            CallEvent::Passed,
            CallEvent::Answered,
        ],
        OpResultView::AsyncPending(_) => seq![
            CallEvent::Passed,
            CallEvent::Decoded,
            CallEvent::Deferred,
        ],
        _ => seq![CallEvent::Passed, CallEvent::Decoded, CallEvent::Answered],
    }
}

/// The phase in which the dispatcher leaves a call, by its result.
pub open spec fn phase_of(result: OpResultView) -> CallPhase {
    match result {
        OpResultView::AsyncPending(_) => CallPhase::Pending,
        _ => CallPhase::Resolved,
    }
}

/// The phase of the call `call_id` as far as the bridge knows it: pending,
/// resolved, or not outstanding.
pub open spec fn phase_in<T>(bridge: BridgeView<T>, call_id: u64) -> Option<CallPhase> {
    if bridge.is_pending(call_id) {
        Some(CallPhase::Pending)
    } else if bridge.is_ready(call_id) {
        Some(CallPhase::Resolved)
    } else {
        None
    }
}

/// The phase of the call `call_id` as far as the bridge knows it.
pub fn phase<T>(bridge: &AsyncBridge<T>, call_id: u64) -> (phase: Option<CallPhase>)
    ensures
        phase == phase_in(bridge@, call_id),
{
    if bridge.is_pending(call_id) {
        Some(CallPhase::Pending)
    } else if bridge.is_ready(call_id) {
        Some(CallPhase::Resolved)
    } else {
        None
    }
}

/// A call is dropped only while it is pending, and only by a teardown; a
/// response is delivered only for a resolved call; and a call that was
/// delivered or dropped goes nowhere from there.
pub proof fn lemma_ends_of_a_call(phase: CallPhase, event: CallEvent)
    ensures
        next_phase(phase, event) == Some(CallPhase::Dropped) <==> phase == CallPhase::Pending
            && event == CallEvent::TornDown,
        next_phase(phase, event) == Some(CallPhase::Delivered) <==> phase == CallPhase::Resolved
            && event == CallEvent::Delivered,
        next_phase(phase, event) == Some(CallPhase::Pending) <==> phase == CallPhase::Decoded
            && event == CallEvent::Deferred,
        next_phase(CallPhase::Delivered, event) is None,
        next_phase(CallPhase::Dropped, event) is None,
        next_phase(phase, event) != Some(CallPhase::Received),
{
}

/// Whatever the dispatcher returns, the call has gone from received along
/// the path of that result, every step of it a step of the life of a call,
/// and stands where the result says: resolved, or pending.
pub proof fn lemma_dispatch_follows_the_lifecycle(result: OpResultView)
    ensures
        phase_after(CallPhase::Received, path_of(result)) == Some(phase_of(result)),
{
    let path = path_of(result);
    reveal_with_fuel(phase_after, 4);
    if path.len() == 1 {
        assert(path.drop_last() =~= Seq::<CallEvent>::empty());
    } else if path.len() == 2 {
        assert(path.drop_last() =~= seq![CallEvent::Passed]);
        assert(path.drop_last().drop_last() =~= Seq::<CallEvent>::empty());
    } else {
        assert(path.drop_last() =~= seq![CallEvent::Passed, CallEvent::Decoded]);
        assert(path.drop_last().drop_last() =~= seq![CallEvent::Passed]);
        assert(path.drop_last().drop_last().drop_last() =~= Seq::<CallEvent>::empty());
    }
}

/// Every event on the bridge moves every call along the life of a call, or
/// leaves it where it is: a call becomes pending only by being taken in; a
/// pending call becomes resolved when its computation resolves, and leaves
/// the bridge unanswered only by a teardown; a resolved call leaves the
/// bridge at the next scheduling point, delivered, or by a teardown.
pub proof fn lemma_bridge_follows_the_lifecycle<T>(
    bridge: BridgeView<T>,
    event: BridgeEvent<T>,
    call_id: u64,
)
    requires
        bridge.wf(),
    ensures
        ({
            let before = phase_in(bridge, call_id);
            let after = phase_in(step(bridge, event), call_id);
            ||| after == before
            ||| before is None && after == Some(CallPhase::Pending) && taken_in(
                bridge,
                event,
                call_id,
            ) == 1
            ||| before == Some(CallPhase::Pending) && after == Some(CallPhase::Resolved) && (event
                is Complete || event is Poll)
            ||| before == Some(CallPhase::Pending) && after is None && event is Teardown
            ||| before == Some(CallPhase::Resolved) && after is None && (event is Deliver || event
                is Teardown)
        }),
{
    let next = step(bridge, event);
    if bridge.is_pending(call_id) && bridge.is_ready(call_id) {
        let i = bridge.position(call_id);
        let j = choose|j: int|
            0 <= j < bridge.ready.len() && (#[trigger] bridge.ready[j]).call_id == call_id;
        assert(bridge.pending[i].call_id != bridge.ready[j].call_id);
    }
    match event {
        BridgeEvent::Schedule { call_id: id, computation } => {
            if bridge.refusal(id) is None {
                let n = bridge.pending.len() as int;
                assert(next.pending[n].call_id == id);
                if bridge.is_pending(call_id) {
                    let i = bridge.position(call_id);
                    assert(next.pending[i].call_id == call_id);
                }
                if next.is_pending(call_id) && id != call_id {
                    let i = next.position(call_id);
                    assert(bridge.pending[i].call_id == call_id);
                }
            }
        },
        BridgeEvent::Complete { call_id: id, outcome } => {
            if bridge.is_pending(id) {
                let p = bridge.position(id);
                let n = bridge.ready.len() as int;
                assert(next.ready[n].call_id == id);
                if bridge.is_pending(call_id) && id != call_id {
                    let i = bridge.position(call_id);
                    let moved = if i < p {
                        i
                    } else {
                        i - 1
                    };
                    assert(next.pending[moved].call_id == call_id);
                }
                if next.is_pending(call_id) {
                    let i = next.position(call_id);
                    let source = if i < p {
                        i
                    } else {
                        i + 1
                    };
                    assert(bridge.pending[source].call_id == call_id);
                    if id == call_id {
                        if source < p {
                            assert(bridge.pending[source].call_id != bridge.pending[p].call_id);
                        } else {
                            assert(bridge.pending[p].call_id != bridge.pending[source].call_id);
                        }
                    }
                }
                if bridge.is_ready(call_id) {
                    let i = choose|i: int|
                        0 <= i < bridge.ready.len() && (#[trigger] bridge.ready[i]).call_id
                            == call_id;
                    assert(next.ready[i].call_id == call_id);
                }
                if next.is_ready(call_id) && id != call_id {
                    let i = choose|i: int|
                        0 <= i < next.ready.len() && (#[trigger] next.ready[i]).call_id == call_id;
                    assert(bridge.ready[i].call_id == call_id);
                }
            }
        },
        BridgeEvent::Poll { turns } => {
            if turns.len() == bridge.pending.len() {
                lemma_turn_splits(bridge.pending, turns);
                let waiting = still_waiting(bridge.pending, turns);
                let resolved = resolved_in(bridge.pending, turns);
                let n = bridge.ready.len() as int;
                if bridge.is_pending(call_id) {
                    let i = bridge.position(call_id);
                    if among(waiting, bridge.pending[i].call_id) {
                        let w = choose|w: int|
                            0 <= w < waiting.len() && (#[trigger] waiting[w]).call_id == call_id;
                        assert(next.pending[w].call_id == call_id);
                    } else {
                        let j = choose|j: int|
                            0 <= j < resolved.len() && (#[trigger] resolved[j]).call_id
                                == bridge.pending[i].call_id;
                        assert(next.ready[n + j].call_id == call_id);
                    }
                }
                if bridge.is_ready(call_id) {
                    let i = choose|i: int|
                        0 <= i < bridge.ready.len() && (#[trigger] bridge.ready[i]).call_id
                            == call_id;
                    assert(next.ready[i].call_id == call_id);
                }
                if next.is_pending(call_id) {
                    let i = next.position(call_id);
                    assert(among(bridge.pending, waiting[i].call_id));
                    if next.is_ready(call_id) {
                        let j = choose|j: int|
                            0 <= j < next.ready.len() && (#[trigger] next.ready[j]).call_id
                                == call_id;
                        if j < n {
                            assert(bridge.ready[j].call_id == call_id);
                        } else {
                            assert(waiting[i].call_id != resolved[j - n].call_id);
                        }
                    }
                }
                if next.is_ready(call_id) {
                    let i = choose|i: int|
                        0 <= i < next.ready.len() && (#[trigger] next.ready[i]).call_id == call_id;
                    if i < n {
                        assert(bridge.ready[i].call_id == call_id);
                    } else {
                        assert(among(bridge.pending, resolved[i - n].call_id));
                    }
                }
            }
        },
        BridgeEvent::Deliver => {
            if bridge.is_pending(call_id) {
                let i = bridge.position(call_id);
                assert(next.pending[i].call_id == call_id);
            }
            if next.is_pending(call_id) {
                let i = next.position(call_id);
                assert(bridge.pending[i].call_id == call_id);
            }
        },
        BridgeEvent::Teardown => {},
    }
}

} // verus!
