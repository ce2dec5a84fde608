//! The dispatcher: from a call envelope to the call's result.
//!
//! A call passes four stations, in this order and no other: the registry
//! resolves the op's name; the capability gate is asked for what the op
//! requires; the codec decodes the payload; the handler runs. The first
//! station that fails ends the call, so a call to an unknown op never
//! reaches the capability gate, and a refused call is never decoded.

use crate::bridge::{AsyncBridge, BridgeView, Response, ResponseView};
use crate::codec::{decode, typed_args_of, TypedArgs, TypedArgsView};
use crate::error::{ErrorBody, OpError, OpErrorView};
use crate::gate::{gate_answer, CapabilityGate};
use crate::payload::Payload;
use crate::registry::{OpEntry, OpRegistry};
use crate::text::owned_text;
use vstd::prelude::*;

verus! {

/// One call of an op: the op's name, the id under which the guest awaits the
/// answer, the structured arguments, and a raw buffer that is handed to the
/// handler as it is.
#[derive(Debug, PartialEq, Eq)]
pub struct CallEnvelope<B> {
    pub op_name: String,
    pub call_id: u64,
    pub payload: Payload,
    pub buffer: Option<B>,
}

/// What a handler hands back: a value or a failure at once, or a computation
/// that resolves later.
#[derive(Debug, PartialEq, Eq)]
pub enum HandlerOutcome<T> {
    Sync(Result<Payload, ErrorBody>),
    Async(T),
}

/// How a call has ended for now: with a value, with a failure, or deferred
/// under the handle by which its response will be known.
#[derive(Debug, PartialEq, Eq)]
pub enum OpResult {
    SyncValue(Payload),
    SyncError(OpError),
    AsyncPending(u64),
}

/// The model of an [`OpResult`].
pub enum OpResultView {
    SyncValue(Payload),
    SyncError(OpErrorView),
    AsyncPending(u64),
}

impl View for OpResult {
    type V = OpResultView;

    open spec fn view(&self) -> OpResultView {
        match self {
            OpResult::SyncValue(value) => OpResultView::SyncValue(*value),
            OpResult::SyncError(e) => OpResultView::SyncError(e@),
            OpResult::AsyncPending(handle) => OpResultView::AsyncPending(*handle),
        }
    }
}

impl OpResultView {
    /// The response that the guest gets at once for a call that ended with
    /// this result: none for a deferred call.
    pub open spec fn response(self, call_id: u64) -> Option<ResponseView> {
        match self {
            OpResultView::SyncValue(value) => Some(ResponseView { call_id, outcome: Ok(value) }),
            OpResultView::SyncError(e) => Some(ResponseView { call_id, outcome: Err(e.body()) }),
            OpResultView::AsyncPending(_) => None,
        }
    }
}

impl OpResult {
    /// The response that the guest gets at once, in the same call frame: the
    /// value, or the failure brought into the shape of kind and message. A
    /// deferred call has none; its response comes from the bridge later.
    pub fn into_response(self, call_id: u64) -> (response: Option<Response>)
        ensures
            response is Some <==> self@.response(call_id) is Some,
            response matches Some(r) ==> self@.response(call_id) == Some(r@),
    {
        match self {
            OpResult::SyncValue(value) => Some(Response { call_id, outcome: Ok(value) }),
            OpResult::SyncError(e) => Some(Response { call_id, outcome: Err(e.body()) }),
            OpResult::AsyncPending(_) => None,
        }
    }
}

/// What the first three stations make of a call: the decoded arguments with
/// which the handler registered under `op_name` is to run, or the failure
/// that ends the call before any handler runs.
pub open spec fn route_of<H>(
    registry: Map<Seq<char>, OpEntry<H>>,
    enabled: Set<Seq<char>>,
    op_name: Seq<char>,
    payload: Payload,
) -> Result<TypedArgsView, OpErrorView> {
    if !registry.contains_key(op_name) {
        Err(OpErrorView::NotFound { op_name })
    } else {
        let entry = registry[op_name];
        let refused = match entry.capability {
            Some(capability) => gate_answer(enabled, capability@),
            None => None,
        };
        match refused {
            Some(e) => Err(e),
            None => match typed_args_of(entry.schema, payload) {
                Ok(args) => Ok(args),
                Err(e) => Err(OpErrorView::Decode(e)),
            },
        }
    }
}

/// What becomes of a handler's outcome: a value or a failure passes through;
/// a computation is scheduled on the bridge under the call's id, and the call
/// is deferred, unless the bridge refuses it.
pub open spec fn settlement<T>(bridge: BridgeView<T>, call_id: u64, outcome: HandlerOutcome<T>) -> (
    OpResultView,
    BridgeView<T>,
) {
    match outcome {
        HandlerOutcome::Sync(Ok(value)) => (OpResultView::SyncValue(value), bridge),
        HandlerOutcome::Sync(Err(e)) => (
            OpResultView::SyncError(OpErrorView::Handler(e@)),
            bridge,
        ),
        HandlerOutcome::Async(computation) => match bridge.refusal(call_id) {
            Some(e) => (OpResultView::SyncError(e@), bridge),
            None => (OpResultView::AsyncPending(call_id), bridge.schedule(call_id, computation)),
        },
    }
}

/// Whether every handler of `registry` may be called with every state,
/// arguments and buffer.
pub open spec fn handlers_accept_all<S, B, T, H: Fn(&S, TypedArgs, Option<B>) -> HandlerOutcome<T>>(
    registry: Map<Seq<char>, OpEntry<H>>,
) -> bool {
    forall|name: Seq<char>, state: &S, args: TypedArgs, buffer: Option<B>|
        registry.contains_key(name) ==> #[trigger] call_requires(
            registry[name].handler,
            (state, args, buffer),
        )
}

/// A handler that may be called with everything may join a registry whose
/// handlers all may.
pub proof fn lemma_accepting_handler_may_join<
    S,
    B,
    T,
    H: Fn(&S, TypedArgs, Option<B>) -> HandlerOutcome<T>,
>(registry: Map<Seq<char>, OpEntry<H>>, name: Seq<char>, entry: OpEntry<H>)
    requires
        handlers_accept_all::<S, B, T, H>(registry),
        forall|state: &S, args: TypedArgs, buffer: Option<B>| #[trigger]
            call_requires(entry.handler, (state, args, buffer)),
    ensures
        handlers_accept_all::<S, B, T, H>(registry.insert(name, entry)),
{
    let grown = registry.insert(name, entry);
    assert forall|key: Seq<char>, state: &S, args: TypedArgs, buffer: Option<B>|
        grown.contains_key(key) implies #[trigger] call_requires(
        grown[key].handler,
        (state, args, buffer),
    ) by {
        if key != name {
            assert(registry.contains_key(key));
            assert(call_requires(registry[key].handler, (state, args, buffer)));
        }
    }
}

/// Takes a call through the registry, the capability gate and the codec.
/// No handler can run here: the function does not know what a handler is.
pub fn route<'a, H>(
    registry: &'a OpRegistry<H>,
    gate: &CapabilityGate,
    op_name: &str,
    payload: &Payload,
) -> (routed: Result<(&'a OpEntry<H>, TypedArgs), OpError>)
    ensures
        match routed {
            Ok((entry, args)) => {
                &&& route_of(registry@, gate@, op_name@, *payload) == Ok::<
                    TypedArgsView,
                    OpErrorView,
                >(args@)
                &&& registry@.contains_key(op_name@)
                &&& *entry == registry@[op_name@]
            },
            Err(e) => route_of(registry@, gate@, op_name@, *payload) == Err::<
                TypedArgsView,
                OpErrorView,
            >(e@),
        },
{
    let entry = match registry.lookup(op_name) {
        Some(entry) => entry,
        None => {
            return Err(OpError::NotFound { op_name: owned_text(op_name) });
        },
    };
    match &entry.capability {
        Some(capability) => match gate.check(capability.as_str()) {
            Err(e) => {
                return Err(e);
            },
            Ok(()) => {},
        },
        None => {},
    }
    match decode(entry.schema, payload) {
        Ok(args) => Ok((entry, args)),
        Err(e) => Err(OpError::Decode(e)),
    }
}

/// Brings a handler's outcome into the call's result: a value or a failure
/// at once; for a computation, the call is scheduled on the bridge and
/// deferred, without waiting for it.
pub fn settle<T>(bridge: &mut AsyncBridge<T>, call_id: u64, outcome: HandlerOutcome<T>) -> (result:
    OpResult)
    ensures
        (result@, final(bridge)@) == settlement(old(bridge)@, call_id, outcome),
        final(bridge)@.wf(),
{
    proof {
        use_type_invariant(&*bridge);
    }
    match outcome {
        HandlerOutcome::Sync(Ok(value)) => OpResult::SyncValue(value),
        HandlerOutcome::Sync(Err(e)) => OpResult::SyncError(OpError::Handler(e)),
        HandlerOutcome::Async(computation) => match bridge.schedule(call_id, computation) {
            Ok(()) => OpResult::AsyncPending(call_id),
            Err(e) => OpResult::SyncError(e),
        },
    }
}

/// Dispatches one call. The envelope is used up: its buffer goes to the
/// handler untouched, and to nobody where no handler runs.
///
/// Where the registry, the capability gate or the codec fails the call, the
/// result is that failure and the bridge is as it was. Otherwise the handler
/// registered under the op's name runs once, on the decoded arguments, and
/// the result is what `settle` makes of its outcome.
pub fn dispatch<S, B, T, H>(
    registry: &OpRegistry<H>,
    gate: &CapabilityGate,
    bridge: &mut AsyncBridge<T>,
    state: &S,
    envelope: CallEnvelope<B>,
) -> (result: OpResult) where H: Fn(&S, TypedArgs, Option<B>) -> HandlerOutcome<T>
    requires
        handlers_accept_all::<S, B, T, H>(registry@),
    ensures
        final(bridge)@.wf(),
        match route_of(registry@, gate@, envelope.op_name@, envelope.payload) {
            Err(e) => result@ == OpResultView::SyncError(e) && final(bridge)@ == old(bridge)@,
            Ok(args) => exists|typed: TypedArgs, outcome: HandlerOutcome<T>|
                {
                    &&& typed@ == args
                    &&& #[trigger] call_ensures(
                        registry@[envelope.op_name@].handler,
                        (state, typed, envelope.buffer),
                        outcome,
                    )
                    &&& (result@, final(bridge)@) == settlement(
                        old(bridge)@,
                        envelope.call_id,
                        outcome,
                    )
                },
        },
{
    proof {
        use_type_invariant(&*bridge);
    }
    let CallEnvelope { op_name, call_id, payload, buffer } = envelope;
    match route(registry, gate, op_name.as_str(), &payload) {
        Err(e) => OpResult::SyncError(e),
        Ok((entry, args)) => {
            let ghost typed = args;
            let outcome = (entry.handler)(state, args, buffer);
            let ghost handed = outcome;
            let result = settle(bridge, call_id, outcome);
            proof {
                assert(call_ensures(
                    registry@[envelope.op_name@].handler,
                    (state, typed, envelope.buffer),
                    handed,
                ));
            }
            result
        },
    }
}

/// A call to a name under which nothing is registered ends as not found,
/// whatever the payload holds and whatever is enabled.
pub proof fn lemma_unknown_op_is_not_found<H>(
    registry: Map<Seq<char>, OpEntry<H>>,
    enabled: Set<Seq<char>>,
    op_name: Seq<char>,
    payload: Payload,
)
    requires
        !registry.contains_key(op_name),
    ensures
        route_of(registry, enabled, op_name, payload) == Err::<TypedArgsView, OpErrorView>(
            OpErrorView::NotFound { op_name },
        ),
{
}

/// A call to an op whose required capability is not enabled ends as
/// unstable, under the name of that capability, whatever the payload holds:
/// the capability is checked before the payload is decoded.
pub proof fn lemma_gate_precedes_decoding<H>(
    registry: Map<Seq<char>, OpEntry<H>>,
    enabled: Set<Seq<char>>,
    op_name: Seq<char>,
    payload: Payload,
    capability: String,
)
    requires
        registry.contains_key(op_name),
        registry[op_name].capability == Some(capability),
        !enabled.contains(capability@),
    ensures
        route_of(registry, enabled, op_name, payload) == Err::<TypedArgsView, OpErrorView>(
            OpErrorView::UnstableFeature { capability: capability@ },
        ),
{
}

/// A call that its handler answers has its response in the call frame, and
/// the bridge is as it was: no scheduling point is needed.
pub proof fn lemma_answered_call_responds_at_once<T>(
    bridge: BridgeView<T>,
    call_id: u64,
    answer: Result<Payload, ErrorBody>,
)
    ensures
        settlement(bridge, call_id, HandlerOutcome::Sync(answer)).0.response(call_id) is Some,
        settlement(bridge, call_id, HandlerOutcome::Sync(answer)).1 == bridge,
{
}

/// A failure of the capability reaches the guest in one shape, whether it
/// was raised in the call frame or by the deferred computation: the response
/// that the dispatcher makes of the first is the response that the bridge
/// queues for the second.
pub proof fn lemma_failure_has_one_shape<T>(bridge: BridgeView<T>, call_id: u64, failure: ErrorBody)
    ensures
        settlement(bridge, call_id, HandlerOutcome::Sync(Err(failure))).0.response(call_id)
            == Some((Response { call_id, outcome: Err(failure) })@),
        bridge.is_pending(call_id) ==> bridge.complete(call_id, Err(failure)).ready.last()
            == (Response { call_id, outcome: Err(failure) }),
{
}

/// A call that its handler defers has no response in the call frame. It is
/// pending on the bridge, not ready, and the queue is as it was: a scheduling
/// point that comes before the computation resolves hands over nothing for it.
pub proof fn lemma_deferred_call_waits<T>(bridge: BridgeView<T>, call_id: u64, computation: T)
    requires
        bridge.wf(),
        bridge.refusal(call_id) is None,
    ensures
        ({
            let (result, after) = settlement(bridge, call_id, HandlerOutcome::Async(computation));
            &&& result == OpResultView::AsyncPending(call_id)
            &&& result.response(call_id) is None
            &&& after.is_pending(call_id)
            &&& !after.is_ready(call_id)
            &&& after.ready == bridge.ready
        }),
{
    let after = bridge.schedule(call_id, computation);
    assert(after.pending[bridge.pending.len() as int].call_id == call_id);
}

} // verus!
