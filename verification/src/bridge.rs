//! The async bridge: it keeps each deferred call until its computation
//! resolves, queues the response, and hands the queued responses to the
//! guest at the next scheduling point. Tearing the guest environment down
//! drops whatever is still outstanding, and nothing is delivered afterwards.

use crate::error::{ErrorBody, ErrorBodyView, OpError};
use crate::payload::Payload;
use vstd::prelude::*;

verus! {

/// A deferred call: its call id and the computation that will resolve it.
#[derive(Debug, PartialEq, Eq)]
pub struct PendingCall<T> {
    pub call_id: u64,
    pub computation: T,
}

/// What the guest receives for a call: the call's id with a value or a failure.
#[derive(Debug, PartialEq, Eq)]
pub struct Response {
    pub call_id: u64,
    pub outcome: Result<Payload, ErrorBody>,
}

/// The model of a [`Response`].
pub struct ResponseView {
    pub call_id: u64,
    pub outcome: Result<Payload, ErrorBodyView>,
}

impl View for Response {
    type V = ResponseView;

    open spec fn view(&self) -> ResponseView {
        ResponseView {
            call_id: self.call_id,
            outcome: match self.outcome {
                Ok(value) => Ok(value),
                Err(e) => Err(e@),
            },
        }
    }
}

/// The model of the bridge: the deferred calls in the order in which they
/// were scheduled, the responses that wait for delivery in the order in which
/// their calls resolved, and whether the guest environment is gone.
pub struct BridgeView<T> {
    pub pending: Seq<PendingCall<T>>,
    pub ready: Seq<Response>,
    pub torn_down: bool,
}

impl<T> BridgeView<T> {
    /// The bridge with nothing outstanding.
    pub open spec fn empty() -> Self {
        BridgeView { pending: Seq::empty(), ready: Seq::empty(), torn_down: false }
    }

    /// Whether the call `call_id` is deferred and not yet resolved.
    pub open spec fn is_pending(self, call_id: u64) -> bool {
        exists|i: int| 0 <= i < self.pending.len() && (#[trigger] self.pending[i]).call_id == call_id
    }

    /// Whether a response for `call_id` waits for delivery.
    pub open spec fn is_ready(self, call_id: u64) -> bool {
        exists|i: int| 0 <= i < self.ready.len() && (#[trigger] self.ready[i]).call_id == call_id
    }

    /// Whether the call `call_id` is outstanding: deferred, or resolved and
    /// not yet delivered.
    pub open spec fn is_outstanding(self, call_id: u64) -> bool {
        self.is_pending(call_id) || self.is_ready(call_id)
    }

    /// The position of the deferred call `call_id`, where it is pending.
    pub open spec fn position(self, call_id: u64) -> int {
        choose|i: int| 0 <= i < self.pending.len() && (#[trigger] self.pending[i]).call_id == call_id
    }

    /// The invariant of the bridge: no call id is outstanding twice, and
    /// after teardown nothing is outstanding.
    pub open spec fn wf(self) -> bool {
        &&& forall|i: int, j: int|
            0 <= i < j < self.pending.len() ==> (#[trigger] self.pending[i]).call_id != (
            #[trigger] self.pending[j]).call_id
        &&& forall|i: int, j: int|
            0 <= i < j < self.ready.len() ==> (#[trigger] self.ready[i]).call_id != (
            #[trigger] self.ready[j]).call_id
        &&& forall|i: int, j: int|
            0 <= i < self.pending.len() && 0 <= j < self.ready.len() ==> (
            #[trigger] self.pending[i]).call_id != (#[trigger] self.ready[j]).call_id
        &&& self.torn_down ==> self.pending.len() == 0 && self.ready.len() == 0
    }

    /// Why `call_id` cannot be scheduled, if it cannot.
    pub open spec fn refusal(self, call_id: u64) -> Option<OpError> {
        if self.torn_down {
            Some(OpError::TornDown)
        } else if self.is_outstanding(call_id) {
            Some(OpError::CallIdInUse { call_id })
        } else {
            None
        }
    }

    /// The bridge after `schedule`: the call joins the deferred calls, unless
    /// it is refused.
    pub open spec fn schedule(self, call_id: u64, computation: T) -> Self {
        if self.refusal(call_id) is Some {
            self
        } else {
            BridgeView { pending: self.pending.push(PendingCall { call_id, computation }), ..self }
        }
    }

    /// The bridge after `complete`: a pending call leaves the deferred calls
    /// and its response joins the queue; for any other call id nothing changes.
    pub open spec fn complete(self, call_id: u64, outcome: Result<Payload, ErrorBody>) -> Self {
        if self.is_pending(call_id) {
            BridgeView {
                pending: self.pending.remove(self.position(call_id)),
                ready: self.ready.push(Response { call_id, outcome }),
                ..self
            }
        } else {
            self
        }
    }

    /// The bridge after `deliver`: the queue is empty.
    pub open spec fn deliver(self) -> Self {
        BridgeView { ready: Seq::empty(), ..self }
    }

    /// The bridge after `teardown`: nothing is outstanding, for good.
    pub open spec fn teardown(self) -> Self {
        BridgeView { pending: Seq::empty(), ready: Seq::empty(), torn_down: true }
    }
}

/// How a deferred computation stands after the host has given it a turn:
/// it is still at work, or it has resolved with a value or a failure.
#[derive(Debug, PartialEq, Eq)]
pub enum Progress<T> {
    Waiting(T),
    Finished(Result<Payload, ErrorBody>),
}

/// The calls among `calls` that are still at work after each was given its
/// turn, `turns[i]` being what became of `calls[i]`.
pub open spec fn still_waiting<T>(calls: Seq<PendingCall<T>>, turns: Seq<Progress<T>>) -> Seq<
    PendingCall<T>,
>
    recommends
        turns.len() == calls.len(),
    decreases calls.len(),
{
    if calls.len() == 0 {
        Seq::empty()
    } else {
        let earlier = still_waiting(calls.drop_last(), turns.drop_last());
        match turns.last() {
            Progress::Waiting(computation) => earlier.push(
                PendingCall { call_id: calls.last().call_id, computation },
            ),
            Progress::Finished(_) => earlier,
        }
    }
}

/// The responses of the calls among `calls` that resolved in their turn.
pub open spec fn resolved_in<T>(calls: Seq<PendingCall<T>>, turns: Seq<Progress<T>>) -> Seq<
    Response,
>
    recommends
        turns.len() == calls.len(),
    decreases calls.len(),
{
    if calls.len() == 0 {
        Seq::empty()
    } else {
        let earlier = resolved_in(calls.drop_last(), turns.drop_last());
        match turns.last() {
            Progress::Waiting(_) => earlier,
            Progress::Finished(outcome) => earlier.push(
                Response { call_id: calls.last().call_id, outcome },
            ),
        }
    }
}

impl<T> BridgeView<T> {
    /// The bridge after every deferred call was given a turn, in the order
    /// in which the calls were scheduled: the calls still at work stay, with
    /// their computations as the turn left them; the others leave, and their
    /// responses join the queue.
    pub open spec fn turn(self, turns: Seq<Progress<T>>) -> Self {
        BridgeView {
            pending: still_waiting(self.pending, turns),
            ready: self.ready + resolved_in(self.pending, turns),
            ..self
        }
    }
}

/// Whether some call of `calls` has the id `call_id`.
pub open spec fn among<T>(calls: Seq<PendingCall<T>>, call_id: u64) -> bool {
    exists|i: int| 0 <= i < calls.len() && (#[trigger] calls[i]).call_id == call_id
}

/// A turn splits the calls in two: each call is afterwards among those still
/// at work or among those resolved, under its own id, and no id is in both.
pub proof fn lemma_turn_splits<T>(calls: Seq<PendingCall<T>>, turns: Seq<Progress<T>>)
    requires
        turns.len() == calls.len(),
        forall|i: int, j: int|
            0 <= i < j < calls.len() ==> (#[trigger] calls[i]).call_id != (
            #[trigger] calls[j]).call_id,
    ensures
        ({
            let waiting = still_waiting(calls, turns);
            let resolved = resolved_in(calls, turns);
            &&& waiting.len() + resolved.len() == calls.len()
            &&& forall|i: int|
                0 <= i < waiting.len() ==> among(calls, (#[trigger] waiting[i]).call_id)
            &&& forall|i: int|
                0 <= i < resolved.len() ==> among(calls, (#[trigger] resolved[i]).call_id)
            &&& forall|i: int|
                0 <= i < calls.len() ==> among(waiting, (#[trigger] calls[i]).call_id) || exists|
                    j: int,
                | 0 <= j < resolved.len() && (#[trigger] resolved[j]).call_id == calls[i].call_id
            &&& forall|i: int, j: int|
                0 <= i < j < waiting.len() ==> (#[trigger] waiting[i]).call_id != (
                #[trigger] waiting[j]).call_id
            &&& forall|i: int, j: int|
                0 <= i < j < resolved.len() ==> (#[trigger] resolved[i]).call_id != (
                #[trigger] resolved[j]).call_id
            &&& forall|i: int, j: int|
                0 <= i < waiting.len() && 0 <= j < resolved.len() ==> (
                #[trigger] waiting[i]).call_id != (#[trigger] resolved[j]).call_id
        }),
    decreases calls.len(),
{
    if calls.len() > 0 {
        let head = calls.drop_last();
        let head_turns = turns.drop_last();
        let n = head.len() as int;
        let last_id = calls.last().call_id;
        assert forall|i: int, j: int| 0 <= i < j < head.len() implies (#[trigger] head[i]).call_id
            != (#[trigger] head[j]).call_id by {
            assert(calls[i].call_id != calls[j].call_id);
        }
        lemma_turn_splits(head, head_turns);
        let waiting = still_waiting(calls, turns);
        let resolved = resolved_in(calls, turns);
        let head_waiting = still_waiting(head, head_turns);
        let head_resolved = resolved_in(head, head_turns);
        assert(!among(head, last_id)) by {
            if among(head, last_id) {
                let i = choose|i: int| 0 <= i < head.len() && (#[trigger] head[i]).call_id == last_id;
                assert(calls[i].call_id != calls[n].call_id);
            }
        }
        assert forall|id: u64| among(head, id) implies among(calls, id) by {
            let i = choose|i: int| 0 <= i < head.len() && (#[trigger] head[i]).call_id == id;
            assert(calls[i].call_id == id);
        }
        assert(among(calls, last_id)) by {
            assert(calls[n].call_id == last_id);
        }
        assert forall|i: int| 0 <= i < waiting.len() implies among(
            calls,
            (#[trigger] waiting[i]).call_id,
        ) by {
            if i < head_waiting.len() {
                assert(waiting[i] == head_waiting[i]);
                assert(among(head, head_waiting[i].call_id));
            }
        }
        assert forall|i: int| 0 <= i < resolved.len() implies among(
            calls,
            (#[trigger] resolved[i]).call_id,
        ) by {
            if i < head_resolved.len() {
                assert(resolved[i] == head_resolved[i]);
                assert(among(head, head_resolved[i].call_id));
            }
        }
        assert forall|i: int| 0 <= i < calls.len() implies among(
            waiting,
            (#[trigger] calls[i]).call_id,
        ) || exists|j: int|
            0 <= j < resolved.len() && (#[trigger] resolved[j]).call_id == calls[i].call_id by {
            if i < n {
                assert(head[i].call_id == calls[i].call_id);
                if among(head_waiting, head[i].call_id) {
                    let k = choose|k: int|
                        0 <= k < head_waiting.len() && (#[trigger] head_waiting[k]).call_id
                            == head[i].call_id;
                    assert(waiting[k].call_id == calls[i].call_id);
                } else {
                    let j = choose|j: int|
                        0 <= j < head_resolved.len() && (#[trigger] head_resolved[j]).call_id
                            == head[i].call_id;
                    assert(resolved[j].call_id == calls[i].call_id);
                }
            } else {
                match turns.last() {
                    Progress::Waiting(_) => {
                        assert(waiting[head_waiting.len() as int].call_id == last_id);
                    },
                    Progress::Finished(_) => {
                        assert(resolved[head_resolved.len() as int].call_id == last_id);
                    },
                }
            }
        }
        assert forall|i: int, j: int| 0 <= i < j < waiting.len() implies (
        #[trigger] waiting[i]).call_id != (#[trigger] waiting[j]).call_id by {
            assert(among(head, head_waiting[i].call_id));
            if j < head_waiting.len() {
                assert(head_waiting[i].call_id != head_waiting[j].call_id);
            }
        }
        assert forall|i: int, j: int| 0 <= i < j < resolved.len() implies (
        #[trigger] resolved[i]).call_id != (#[trigger] resolved[j]).call_id by {
            assert(among(head, head_resolved[i].call_id));
            if j < head_resolved.len() {
                assert(head_resolved[i].call_id != head_resolved[j].call_id);
            }
        }
        assert forall|i: int, j: int|
            0 <= i < waiting.len() && 0 <= j < resolved.len() implies (
        #[trigger] waiting[i]).call_id != (#[trigger] resolved[j]).call_id by {
            if i < head_waiting.len() && j < head_resolved.len() {
                assert(head_waiting[i].call_id != head_resolved[j].call_id);
            } else if i < head_waiting.len() {
                assert(among(head, head_waiting[i].call_id));
            } else if j < head_resolved.len() {
                assert(among(head, head_resolved[j].call_id));
            }
        }
    }
}

/// A turn keeps the bridge well formed.
pub proof fn lemma_turn_keeps_wf<T>(bridge: BridgeView<T>, turns: Seq<Progress<T>>)
    requires
        bridge.wf(),
        turns.len() == bridge.pending.len(),
    ensures
        bridge.turn(turns).wf(),
{
    lemma_turn_splits(bridge.pending, turns);
    let after = bridge.turn(turns);
    let resolved = resolved_in(bridge.pending, turns);
    let n = bridge.ready.len() as int;
    assert forall|i: int, j: int| 0 <= i < j < after.ready.len() implies (
    #[trigger] after.ready[i]).call_id != (#[trigger] after.ready[j]).call_id by {
        if j < n {
            assert(bridge.ready[i].call_id != bridge.ready[j].call_id);
        } else if i < n {
            assert(among(bridge.pending, resolved[j - n].call_id));
            let p = choose|p: int|
                0 <= p < bridge.pending.len() && (#[trigger] bridge.pending[p]).call_id
                    == resolved[j - n].call_id;
            assert(bridge.pending[p].call_id != bridge.ready[i].call_id);
        } else {
            assert(resolved[i - n].call_id != resolved[j - n].call_id);
        }
    }
    assert forall|i: int, j: int|
        0 <= i < after.pending.len() && 0 <= j < after.ready.len() implies (
    #[trigger] after.pending[i]).call_id != (#[trigger] after.ready[j]).call_id by {
        if j < n {
            assert(among(bridge.pending, after.pending[i].call_id));
            let p = choose|p: int|
                0 <= p < bridge.pending.len() && (#[trigger] bridge.pending[p]).call_id
                    == after.pending[i].call_id;
            assert(bridge.pending[p].call_id != bridge.ready[j].call_id);
        } else {
            assert(after.pending[i].call_id != resolved[j - n].call_id);
        }
    }
}

/// In a well-formed bridge, a pending call is found at one position only.
pub proof fn lemma_position_is_unique<T>(bridge: BridgeView<T>, call_id: u64, i: int)
    requires
        bridge.wf(),
        0 <= i < bridge.pending.len(),
        bridge.pending[i].call_id == call_id,
    ensures
        bridge.is_pending(call_id),
        bridge.position(call_id) == i,
{
    let j = bridge.position(call_id);
    if j < i {
        assert(bridge.pending[j].call_id != bridge.pending[i].call_id);
    } else if i < j {
        assert(bridge.pending[i].call_id != bridge.pending[j].call_id);
    }
}

/// Scheduling keeps the bridge well formed.
pub proof fn lemma_schedule_keeps_wf<T>(bridge: BridgeView<T>, call_id: u64, computation: T)
    requires
        bridge.wf(),
    ensures
        bridge.schedule(call_id, computation).wf(),
{
    let after = bridge.schedule(call_id, computation);
    if bridge.refusal(call_id) is None {
        let n = bridge.pending.len() as int;
        assert forall|i: int, j: int| 0 <= i < j < after.pending.len() implies (
        #[trigger] after.pending[i]).call_id != (#[trigger] after.pending[j]).call_id by {
            if j == n {
                assert(bridge.pending[i].call_id != call_id);
            } else {
                assert(bridge.pending[i].call_id != bridge.pending[j].call_id);
            }
        }
        assert forall|i: int, j: int|
            0 <= i < after.pending.len() && 0 <= j < after.ready.len() implies (
        #[trigger] after.pending[i]).call_id != (#[trigger] after.ready[j]).call_id by {
            if i == n {
                assert(bridge.ready[j].call_id != call_id);
            } else {
                assert(bridge.pending[i].call_id != bridge.ready[j].call_id);
            }
        }
    }
}

/// Completing a call keeps the bridge well formed.
pub proof fn lemma_complete_keeps_wf<T>(
    bridge: BridgeView<T>,
    call_id: u64,
    outcome: Result<Payload, ErrorBody>,
)
    requires
        bridge.wf(),
    ensures
        bridge.complete(call_id, outcome).wf(),
{
    let after = bridge.complete(call_id, outcome);
    if bridge.is_pending(call_id) {
        let p = bridge.position(call_id);
        let n = bridge.ready.len() as int;
        assert forall|i: int, j: int| 0 <= i < j < after.pending.len() implies (
        #[trigger] after.pending[i]).call_id != (#[trigger] after.pending[j]).call_id by {
            let a = if i < p { i } else { i + 1 };
            let b = if j < p { j } else { j + 1 };
            assert(bridge.pending[a].call_id != bridge.pending[b].call_id);
        }
        assert forall|i: int, j: int| 0 <= i < j < after.ready.len() implies (
        #[trigger] after.ready[i]).call_id != (#[trigger] after.ready[j]).call_id by {
            if j == n {
                assert(bridge.pending[p].call_id != bridge.ready[i].call_id);
            } else {
                assert(bridge.ready[i].call_id != bridge.ready[j].call_id);
            }
        }
        assert forall|i: int, j: int|
            0 <= i < after.pending.len() && 0 <= j < after.ready.len() implies (
        #[trigger] after.pending[i]).call_id != (#[trigger] after.ready[j]).call_id by {
            let a = if i < p { i } else { i + 1 };
            if j == n {
                if a < p {
                    assert(bridge.pending[a].call_id != bridge.pending[p].call_id);
                } else {
                    assert(bridge.pending[p].call_id != bridge.pending[a].call_id);
                }
            } else {
                assert(bridge.pending[a].call_id != bridge.ready[j].call_id);
            }
        }
    }
}

/// The deferred calls and the responses awaiting delivery.
pub struct AsyncBridge<T> {
    pending: Vec<PendingCall<T>>,
    ready: Vec<Response>,
    torn_down: bool,
}

impl<T> View for AsyncBridge<T> {
    type V = BridgeView<T>;

    closed spec fn view(&self) -> BridgeView<T> {
        BridgeView { pending: self.pending@, ready: self.ready@, torn_down: self.torn_down }
    }
}

impl<T> AsyncBridge<T> {
    /// What holds of every bridge, at all times: its model is well formed.
    #[verifier::type_invariant]
    pub open spec fn well_formed(self) -> bool {
        self@.wf()
    }

    /// A bridge with nothing outstanding.
    pub fn new() -> (bridge: Self)
        ensures
            bridge@ == BridgeView::<T>::empty(),
            bridge@.wf(),
    {
        AsyncBridge { pending: Vec::new(), ready: Vec::new(), torn_down: false }
    }

    /// The position of the deferred call `call_id`, where it is pending.
    fn find_pending(&self, call_id: u64) -> (found: Option<usize>)
        ensures
            self@.wf(),
            found is Some <==> self@.is_pending(call_id),
            found matches Some(i) ==> i < self@.pending.len() && self@.pending[i as int].call_id
                == call_id && self@.position(call_id) == i,
    {
        proof {
            use_type_invariant(self);
        }
        let mut i: usize = 0;
        while i < self.pending.len()
            invariant
                i <= self.pending@.len(),
                self@.wf(),
                self@.pending == self.pending@,
                forall|k: int| 0 <= k < i ==> (#[trigger] self.pending@[k]).call_id != call_id,
            decreases self.pending@.len() - i,
        {
            if self.pending[i].call_id == call_id {
                proof {
                    lemma_position_is_unique(self@, call_id, i as int);
                }
                return Some(i);
            }
            i += 1;
        }
        None
    }

    /// Whether the call `call_id` is deferred and not yet resolved.
    pub fn is_pending(&self, call_id: u64) -> (pending: bool)
        ensures
            pending == self@.is_pending(call_id),
            self@.wf(),
    {
        self.find_pending(call_id).is_some()
    }

    /// Whether a response for `call_id` waits for delivery.
    pub fn is_ready(&self, call_id: u64) -> (ready: bool)
        ensures
            ready == self@.is_ready(call_id),
    {
        let mut i: usize = 0;
        while i < self.ready.len()
            invariant
                i <= self.ready@.len(),
                self@.ready == self.ready@,
                forall|k: int| 0 <= k < i ==> (#[trigger] self.ready@[k]).call_id != call_id,
            decreases self.ready@.len() - i,
        {
            if self.ready[i].call_id == call_id {
                return true;
            }
            i += 1;
        }
        false
    }

    /// Whether the call `call_id` is outstanding.
    pub fn is_outstanding(&self, call_id: u64) -> (outstanding: bool)
        ensures
            outstanding == self@.is_outstanding(call_id),
    {
        self.is_pending(call_id) || self.is_ready(call_id)
    }

    /// Whether the guest environment has been torn down.
    pub fn is_torn_down(&self) -> (gone: bool)
        ensures
            gone == self@.torn_down,
    {
        self.torn_down
    }

    /// The number of deferred calls.
    pub fn pending_count(&self) -> (n: usize)
        ensures
            n == self@.pending.len(),
            self@.wf(),
    {
        proof {
            use_type_invariant(self);
        }
        self.pending.len()
    }

    /// The number of responses that wait for delivery.
    pub fn ready_count(&self) -> (n: usize)
        ensures
            n == self@.ready.len(),
    {
        self.ready.len()
    }

    /// Takes a deferred call in. It is refused, and the computation dropped,
    /// with [`OpError::TornDown`] after teardown and with
    /// [`OpError::CallIdInUse`] while a call with the same id is outstanding.
    pub fn schedule(&mut self, call_id: u64, computation: T) -> (scheduled: Result<(), OpError>)
        ensures
            final(self)@ == old(self)@.schedule(call_id, computation),
            final(self)@.wf(),
            scheduled is Ok <==> old(self)@.refusal(call_id) is None,
            scheduled matches Err(e) ==> old(self)@.refusal(call_id) == Some(e),
    {
        proof {
            use_type_invariant(&*self);
            lemma_schedule_keeps_wf(self@, call_id, computation);
        }
        if self.torn_down {
            return Err(OpError::TornDown);
        }
        if self.is_outstanding(call_id) {
            return Err(OpError::CallIdInUse { call_id });
        }
        let mut pending: Vec<PendingCall<T>> = Vec::new();
        std::mem::swap(&mut self.pending, &mut pending);
        pending.push(PendingCall { call_id, computation });
        self.pending = pending;
        Ok(())
    }

    /// Takes in the outcome of the deferred call `call_id`: the call is no
    /// longer pending, its computation is dropped, and its response joins the
    /// queue. For a call id that is not pending (never scheduled, resolved
    /// already, or dropped by teardown) nothing changes and the outcome is
    /// dropped.
    pub fn complete(&mut self, call_id: u64, outcome: Result<Payload, ErrorBody>) -> (accepted:
        bool)
        ensures
            final(self)@ == old(self)@.complete(call_id, outcome),
            final(self)@.wf(),
            accepted == old(self)@.is_pending(call_id),
    {
        proof {
            use_type_invariant(&*self);
            lemma_complete_keeps_wf(self@, call_id, outcome);
        }
        match self.find_pending(call_id) {
            None => false,
            Some(i) => {
                let mut pending: Vec<PendingCall<T>> = Vec::new();
                let mut ready: Vec<Response> = Vec::new();
                std::mem::swap(&mut self.pending, &mut pending);
                std::mem::swap(&mut self.ready, &mut ready);
                let _ = pending.remove(i);
                ready.push(Response { call_id, outcome });
                self.ready = ready;
                self.pending = pending;
                true
            },
        }
    }

    /// Gives every deferred call a turn, in the order in which the calls
    /// were scheduled: `poll` takes a call's id and computation and hands
    /// back the computation, still at work, or its outcome. A call whose
    /// computation has resolved leaves the deferred calls and its response
    /// joins the queue. Returns how many calls resolved.
    pub fn poll_pending<P>(&mut self, poll: P) -> (finished: usize) where
        P: Fn(u64, T) -> Progress<T>,

        requires
            forall|i: int|
                0 <= i < old(self)@.pending.len() ==> call_requires(
                    poll,
                    (
                        (#[trigger] old(self)@.pending[i]).call_id,
                        old(self)@.pending[i].computation,
                    ),
                ),
        ensures
            exists|turns: Seq<Progress<T>>|
                {
                    &&& turns.len() == old(self)@.pending.len()
                    &&& forall|i: int|
                        0 <= i < turns.len() ==> call_ensures(
                            poll,
                            (old(self)@.pending[i].call_id, old(self)@.pending[i].computation),
                            #[trigger] turns[i],
                        )
                    &&& final(self)@ == #[trigger] old(self)@.turn(turns)
                    &&& finished == resolved_in(old(self)@.pending, turns).len()
                },
            final(self)@.wf(),
    {
        proof {
            use_type_invariant(&*self);
        }
        let ghost before = self@;
        let mut calls: Vec<PendingCall<T>> = Vec::new();
        let mut ready: Vec<Response> = Vec::new();
        std::mem::swap(&mut self.pending, &mut calls);
        std::mem::swap(&mut self.ready, &mut ready);
        let mut waiting: Vec<PendingCall<T>> = Vec::new();
        let mut finished: usize = 0;
        let ghost mut turns: Seq<Progress<T>> = Seq::empty();
        let ghost all = calls@;
        let n = calls.len();
        proof {
            assert(all == old(self)@.pending);
            assert forall|i: int| 0 <= i < all.len() implies call_requires(
                poll,
                ((#[trigger] all[i]).call_id, all[i].computation),
            ) by {
                assert(old(self)@.pending[i] == all[i]);
            }
            assert(all.take(0) =~= Seq::<PendingCall<T>>::empty());
            assert(ready@ =~= before.ready + resolved_in(all.take(0), turns));
        }
        for call in it: calls.into_iter()
            invariant
                it.seq() == all,
                all == before.pending,
                all.len() == n,
                turns.len() == it.index(),
                finished == resolved_in(all.take(it.index() as int), turns).len(),
                finished <= it.index(),
                waiting@ == still_waiting(all.take(it.index() as int), turns),
                ready@ == before.ready + resolved_in(all.take(it.index() as int), turns),
                forall|i: int|
                    0 <= i < all.len() ==> call_requires(
                        poll,
                        ((#[trigger] all[i]).call_id, all[i].computation),
                    ),
                forall|i: int|
                    0 <= i < turns.len() ==> call_ensures(
                        poll,
                        (all[i].call_id, all[i].computation),
                        #[trigger] turns[i],
                    ),
        {
            let ghost k = it.index() as int;
            let ghost earlier = turns;
            let PendingCall { call_id, computation } = call;
            assert(all[k].call_id == call_id && all[k].computation == computation);
            let progress = poll(call_id, computation);
            proof {
                turns = earlier.push(progress);
                assert(all.take(k + 1).drop_last() =~= all.take(k));
                assert(turns.drop_last() =~= earlier);
                assert(all.take(k + 1).last() == all[k]);
            }
            match progress {
                Progress::Waiting(computation) => {
                    waiting.push(PendingCall { call_id, computation });
                },
                Progress::Finished(outcome) => {
                    ready.push(Response { call_id, outcome });
                    finished += 1;
                    proof {
                        assert(ready@ =~= before.ready + resolved_in(all.take(k + 1), turns));
                    }
                },
            }
        }
        proof {
            assert(all.take(all.len() as int) =~= all);
            lemma_turn_keeps_wf(before, turns);
        }
        self.ready = ready;
        self.pending = waiting;
        finished
    }

    /// Hands over, at a scheduling point, the responses that wait for
    /// delivery, in the order in which their calls resolved, and empties the
    /// queue.
    pub fn deliver(&mut self) -> (delivered: Vec<Response>)
        ensures
            delivered@ == old(self)@.ready,
            final(self)@ == old(self)@.deliver(),
            final(self)@.wf(),
    {
        proof {
            use_type_invariant(&*self);
            assert(self@.deliver().wf());
        }
        let mut ready: Vec<Response> = Vec::new();
        std::mem::swap(&mut self.ready, &mut ready);
        ready
    }

    /// Tears the guest environment down: every deferred call is dropped with
    /// its computation, every undelivered response is dropped, and from now
    /// on nothing is scheduled, resolved or delivered. Returns how many
    /// deferred calls were dropped.
    pub fn teardown(&mut self) -> (dropped: usize)
        ensures
            final(self)@ == old(self)@.teardown(),
            final(self)@.wf(),
            dropped == old(self)@.pending.len(),
    {
        proof {
            use_type_invariant(&*self);
        }
        let mut pending: Vec<PendingCall<T>> = Vec::new();
        let mut ready: Vec<Response> = Vec::new();
        std::mem::swap(&mut self.pending, &mut pending);
        std::mem::swap(&mut self.ready, &mut ready);
        self.torn_down = true;
        pending.len()
    }
}

} // verus!
