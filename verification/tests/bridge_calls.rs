use op_dispatch::bridge::{AsyncBridge, Progress, Response};
use op_dispatch::error::{ErrorBody, OpError};
use op_dispatch::payload::Payload;

fn text(s: &str) -> Payload {
    Payload::Text(s.to_string())
}

#[test]
fn new_bridge_has_nothing_outstanding() {
    let mut bridge: AsyncBridge<u32> = AsyncBridge::new();
    assert_eq!(bridge.pending_count(), 0);
    assert_eq!(bridge.ready_count(), 0);
    assert!(!bridge.is_torn_down());
    assert!(!bridge.is_outstanding(0));
    assert!(bridge.deliver().is_empty());
}

#[test]
fn two_concurrent_calls_are_both_delivered_once() {
    let mut bridge: AsyncBridge<u32> = AsyncBridge::new();
    assert_eq!(bridge.schedule(1, 100), Ok(()));
    assert_eq!(bridge.schedule(2, 200), Ok(()));
    assert!(bridge.is_pending(1));
    assert!(bridge.is_pending(2));
    assert!(bridge.deliver().is_empty());
    assert!(bridge.complete(2, Ok(text("second"))));
    assert!(bridge.complete(1, Ok(text("first"))));
    let delivered = bridge.deliver();
    assert_eq!(
        delivered,
        vec![
            Response { call_id: 2, outcome: Ok(text("second")) },
            Response { call_id: 1, outcome: Ok(text("first")) },
        ]
    );
    assert!(bridge.deliver().is_empty());
    assert!(!bridge.complete(1, Ok(text("again"))));
    assert!(!bridge.complete(2, Ok(text("again"))));
    assert!(bridge.deliver().is_empty());
}

#[test]
fn responses_are_split_over_scheduling_points() {
    let mut bridge: AsyncBridge<u32> = AsyncBridge::new();
    assert_eq!(bridge.schedule(10, 0), Ok(()));
    assert_eq!(bridge.schedule(20, 0), Ok(()));
    assert!(bridge.complete(10, Ok(Payload::Flag(true))));
    assert_eq!(bridge.deliver(), vec![Response { call_id: 10, outcome: Ok(Payload::Flag(true)) }]);
    assert!(bridge.is_pending(20));
    assert!(bridge.complete(
        20,
        Err(ErrorBody { kind: "Io".to_string(), message: "gone".to_string() })
    ));
    assert_eq!(
        bridge.deliver(),
        vec![Response {
            call_id: 20,
            outcome: Err(ErrorBody { kind: "Io".to_string(), message: "gone".to_string() }),
        }]
    );
}

#[test]
fn outstanding_call_id_cannot_be_scheduled_again() {
    let mut bridge: AsyncBridge<u32> = AsyncBridge::new();
    assert_eq!(bridge.schedule(u64::MAX, 1), Ok(()));
    assert_eq!(bridge.schedule(u64::MAX, 2), Err(OpError::CallIdInUse { call_id: u64::MAX }));
    assert_eq!(bridge.pending_count(), 1);
    assert!(bridge.complete(u64::MAX, Ok(Payload::Null)));
    assert_eq!(bridge.schedule(u64::MAX, 3), Err(OpError::CallIdInUse { call_id: u64::MAX }));
    assert_eq!(bridge.pending_count(), 0);
    assert_eq!(bridge.ready_count(), 1);
    assert_eq!(bridge.deliver().len(), 1);
    assert_eq!(bridge.schedule(u64::MAX, 4), Ok(()));
}

#[test]
fn completing_an_unknown_call_changes_nothing() {
    let mut bridge: AsyncBridge<u32> = AsyncBridge::new();
    assert_eq!(bridge.schedule(1, 0), Ok(()));
    assert!(!bridge.complete(2, Ok(Payload::Null)));
    assert_eq!(bridge.pending_count(), 1);
    assert_eq!(bridge.ready_count(), 0);
    assert!(bridge.deliver().is_empty());
}

#[test]
fn teardown_drops_a_pending_call_for_good() {
    let mut bridge: AsyncBridge<u32> = AsyncBridge::new();
    assert_eq!(bridge.schedule(42, 0), Ok(()));
    assert!(bridge.deliver().is_empty());
    assert_eq!(bridge.teardown(), 1);
    assert!(bridge.is_torn_down());
    assert!(!bridge.is_pending(42));
    assert!(bridge.deliver().is_empty());
    assert!(!bridge.complete(42, Ok(text("late"))));
    assert!(bridge.deliver().is_empty());
    assert_eq!(bridge.poll_pending(|_, _| Progress::Finished(Ok(Payload::Null))), 0);
    assert!(bridge.deliver().is_empty());
    assert_eq!(bridge.ready_count(), 0);
}

#[test]
fn teardown_drops_undelivered_responses_too() {
    let mut bridge: AsyncBridge<u32> = AsyncBridge::new();
    assert_eq!(bridge.schedule(1, 0), Ok(()));
    assert_eq!(bridge.schedule(2, 0), Ok(()));
    assert!(bridge.complete(1, Ok(Payload::Null)));
    assert_eq!(bridge.teardown(), 1);
    assert_eq!(bridge.ready_count(), 0);
    assert!(bridge.deliver().is_empty());
    assert_eq!(bridge.teardown(), 0);
}

#[test]
fn scheduling_after_teardown_is_refused() {
    let mut bridge: AsyncBridge<u32> = AsyncBridge::new();
    bridge.teardown();
    assert_eq!(bridge.schedule(1, 0), Err(OpError::TornDown));
    assert_eq!(bridge.pending_count(), 0);
}

#[test]
fn poll_pending_gives_each_call_a_turn_in_order() {
    let mut bridge: AsyncBridge<u32> = AsyncBridge::new();
    assert_eq!(bridge.schedule(1, 2), Ok(()));
    assert_eq!(bridge.schedule(2, 0), Ok(()));
    assert_eq!(bridge.schedule(3, 1), Ok(()));
    assert_eq!(bridge.schedule(4, 0), Ok(()));
    let countdown = |call_id: u64, left: u32| {
        if left == 0 {
            Progress::Finished(Ok(Payload::Number(call_id.to_string())))
        } else {
            Progress::Waiting(left - 1)
        }
    };
    assert_eq!(bridge.poll_pending(countdown), 2);
    assert_eq!(bridge.pending_count(), 2);
    assert!(bridge.is_pending(1));
    assert!(bridge.is_ready(2));
    assert!(bridge.is_pending(3));
    assert!(bridge.is_ready(4));
    assert_eq!(
        bridge.deliver(),
        vec![
            Response { call_id: 2, outcome: Ok(Payload::Number("2".to_string())) },
            Response { call_id: 4, outcome: Ok(Payload::Number("4".to_string())) },
        ]
    );
    assert_eq!(bridge.poll_pending(countdown), 1);
    assert!(bridge.is_pending(1));
    assert_eq!(
        bridge.deliver(),
        vec![Response { call_id: 3, outcome: Ok(Payload::Number("3".to_string())) }]
    );
    assert_eq!(bridge.poll_pending(countdown), 1);
    assert_eq!(
        bridge.deliver(),
        vec![Response { call_id: 1, outcome: Ok(Payload::Number("1".to_string())) }]
    );
    assert_eq!(bridge.pending_count(), 0);
    assert_eq!(bridge.poll_pending(countdown), 0);
}

#[test]
fn poll_pending_on_an_empty_bridge_does_nothing() {
    let mut bridge: AsyncBridge<u32> = AsyncBridge::new();
    assert_eq!(bridge.poll_pending(|_, left| Progress::Waiting(left)), 0);
    assert_eq!(bridge.pending_count(), 0);
    assert_eq!(bridge.ready_count(), 0);
}
