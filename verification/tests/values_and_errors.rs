use op_dispatch::bridge::AsyncBridge;
use op_dispatch::error::{label, DecodeError, ErrorBody, OpError};
use op_dispatch::lifecycle::{advance, phase, CallEvent, CallPhase};
use op_dispatch::payload::{Payload, ValueKind};
use op_dispatch::text::{owned_text, same_text};
use op_dispatch::text_map::TextMap;

#[test]
fn same_text_compares_characters() {
    assert!(same_text("", ""));
    assert!(same_text("rootName", "rootName"));
    assert!(!same_text("rootName", "rootname"));
    assert!(!same_text("a", "ab"));
    assert!(!same_text("ab", "a"));
    assert!(same_text("ünï", "ünï"));
    assert!(!same_text("é", "e"));
    assert_eq!(owned_text("main.ts"), "main.ts".to_string());
}

#[test]
fn text_map_inserts_and_replaces() {
    let mut map: TextMap<u32> = TextMap::new();
    assert_eq!(map.len(), 0);
    assert_eq!(map.get("a"), None);
    assert!(!map.contains("a"));
    assert_eq!(map.entry_at(0), None);
    assert_eq!(map.insert("a".to_string(), 1), None);
    assert_eq!(map.insert("b".to_string(), 2), None);
    assert_eq!(map.insert("c".to_string(), 3), None);
    assert_eq!(map.len(), 3);
    assert_eq!(map.insert("a".to_string(), 10), Some(1));
    assert_eq!(map.len(), 3);
    assert_eq!(map.get("a"), Some(&10));
    assert_eq!(map.get("b"), Some(&2));
    assert_eq!(map.get("c"), Some(&3));
    assert_eq!(map.get("d"), None);
    assert!(map.contains("c"));
    assert_eq!(map.entry_at(0), Some((&"a".to_string(), &10)));
    assert_eq!(map.entry_at(1), Some((&"b".to_string(), &2)));
    assert_eq!(map.entry_at(2), Some((&"c".to_string(), &3)));
    assert_eq!(map.entry_at(3), None);
    assert_eq!(map.insert("c".to_string(), 30), Some(3));
    assert_eq!(map.entry_at(2), Some((&"c".to_string(), &30)));
}

#[test]
fn payload_knows_its_shape_and_fields() {
    assert_eq!(Payload::Null.kind(), ValueKind::Null);
    assert_eq!(Payload::Flag(false).kind(), ValueKind::Flag);
    assert_eq!(Payload::Number("1.5".to_string()).kind(), ValueKind::Number);
    assert_eq!(Payload::Text("t".to_string()).kind(), ValueKind::Text);
    assert_eq!(Payload::List(vec![]).kind(), ValueKind::List);
    let mut fields = TextMap::new();
    fields.insert("a".to_string(), Payload::Flag(true));
    let record = Payload::Record(fields);
    assert_eq!(record.kind(), ValueKind::Record);
    assert_eq!(record.field("a"), Some(&Payload::Flag(true)));
    assert_eq!(record.field("b"), None);
    assert_eq!(Payload::Text("a".to_string()).field("a"), None);
    assert_eq!(Payload::List(vec![Payload::Null]).field("0"), None);
}

#[test]
fn every_failure_has_its_kind_and_message() {
    let cases = vec![
        (OpError::NotFound { op_name: "op_x".to_string() }, "notFound", "no op is registered as op_x"),
        (
            OpError::UnstableFeature { capability: "Deno.compile".to_string() },
            "unstable",
            "unstable capability is not enabled: Deno.compile",
        ),
        (
            OpError::Decode(DecodeError {
                field: "rootName".to_string(),
                expected: ValueKind::Text,
                found: None,
                path: vec!["rootName".to_string()],
            }),
            "decode",
            "cannot decode field 'rootName': expected text",
        ),
        (
            OpError::Handler(ErrorBody { kind: "Busy".to_string(), message: "try later".to_string() }),
            "Busy",
            "try later",
        ),
        (
            OpError::CallIdInUse { call_id: 3 },
            "callIdInUse",
            "a deferred call with this call id is outstanding",
        ),
        (OpError::TornDown, "tornDown", "the guest environment has been torn down"),
    ];
    for (error, kind, message) in cases {
        assert_eq!(error.kind(), kind);
        assert_eq!(error.message(), message);
        assert_eq!(
            error.body(),
            ErrorBody { kind: kind.to_string(), message: message.to_string() }
        );
    }
}

#[test]
fn shapes_have_their_words() {
    assert_eq!(label(ValueKind::Null), "null");
    assert_eq!(label(ValueKind::Flag), "flag");
    assert_eq!(label(ValueKind::Number), "number");
    assert_eq!(label(ValueKind::Text), "text");
    assert_eq!(label(ValueKind::List), "list");
    assert_eq!(label(ValueKind::Record), "record");
}

#[test]
fn a_call_advances_along_its_life() {
    assert_eq!(advance(CallPhase::Received, CallEvent::Passed), Some(CallPhase::GateChecked));
    assert_eq!(advance(CallPhase::GateChecked, CallEvent::Decoded), Some(CallPhase::Decoded));
    assert_eq!(advance(CallPhase::Decoded, CallEvent::Answered), Some(CallPhase::Resolved));
    assert_eq!(advance(CallPhase::Decoded, CallEvent::Deferred), Some(CallPhase::Pending));
    assert_eq!(advance(CallPhase::Pending, CallEvent::Completed), Some(CallPhase::Resolved));
    assert_eq!(advance(CallPhase::Resolved, CallEvent::Delivered), Some(CallPhase::Delivered));
    assert_eq!(advance(CallPhase::Pending, CallEvent::TornDown), Some(CallPhase::Dropped));
    assert_eq!(advance(CallPhase::Received, CallEvent::Answered), Some(CallPhase::Resolved));
    assert_eq!(advance(CallPhase::GateChecked, CallEvent::Answered), Some(CallPhase::Resolved));
}

#[test]
fn a_call_cannot_leave_its_life() {
    let phases = [
        CallPhase::Received,
        CallPhase::GateChecked,
        CallPhase::Decoded,
        CallPhase::Pending,
        CallPhase::Resolved,
        CallPhase::Delivered,
        CallPhase::Dropped,
    ];
    let events = [
        CallEvent::Passed,
        CallEvent::Decoded,
        CallEvent::Answered,
        CallEvent::Deferred,
        CallEvent::Completed,
        CallEvent::Delivered,
        CallEvent::TornDown,
    ];
    let mut steps = 0;
    for from in phases {
        for event in events {
            if let Some(to) = advance(from, event) {
                steps += 1;
                assert_ne!(to, CallPhase::Received);
                assert_ne!(from, CallPhase::Delivered);
                assert_ne!(from, CallPhase::Dropped);
                if to == CallPhase::Dropped {
                    assert_eq!((from, event), (CallPhase::Pending, CallEvent::TornDown));
                }
                if to == CallPhase::Delivered {
                    assert_eq!((from, event), (CallPhase::Resolved, CallEvent::Delivered));
                }
            }
        }
    }
    assert_eq!(steps, 9);
    assert_eq!(advance(CallPhase::Resolved, CallEvent::TornDown), None);
    assert_eq!(advance(CallPhase::Pending, CallEvent::Delivered), None);
    assert_eq!(advance(CallPhase::Received, CallEvent::Deferred), None);
}

#[test]
fn the_bridge_knows_the_phase_of_an_outstanding_call() {
    let mut bridge: AsyncBridge<()> = AsyncBridge::new();
    assert_eq!(phase(&bridge, 1), None);
    assert_eq!(bridge.schedule(1, ()), Ok(()));
    assert_eq!(phase(&bridge, 1), Some(CallPhase::Pending));
    assert!(bridge.complete(1, Ok(Payload::Null)));
    assert_eq!(phase(&bridge, 1), Some(CallPhase::Resolved));
    assert_eq!(bridge.deliver().len(), 1);
    assert_eq!(phase(&bridge, 1), None);
}
