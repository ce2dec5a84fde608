use op_dispatch::codec::{ArgSchema, CompileArgs, TranspileArgs};
use op_dispatch::error::{DecodeError, OpError};
use op_dispatch::gate::CapabilityGate;
use op_dispatch::payload::{Payload, ValueKind};
use op_dispatch::registry::{OpEntry, OpRegistry, RegisterError};
use op_dispatch::runtime_compiler::{init, op_compile, op_transpile};
use op_dispatch::text_map::TextMap;

fn text(s: &str) -> Payload {
    Payload::Text(s.to_string())
}

fn record(entries: Vec<(&str, Payload)>) -> Payload {
    let mut fields = TextMap::new();
    for (key, value) in entries {
        fields.insert(key.to_string(), value);
    }
    Payload::Record(fields)
}

fn sources() -> TextMap<String> {
    let mut sources = TextMap::new();
    sources.insert("main.ts".to_string(), "const x=1".to_string());
    sources
}

fn compile_payload() -> Payload {
    record(vec![
        ("rootName", text("main.ts")),
        ("sources", record(vec![("main.ts", text("const x=1"))])),
        ("bundle", Payload::Flag(false)),
        ("options", Payload::Null),
    ])
}

#[test]
fn init_registers_both_ops() {
    let mut registry: OpRegistry<&str> = OpRegistry::new();
    assert_eq!(init(&mut registry, "compile handler", "transpile handler"), Ok(()));
    assert_eq!(registry.len(), 2);
    assert!(!registry.is_sealed());
    assert_eq!(
        registry.lookup("op_compile"),
        Some(&OpEntry {
            capability: Some("Deno.compile".to_string()),
            schema: ArgSchema::Compile,
            handler: "compile handler",
        })
    );
    assert_eq!(
        registry.lookup("op_transpile"),
        Some(&OpEntry {
            capability: Some("Deno.transpile".to_string()),
            schema: ArgSchema::Transpile,
            handler: "transpile handler",
        })
    );
}

#[test]
fn init_keeps_what_was_registered_before() {
    let mut registry: OpRegistry<&str> = OpRegistry::new();
    assert_eq!(registry.register("op_other".to_string(), None, ArgSchema::Transpile, "other"), Ok(()));
    assert_eq!(init(&mut registry, "c", "t"), Ok(()));
    assert_eq!(registry.len(), 3);
    assert_eq!(
        registry.lookup("op_other"),
        Some(&OpEntry { capability: None, schema: ArgSchema::Transpile, handler: "other" })
    );
}

#[test]
fn init_on_a_sealed_registry_fails() {
    let mut registry: OpRegistry<&str> = OpRegistry::new();
    registry.seal();
    assert_eq!(init(&mut registry, "c", "t"), Err(RegisterError::AlreadyInitialized));
    assert_eq!(registry.len(), 0);
}

#[test]
fn init_registers_nothing_where_a_name_is_taken() {
    let mut registry: OpRegistry<&str> = OpRegistry::new();
    assert_eq!(registry.register("op_transpile".to_string(), None, ArgSchema::Compile, "mine"), Ok(()));
    assert_eq!(init(&mut registry, "c", "t"), Err(RegisterError::NameTaken));
    assert_eq!(registry.len(), 1);
    assert_eq!(registry.lookup("op_compile"), None);
    assert_eq!(registry.lookup("op_transpile").map(|entry| entry.handler), Some("mine"));
    let mut twice: OpRegistry<&str> = OpRegistry::new();
    assert_eq!(init(&mut twice, "c", "t"), Ok(()));
    assert_eq!(init(&mut twice, "c2", "t2"), Err(RegisterError::NameTaken));
    assert_eq!(twice.lookup("op_compile").map(|entry| entry.handler), Some("c"));
}

#[test]
fn op_compile_asks_for_its_capability_first() {
    let gate = CapabilityGate::new();
    let unstable = OpError::UnstableFeature { capability: "Deno.compile".to_string() };
    assert_eq!(op_compile(&gate, compile_payload(), None::<Vec<u8>>), Err(unstable));
    assert_eq!(
        op_compile(&gate, Payload::Null, Some(vec![1u8, 2])),
        Err(OpError::UnstableFeature { capability: "Deno.compile".to_string() })
    );
    let mut other = CapabilityGate::new();
    other.enable("Deno.transpile");
    assert_eq!(
        op_compile(&other, compile_payload(), None::<Vec<u8>>),
        Err(OpError::UnstableFeature { capability: "Deno.compile".to_string() })
    );
}

#[test]
fn op_compile_decodes_the_request() {
    let mut gate = CapabilityGate::new();
    gate.enable("Deno.compile");
    assert_eq!(
        op_compile(&gate, compile_payload(), None::<Vec<u8>>),
        Ok(CompileArgs {
            root_name: "main.ts".to_string(),
            sources: Some(sources()),
            bundle: false,
            options: None,
        })
    );
    assert_eq!(
        op_compile(&gate, record(vec![("rootName", text("main.ts"))]), None::<Vec<u8>>),
        Err(OpError::Decode(DecodeError {
            field: "bundle".to_string(),
            expected: ValueKind::Flag,
            found: None,
            path: vec!["bundle".to_string()],
        }))
    );
}

#[test]
fn op_transpile_asks_for_its_capability_first() {
    let mut gate = CapabilityGate::new();
    gate.enable("Deno.compile");
    assert_eq!(
        op_transpile(&gate, Payload::Flag(false), None::<Vec<u8>>),
        Err(OpError::UnstableFeature { capability: "Deno.transpile".to_string() })
    );
}

#[test]
fn op_transpile_decodes_the_request() {
    let mut gate = CapabilityGate::new();
    gate.enable("Deno.transpile");
    let payload = record(vec![
        ("sources", record(vec![("main.ts", text("const x=1"))])),
        ("options", text("{}")),
    ]);
    assert_eq!(
        op_transpile(&gate, payload, Some(vec![0u8])),
        Ok(TranspileArgs { sources: sources(), options: Some("{}".to_string()) })
    );
    assert_eq!(
        op_transpile(&gate, record(vec![("sources", text("x"))]), None::<Vec<u8>>),
        Err(OpError::Decode(DecodeError {
            field: "sources".to_string(),
            expected: ValueKind::Record,
            found: Some(ValueKind::Text),
            path: vec!["sources".to_string()],
        }))
    );
}
