use op_dispatch::codec::ArgSchema;
use op_dispatch::error::OpError;
use op_dispatch::gate::CapabilityGate;
use op_dispatch::registry::{OpEntry, OpRegistry, RegisterError};

#[test]
fn registry_starts_empty_and_open() {
    let registry: OpRegistry<u8> = OpRegistry::new();
    assert_eq!(registry.len(), 0);
    assert!(!registry.is_sealed());
    assert_eq!(registry.lookup("compile"), None);
}

#[test]
fn registered_op_is_found_under_its_name() {
    let mut registry: OpRegistry<u8> = OpRegistry::new();
    assert_eq!(
        registry.register("compile".to_string(), Some("Deno.compile".to_string()), ArgSchema::Compile, 1),
        Ok(())
    );
    assert_eq!(registry.register("plain".to_string(), None, ArgSchema::Transpile, 2), Ok(()));
    assert_eq!(registry.len(), 2);
    assert_eq!(
        registry.lookup("compile"),
        Some(&OpEntry {
            capability: Some("Deno.compile".to_string()),
            schema: ArgSchema::Compile,
            handler: 1,
        })
    );
    assert_eq!(
        registry.lookup("plain"),
        Some(&OpEntry { capability: None, schema: ArgSchema::Transpile, handler: 2 })
    );
    assert_eq!(registry.lookup("Compile"), None);
    assert_eq!(registry.lookup(""), None);
}

#[test]
fn registration_after_sealing_fails() {
    let mut registry: OpRegistry<u8> = OpRegistry::new();
    assert_eq!(registry.register("a".to_string(), None, ArgSchema::Compile, 1), Ok(()));
    registry.seal();
    assert!(registry.is_sealed());
    assert_eq!(
        registry.register("b".to_string(), None, ArgSchema::Compile, 2),
        Err(RegisterError::AlreadyInitialized)
    );
    assert_eq!(
        registry.register("a".to_string(), None, ArgSchema::Compile, 3),
        Err(RegisterError::AlreadyInitialized)
    );
    assert_eq!(registry.len(), 1);
    assert_eq!(registry.lookup("b"), None);
    assert_eq!(registry.lookup("a").map(|entry| entry.handler), Some(1));
    registry.seal();
    assert!(registry.is_sealed());
}

#[test]
fn taken_name_is_refused_and_the_first_entry_stays() {
    let mut registry: OpRegistry<u8> = OpRegistry::new();
    assert_eq!(registry.register("a".to_string(), None, ArgSchema::Compile, 1), Ok(()));
    assert_eq!(
        registry.register("a".to_string(), Some("c".to_string()), ArgSchema::Transpile, 2),
        Err(RegisterError::NameTaken)
    );
    assert_eq!(registry.len(), 1);
    assert_eq!(
        registry.lookup("a"),
        Some(&OpEntry { capability: None, schema: ArgSchema::Compile, handler: 1 })
    );
}

#[test]
fn nothing_is_enabled_at_first() {
    let gate = CapabilityGate::new();
    assert!(!gate.is_enabled("Deno.compile"));
    assert!(!gate.is_enabled(""));
    assert_eq!(
        gate.check("Deno.compile"),
        Err(OpError::UnstableFeature { capability: "Deno.compile".to_string() })
    );
}

#[test]
fn enabled_capability_passes_and_others_do_not() {
    let mut gate = CapabilityGate::new();
    gate.enable("Deno.compile");
    assert!(gate.is_enabled("Deno.compile"));
    assert_eq!(gate.check("Deno.compile"), Ok(()));
    assert!(!gate.is_enabled("Deno.transpile"));
    assert!(!gate.is_enabled("deno.compile"));
    assert!(!gate.is_enabled("Deno.compil"));
    assert_eq!(
        gate.check("Deno.transpile"),
        Err(OpError::UnstableFeature { capability: "Deno.transpile".to_string() })
    );
    gate.enable("Deno.compile");
    gate.enable("Deno.transpile");
    assert_eq!(gate.check("Deno.compile"), Ok(()));
    assert_eq!(gate.check("Deno.transpile"), Ok(()));
}
