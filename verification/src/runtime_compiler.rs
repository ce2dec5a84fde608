//! The two ops of the runtime compiler: `op_compile` compiles a program and
//! `op_transpile` transpiles sources. Both are experimental, so each asks for
//! a capability, and both defer their work.

use crate::codec::{
    compile_args_of, decode_compile, decode_transpile, transpile_args_of, ArgSchema, CompileArgs,
    CompileArgsView, TranspileArgs, TranspileArgsView, TypedArgsView,
};
use crate::dispatch::route_of;
use crate::error::{OpError, OpErrorView};
use crate::gate::{gate_answer, CapabilityGate};
use crate::payload::Payload;
use crate::registry::{OpEntry, OpRegistry, RegisterError};
use crate::text::owned_text;
use vstd::prelude::*;

verus! {

/// Whether `entry` asks for `capability`, decodes to `schema` and runs `handler`.
pub open spec fn is_entry<H>(
    entry: OpEntry<H>,
    capability: Seq<char>,
    schema: ArgSchema,
    handler: H,
) -> bool {
    &&& entry.capability matches Some(c) && c@ == capability
    &&& entry.schema == schema
    &&& entry.handler == handler
}

/// Whether `after` is `before` with the two ops of the runtime compiler
/// registered on top, run by `compile` and `transpile`.
pub open spec fn with_compiler_ops<H>(
    before: Map<Seq<char>, OpEntry<H>>,
    after: Map<Seq<char>, OpEntry<H>>,
    compile: H,
    transpile: H,
) -> bool {
    &&& after.dom() == before.dom().insert("op_compile"@).insert("op_transpile"@)
    &&& is_entry(after["op_compile"@], "Deno.compile"@, ArgSchema::Compile, compile)
    &&& is_entry(after["op_transpile"@], "Deno.transpile"@, ArgSchema::Transpile, transpile)
    &&& forall|name: Seq<char>| #[trigger] before.contains_key(name) ==> after[name] == before[name]
}

/// What `init` answers on a registry: it fails once the registry is sealed,
/// and where one of the two names is taken.
pub open spec fn init_answer<H>(sealed: bool, before: Map<Seq<char>, OpEntry<H>>) -> Result<
    (),
    RegisterError,
> {
    if sealed {
        Err(RegisterError::AlreadyInitialized)
    } else if before.contains_key("op_compile"@) || before.contains_key("op_transpile"@) {
        Err(RegisterError::NameTaken)
    } else {
        Ok(())
    }
}

/// Registers `op_compile`, which asks for the capability `Deno.compile`, and
/// `op_transpile`, which asks for `Deno.transpile`, with the handlers that
/// run them. Either both are registered or, on a failure, neither.
pub fn init<H>(registry: &mut OpRegistry<H>, compile: H, transpile: H) -> (registered: Result<
    (),
    RegisterError,
>)
    ensures
        final(registry).sealed() == old(registry).sealed(),
        registered == init_answer(old(registry).sealed(), old(registry)@),
        registered is Err ==> final(registry)@ == old(registry)@,
        registered is Ok ==> with_compiler_ops(
            old(registry)@,
            final(registry)@,
            compile,
            transpile,
        ),
{
    if registry.is_sealed() {
        return Err(RegisterError::AlreadyInitialized);
    }
    if registry.lookup("op_compile").is_some() || registry.lookup("op_transpile").is_some() {
        return Err(RegisterError::NameTaken);
    }
    proof {
        reveal_strlit("op_compile");
        reveal_strlit("op_transpile");
        assert("op_compile"@.len() != "op_transpile"@.len());
    }
    let first = registry.register(
        owned_text("op_compile"),
        Some(owned_text("Deno.compile")),
        ArgSchema::Compile,
        compile,
    );
    let second = registry.register(
        owned_text("op_transpile"),
        Some(owned_text("Deno.transpile")),
        ArgSchema::Transpile,
        transpile,
    );
    assert(first is Ok && second is Ok);
    assert(registry@.dom() =~= old(registry)@.dom().insert("op_compile"@).insert(
        "op_transpile"@,
    ));
    Ok(())
}

/// What `op_compile` makes of a call: the failure that names `Deno.compile`
/// where that capability is not enabled, whatever the payload holds;
/// otherwise what decoding the compile arguments gives.
pub open spec fn compile_request_of(enabled: Set<Seq<char>>, payload: Payload) -> Result<
    CompileArgsView,
    OpErrorView,
> {
    match gate_answer(enabled, "Deno.compile"@) {
        Some(e) => Err(e),
        None => match compile_args_of(payload) {
            Ok(args) => Ok(args),
            Err(e) => Err(OpErrorView::Decode(e)),
        },
    }
}

/// What `op_transpile` makes of a call: the failure that names
/// `Deno.transpile` where that capability is not enabled, whatever the
/// payload holds; otherwise what decoding the transpile arguments gives.
pub open spec fn transpile_request_of(enabled: Set<Seq<char>>, payload: Payload) -> Result<
    TranspileArgsView,
    OpErrorView,
> {
    match gate_answer(enabled, "Deno.transpile"@) {
        Some(e) => Err(e),
        None => match transpile_args_of(payload) {
            Ok(args) => Ok(args),
            Err(e) => Err(OpErrorView::Decode(e)),
        },
    }
}

/// The synchronous phase of the compile op: it asks for the capability
/// `Deno.compile`, then decodes the arguments. The request that it returns
/// is what the deferred compilation runs on. The op has no use for a raw
/// buffer and drops the one it is given.
pub fn op_compile<B>(gate: &CapabilityGate, args: Payload, _zero_copy: Option<B>) -> (request:
    Result<CompileArgs, OpError>)
    ensures
        match request {
            Ok(decoded) => compile_request_of(gate@, args) == Ok::<CompileArgsView, OpErrorView>(
                decoded@,
            ),
            Err(e) => compile_request_of(gate@, args) == Err::<CompileArgsView, OpErrorView>(e@),
        },
{
    match gate.check("Deno.compile") {
        Err(e) => {
            return Err(e);
        },
        Ok(()) => {},
    }
    match decode_compile(&args) {
        Ok(decoded) => Ok(decoded),
        Err(e) => Err(OpError::Decode(e)),
    }
}

/// The synchronous phase of the transpile op: it asks for the capability
/// `Deno.transpile`, then decodes the arguments. The request that it returns
/// is what the deferred transpilation runs on. The op has no use for a raw
/// buffer and drops the one it is given.
pub fn op_transpile<B>(gate: &CapabilityGate, args: Payload, _zero_copy: Option<B>) -> (request:
    Result<TranspileArgs, OpError>)
    ensures
        match request {
            Ok(decoded) => transpile_request_of(gate@, args) == Ok::<
                TranspileArgsView,
                OpErrorView,
            >(decoded@),
            Err(e) => transpile_request_of(gate@, args) == Err::<TranspileArgsView, OpErrorView>(
                e@,
            ),
        },
{
    match gate.check("Deno.transpile") {
        Err(e) => {
            return Err(e);
        },
        Ok(()) => {},
    }
    match decode_transpile(&args) {
        Ok(decoded) => Ok(decoded),
        Err(e) => Err(OpError::Decode(e)),
    }
}

/// On a registry that holds the two ops as `init` registers them, the
/// dispatcher takes a call of `op_compile` exactly where `op_compile` itself
/// goes, and a call of `op_transpile` where `op_transpile` goes.
pub proof fn lemma_dispatcher_agrees_with_ops<H>(
    before: Map<Seq<char>, OpEntry<H>>,
    registry: Map<Seq<char>, OpEntry<H>>,
    compile: H,
    transpile: H,
    enabled: Set<Seq<char>>,
    payload: Payload,
)
    requires
        with_compiler_ops(before, registry, compile, transpile),
    ensures
        route_of(registry, enabled, "op_compile"@, payload) == match compile_request_of(
            enabled,
            payload,
        ) {
            Ok(args) => Ok::<TypedArgsView, OpErrorView>(TypedArgsView::Compile(args)),
            Err(e) => Err::<TypedArgsView, OpErrorView>(e),
        },
        route_of(registry, enabled, "op_transpile"@, payload) == match transpile_request_of(
            enabled,
            payload,
        ) {
            Ok(args) => Ok::<TypedArgsView, OpErrorView>(TypedArgsView::Transpile(args)),
            Err(e) => Err::<TypedArgsView, OpErrorView>(e),
        },
{
    assert(registry.dom().contains("op_compile"@));
    assert(registry.dom().contains("op_transpile"@));
}

} // verus!
