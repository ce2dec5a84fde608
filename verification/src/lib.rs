//! Host-function ("op") dispatch and asynchronous bridging for an embeddable
//! script engine.
//!
//! A guest script calls named host capabilities. Each call travels as an
//! envelope: the op's name, a call id, a structured payload and an optional
//! raw buffer. The dispatcher resolves the name in the registry, asks the
//! capability gate, decodes the payload into typed arguments and only then
//! runs the handler. A handler answers at once, or hands back a computation
//! that the bridge keeps until it resolves and whose response reaches the
//! guest at the next scheduling point.

pub mod bridge;
pub mod codec;
pub mod dispatch;
pub mod error;
pub mod gate;
pub mod history;
pub mod lifecycle;
pub mod payload;
pub mod registry;
pub mod runtime_compiler;
pub mod text;
pub mod text_map;
