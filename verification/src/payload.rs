//! The structured values that travel between guest and host.

use crate::text_map::TextMap;
use vstd::prelude::*;

verus! {

/// The shape of a structured value.
#[derive(Debug, Clone, Copy, PartialEq, Eq, Structural)]
pub enum ValueKind {
    Null,
    Flag,
    Number,
    Text,
    List,
    Record,
}

/// A structured value: what a call carries as its arguments and what a
/// capability hands back as its result.
#[derive(Debug, PartialEq, Eq)]
pub enum Payload {
    /// The absent value.
    Null,
    /// A truth value.
    Flag(bool),
    /// A number, kept as its decimal literal.
    Number(String),
    /// A piece of text.
    Text(String),
    /// A list of values.
    List(Vec<Payload>),
    /// A mapping from field names to values.
    Record(TextMap<Payload>),
}

impl Payload {
    /// The shape of this value.
    pub open spec fn kind_of(self) -> ValueKind {
        match self {
            Payload::Null => ValueKind::Null,
            Payload::Flag(_) => ValueKind::Flag,
            Payload::Number(_) => ValueKind::Number,
            Payload::Text(_) => ValueKind::Text,
            Payload::List(_) => ValueKind::List,
            Payload::Record(_) => ValueKind::Record,
        }
    }

    /// The value of the field `key`, where this value is a record that has it.
    pub open spec fn field_of(self, key: Seq<char>) -> Option<Payload> {
        match self {
            Payload::Record(fields) => if fields@.contains_key(key) {
                Some(fields@[key])
            } else {
                None
            },
            _ => None,
        }
    }

    /// The shape of this value.
    pub fn kind(&self) -> (kind: ValueKind)
        ensures
            kind == self.kind_of(),
    {
        match self {
            Payload::Null => ValueKind::Null,
            Payload::Flag(_) => ValueKind::Flag,
            Payload::Number(_) => ValueKind::Number,
            Payload::Text(_) => ValueKind::Text,
            Payload::List(_) => ValueKind::List,
            Payload::Record(_) => ValueKind::Record,
        }
    }

    /// The value of the field `key`, where this value is a record that has it.
    pub fn field(&self, key: &str) -> (value: Option<&Payload>)
        ensures
            value is Some <==> self.field_of(key@) is Some,
            value matches Some(v) ==> self.field_of(key@) == Some(*v),
    {
        match self {
            Payload::Record(fields) => fields.get(key),
            _ => None,
        }
    }
}

} // verus!
