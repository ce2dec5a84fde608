//! The failures that a call can end in, and the shape in which the guest sees them.

use crate::payload::ValueKind;
use vstd::prelude::*;
use vstd::string::*;

verus! {

/// A failure as the guest sees it: a kind and a message. Failures that a
/// capability raises itself arrive in this shape, and every other failure is
/// brought into it before it leaves the host.
#[derive(Debug, PartialEq, Eq)]
pub struct ErrorBody {
    pub kind: String,
    pub message: String,
}

/// The model of an [`ErrorBody`].
pub struct ErrorBodyView {
    pub kind: Seq<char>,
    pub message: Seq<char>,
}

impl View for ErrorBody {
    type V = ErrorBodyView;

    open spec fn view(&self) -> ErrorBodyView {
        ErrorBodyView { kind: self.kind@, message: self.message@ }
    }
}

/// Why a payload could not be decoded: the wire name of the field at fault,
/// the shape that was expected there, the shape that was found (`None` where
/// the field is missing), and the keys that lead from the payload's root to
/// the value at fault.
#[derive(Debug, PartialEq, Eq)]
pub struct DecodeError {
    pub field: String,
    pub expected: ValueKind,
    pub found: Option<ValueKind>,
    pub path: Vec<String>,
}

/// The model of a [`DecodeError`].
pub struct DecodeErrorView {
    pub field: Seq<char>,
    pub expected: ValueKind,
    pub found: Option<ValueKind>,
    pub path: Seq<Seq<char>>,
}

impl View for DecodeError {
    type V = DecodeErrorView;

    open spec fn view(&self) -> DecodeErrorView {
        DecodeErrorView {
            field: self.field@,
            expected: self.expected,
            found: self.found,
            path: self.path@.map_values(|key: String| key@),
        }
    }
}

/// Why a call failed.
#[derive(Debug, PartialEq, Eq)]
pub enum OpError {
    /// No op is registered under the name.
    NotFound { op_name: String },
    /// The op needs a capability that is not enabled.
    UnstableFeature { capability: String },
    /// The payload does not fit the op's arguments.
    Decode(DecodeError),
    /// The capability itself failed.
    Handler(ErrorBody),
    /// A deferred call with the same call id is still outstanding.
    CallIdInUse { call_id: u64 },
    /// The guest environment is gone; nothing can be deferred any more.
    TornDown,
}

/// The model of an [`OpError`].
pub enum OpErrorView {
    NotFound { op_name: Seq<char> },
    UnstableFeature { capability: Seq<char> },
    Decode(DecodeErrorView),
    Handler(ErrorBodyView),
    CallIdInUse { call_id: u64 },
    TornDown,
}

impl View for OpError {
    type V = OpErrorView;

    open spec fn view(&self) -> OpErrorView {
        match self {
            OpError::NotFound { op_name } => OpErrorView::NotFound { op_name: op_name@ },
            OpError::UnstableFeature { capability } => OpErrorView::UnstableFeature {
                capability: capability@,
            },
            OpError::Decode(e) => OpErrorView::Decode(e@),
            OpError::Handler(e) => OpErrorView::Handler(e@),
            OpError::CallIdInUse { call_id } => OpErrorView::CallIdInUse { call_id: *call_id },
            OpError::TornDown => OpErrorView::TornDown,
        }
    }
}

/// The word for a shape in messages.
pub open spec fn label_of(kind: ValueKind) -> Seq<char> {
    match kind {
        ValueKind::Null => "null"@,
        ValueKind::Flag => "flag"@,
        ValueKind::Number => "number"@,
        ValueKind::Text => "text"@,
        ValueKind::List => "list"@,
        ValueKind::Record => "record"@,
    }
}

/// The word for a shape in messages.
pub fn label(kind: ValueKind) -> (word: &'static str)
    ensures
        word@ == label_of(kind),
{
    match kind {
        ValueKind::Null => "null",
        ValueKind::Flag => "flag",
        ValueKind::Number => "number",
        ValueKind::Text => "text",
        ValueKind::List => "list",
        ValueKind::Record => "record",
    }
}

impl OpErrorView {
    /// The kind under which the guest sees this failure.
    pub open spec fn kind(self) -> Seq<char> {
        match self {
            OpErrorView::NotFound { .. } => "notFound"@,
            OpErrorView::UnstableFeature { .. } => "unstable"@,
            OpErrorView::Decode(_) => "decode"@,
            OpErrorView::Handler(e) => e.kind,
            OpErrorView::CallIdInUse { .. } => "callIdInUse"@,
            OpErrorView::TornDown => "tornDown"@,
        }
    }

    /// The message with which the guest sees this failure.
    pub open spec fn message(self) -> Seq<char> {
        match self {
            OpErrorView::NotFound { op_name } => "no op is registered as "@ + op_name,
            OpErrorView::UnstableFeature { capability } => "unstable capability is not enabled: "@
                + capability,
            OpErrorView::Decode(e) => "cannot decode field '"@ + e.field + "': expected "@
                + label_of(e.expected),
            OpErrorView::Handler(e) => e.message,
            OpErrorView::CallIdInUse { .. } => "a deferred call with this call id is outstanding"@,
            OpErrorView::TornDown => "the guest environment has been torn down"@,
        }
    }

    /// The failure as the guest sees it.
    pub open spec fn body(self) -> ErrorBodyView {
        ErrorBodyView { kind: self.kind(), message: self.message() }
    }
}

impl OpError {
    /// The kind under which the guest sees this failure.
    pub fn kind(&self) -> (kind: String)
        ensures
            kind@ == self@.kind(),
    {
        match self {
            OpError::NotFound { .. } => "notFound".to_owned(),
            OpError::UnstableFeature { .. } => "unstable".to_owned(),
            OpError::Decode(_) => "decode".to_owned(),
            OpError::Handler(e) => e.kind.clone(),
            OpError::CallIdInUse { .. } => "callIdInUse".to_owned(),
            OpError::TornDown => "tornDown".to_owned(),
        }
    }

    /// The message with which the guest sees this failure.
    pub fn message(&self) -> (message: String)
        ensures
            message@ == self@.message(),
    {
        match self {
            OpError::NotFound { op_name } => {
                let mut text = "no op is registered as ".to_owned();
                text.append(op_name.as_str());
                text
            },
            OpError::UnstableFeature { capability } => {
                let mut text = "unstable capability is not enabled: ".to_owned();
                text.append(capability.as_str());
                text
            },
            OpError::Decode(e) => {
                let mut text = "cannot decode field '".to_owned();
                text.append(e.field.as_str());
                text.append("': expected ");
                text.append(label(e.expected));
                text
            },
            OpError::Handler(e) => e.message.clone(),
            OpError::CallIdInUse { .. } => "a deferred call with this call id is outstanding".to_owned(),
            OpError::TornDown => "the guest environment has been torn down".to_owned(),
        }
    }

    /// The failure as the guest sees it.
    pub fn body(&self) -> (body: ErrorBody)
        ensures
            body@ == self@.body(),
    {
        ErrorBody { kind: self.kind(), message: self.message() }
    }
}

} // verus!
