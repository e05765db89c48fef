//! Message descriptors.
use crate::encoding::Encoding;
use vstd::prelude::*;

verus! {

/// Describes a message that can be sent to an account.
#[derive(Debug, Clone, Copy)]
pub struct MessageDescriptor<'a> {
    /// The kind of message, e.g. volatile, query, constructor, pure.
    pub kind: MessageKind,
    /// The encoding of the message.
    pub encoding: Encoding,
    /// The name of the request type.
    pub request_type: &'a str,
    /// The name of the response type, if any.
    pub response_type: Option<&'a str>,
    /// The names of the events that can be emitted by the message.
    pub events: &'a [&'a str],
    /// The custom error codes that can be returned by the message.
    pub error_codes: &'a [ErrorCodeDescriptor<'a>],
}

impl<'a> MessageDescriptor<'a> {
    /// Create a new volatile message descriptor of unknown encoding with no response type,
    /// events or error codes.
    pub fn new(request_type: &'a str) -> (m: Self)
        ensures
            m.kind == MessageKind::Volatile,
            m.encoding == Encoding::Unknown,
            m.request_type == request_type,
            m.response_type is None,
            m.events@.len() == 0,
            m.error_codes@.len() == 0,
    {
        let events: &'a [&'a str] = &[];
        let error_codes: &'a [ErrorCodeDescriptor<'a>] = &[];
        MessageDescriptor {
            encoding: Encoding::Unknown,
            kind: MessageKind::Volatile,
            request_type,
            response_type: None,
            events,
            error_codes,
        }
    }
}

/// The kind of message.
#[derive(Debug, Clone, Copy, PartialEq, Eq, Structural)]
pub enum MessageKind {
    /// A regular message that can update state.
    Volatile,
    /// A message that only reads state.
    Query,
    /// A message used to create an account.
    Constructor,
    /// A message that neither reads nor updates state.
    Pure,
}

impl Default for MessageKind {
    fn default() -> (k: Self)
        ensures
            k == MessageKind::Volatile,
    {
        MessageKind::Volatile
    }
}

/// A descriptor for a custom error code.
#[derive(Debug, Clone, Copy)]
pub struct ErrorCodeDescriptor<'a> {
    /// The name of the error code.
    pub name: &'a str,
    /// The value of the error code.
    pub value: i32,
}

} // verus!
