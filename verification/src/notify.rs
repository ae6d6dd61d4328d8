//! Typed notifications for the UI bridge: the severity levels and the
//! message shape carried on the notification channel.

use vstd::prelude::*;

verus! {

/// Severity of a UI notification.
#[derive(Debug, Clone, Copy, PartialEq, Eq, Structural)]
pub enum MessageType {
    Info,
    Warn,
    Error,
}

impl MessageType {
    /// The wire label of this severity.
    pub fn label(&self) -> (r: String)
        ensures
            *self is Info ==> r@ == "info"@,
            *self is Warn ==> r@ == "warn"@,
            *self is Error ==> r@ == "error"@,
    {
        match self {
            MessageType::Info => String::from_str("info"),
            MessageType::Warn => String::from_str("warn"),
            MessageType::Error => String::from_str("error"),
        }
    }
}

/// One notification: a severity and its text.
#[derive(Debug, Clone)]
pub struct Message {
    pub kind: MessageType,
    pub content: String,
}

impl Message {
    /// Pack a severity and text into a message.
    pub fn new(kind: MessageType, content: String) -> (r: Message)
        ensures
            r.kind == kind,
            r.content == content,
    {
        Message { kind, content }
    }
}

} // verus!
