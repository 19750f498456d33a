use vstd::prelude::*;

verus! {

/// Errors reported by the library; each carries the message that describes it.
#[derive(Debug)]
pub enum AppError {
    Protocol(String),
    Clipboard(String),
    Network(String),
    WebSocket(String),
    Serialization(String),
    ChannelClosed,
}

/// `e` is a protocol error whose message is `msg`.
pub open spec fn is_protocol_error(e: AppError, msg: Seq<char>) -> bool {
    e matches AppError::Protocol(m) && m@ == msg
}

/// `e` is a clipboard error whose message is `msg`.
pub open spec fn is_clipboard_error(e: AppError, msg: Seq<char>) -> bool {
    e matches AppError::Clipboard(m) && m@ == msg
}

/// Builds a protocol error with the given message.
pub fn protocol_error(msg: &str) -> (e: AppError)
    ensures
        is_protocol_error(e, msg@),
{
    AppError::Protocol(String::from_str(msg))
}

/// Builds a clipboard error with the given message.
pub fn clipboard_error(msg: &str) -> (e: AppError)
    ensures
        is_clipboard_error(e, msg@),
{
    AppError::Clipboard(String::from_str(msg))
}

} // verus!
