//! What sending and receiving can fail with.
use crate::texts;
use vstd::prelude::*;

verus! {

/// Sender disconnected, no further messages will ever be received.
#[derive(Clone, Copy, Debug, PartialEq, Eq, Structural)]
pub struct RecvError;

/// Receiver disconnected, message will never be deliverable. What is shown of it does not
/// depend on the message: see [`SendError::debug`].
#[derive(Clone, Copy, PartialEq, Eq)]
pub struct SendError<T>(pub T);

/// Why a receive that does not wait came back without a message.
#[derive(Clone, Copy, Debug, PartialEq, Eq, Structural)]
pub enum TryRecvError {
    /// No message is pending, but the sender is still there.
    Empty,
    /// No message is pending and the sender is gone.
    Disconnected,
}

/// Why a receive with a time limit came back without a message.
#[derive(Clone, Copy, Debug, PartialEq, Eq, Structural)]
pub enum RecvTimeoutError {
    /// The time limit passed.
    Timeout,
    /// No message is pending and the sender is gone.
    Disconnected,
}

impl RecvError {
    /// The text shown for this error.
    pub fn description(&self) -> (text: &'static str)
        ensures
            text@ == "receiving on a closed cahnnel"@,
    {
        "receiving on a closed cahnnel"
    }
}

impl<T> SendError<T> {
    /// The text shown for this error.
    pub fn description(&self) -> (text: &'static str)
        ensures
            text@ == "sending on a closed cahnnel"@,
    {
        "sending on a closed cahnnel"
    }

    /// The text that stands for this error where its message cannot be shown; the quotation
    /// marks belong to it.
    pub fn debug(&self) -> (text: &'static str)
        ensures
            text@ == "\"SendError(..)\""@,
    {
        texts::send_error()
    }
}

impl TryRecvError {
    /// The text shown for this error.
    pub fn description(&self) -> (text: &'static str)
        ensures
            *self is Empty ==> text@ == "receiving on an empty channel"@,
            *self is Disconnected ==> text@ == "receiving on a closed channel"@,
    {
        match self {
            TryRecvError::Empty => "receiving on an empty channel",
            TryRecvError::Disconnected => "receiving on a closed channel",
        }
    }
}

} // verus!
