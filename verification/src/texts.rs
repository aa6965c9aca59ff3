//! The texts that stand for the types of the library where a value is shown.
use vstd::prelude::*;

verus! {

/// The text shown for a sender.
pub fn sender() -> (text: &'static str)
    ensures
        text@ == "Sender { .. }"@,
{
    "Sender { .. }"
}

/// The text shown for a receiver.
pub fn receiver() -> (text: &'static str)
    ensures
        text@ == "Receiver { .. }"@,
{
    "Receiver { .. }"
}

/// The text shown for the messages of a receiver, waiting for each.
pub fn iter() -> (text: &'static str)
    ensures
        text@ == "Iter { rx: Receiver { .. } }"@,
{
    "Iter { rx: Receiver { .. } }"
}

/// The text shown for the messages of a receiver, without waiting.
pub fn try_iter() -> (text: &'static str)
    ensures
        text@ == "TryIter { rx: Receiver { .. } }"@,
{
    "TryIter { rx: Receiver { .. } }"
}

/// The text shown for the messages of a receiver that belongs to the iteration.
pub fn into_iter() -> (text: &'static str)
    ensures
        text@ == "IntoIter { rx: Receiver { .. } }"@,
{
    "IntoIter { rx: Receiver { .. } }"
}

/// The text shown for a set of receivers.
pub fn select() -> (text: &'static str)
    ensures
        text@ == "Select { .. }"@,
{
    "Select { .. }"
}

/// The text shown for a receiver's part in a set.
pub fn handle() -> (text: &'static str)
    ensures
        text@ == "Handle { .. }"@,
{
    "Handle { .. }"
}

/// The text shown for a send that failed, whatever its message; the quotation marks belong to
/// it.
pub fn send_error() -> (text: &'static str)
    ensures
        text@ == "\"SendError(..)\""@,
{
    "\"SendError(..)\""
}

} // verus!
