//! Constants of the channel protocol.
use vstd::prelude::*;

verus! {

/// Value of the message counter once either side has hung up.
pub const DISCONNECTED: isize = isize::MIN;

/// Number of messages the receiver may take without telling the counter.
pub const MAX_STEALS: isize = 1_048_576;

/// Capacity of the queue a channel starts with.
pub const INITIAL_CAPACITY: usize = 128;

} // verus!
