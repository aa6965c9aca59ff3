//! An unbounded channel between one sender and one receiver.
//!
//! Messages travel through a row of bounded queues. When the sender finds its queue full, it
//! makes one of twice the capacity and hands it over; the receiver goes over to it once the
//! old one is drained. A counter, a flag and a token in shared memory let the receiver sleep
//! while no message is pending.
//!
//! What each end does is a sequence of accesses to that memory: [`sending`] for the sender;
//! [`polling`], [`arming`] and [`receiving`] for the receiver, with [`blocking`] for its
//! sleep. Each is a state machine that says which access comes next and takes what the access
//! returned, so that any memory can be put under it. [`coherence`] shows what holds between
//! any two accesses, [`system`] puts the two ends together, and [`laws`], [`ends`] and
//! [`progress`] say what follows for every interleaving. [`steps`] says when an end comes to
//! which decision.
//!
//! [`Link`] is a memory that one thread owns. The calls of [`Sender`] and [`Receiver`] run
//! the machines on it from start to end, [`meaning`] says what the calls are for, and
//! [`turns`] and [`rows`] say what follows for rows of them. [`select`] waits for several
//! receivers, [`rounds`] says which of them it comes to, and [`assembly`] shows what comes of
//! it while their senders run.
pub mod arming;
pub mod assembly;
pub mod blocking;
pub mod channel;
pub mod coherence;
pub mod departure;
pub mod ends;
pub mod errors;
pub mod iter;
pub mod laws;
pub mod limits;
pub mod link;
pub mod meaning;
pub mod polling;
pub mod progress;
pub mod receiver;
pub mod receiving;
pub mod ring;
pub mod rounds;
pub mod rows;
pub mod select;
pub mod selection;
pub mod sender;
pub mod sending;
pub mod steps;
pub mod system;
pub mod texts;
pub mod turns;

pub use arming::SelectionResult;
pub use channel::{channel, Receiver, Sender};
pub use errors::{RecvError, RecvTimeoutError, SendError, TryRecvError};
pub use iter::{IntoIter, Iter, TryIter};
pub use limits::{DISCONNECTED, INITIAL_CAPACITY, MAX_STEALS};
pub use link::Link;
pub use select::{Handle, Packet, Select, StartResult};
