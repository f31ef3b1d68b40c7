//! A bounded broadcast ring: every value that a producer sends is delivered,
//! in the order of publication, to every receiver that was placed on the ring
//! before the value was overwritten, and producers wait rather than overwrite
//! what some receiver has yet to read.
//!
//! The library is a state machine. A `Ring` holds the slots and the two
//! trackers; senders and receivers are small handles that work on a ring
//! handed to them for one step at a time. No function waits: where a send or
//! a receive cannot go on, it answers `Poll::Pending` with the pause that the
//! wait strategy prescribes, and the caller comes back after the pause. A
//! program with several threads keeps the ring where each thread can reach
//! it, lets one thread at a time take a step, and performs the pauses.
//!
//! Every step is verified against a mathematical model of the ring,
//! `channel::model::RingView`; what holds of all sequences of steps is proved
//! in `channel::laws`.

pub mod channel;
pub mod utils;

pub use channel::receiver::{BroadcastReceiver, Receiver, ReceiverError};
pub use channel::sender::{BroadcastSender, Sender, SenderError};
pub use channel::tracker::{
    MultiCursorTracker, ProducerTracker, ReceiverTracker, SequentialProducerTracker, Tracker,
    TrackerError,
};
pub use channel::wait_strategy::{
    Backoff, BlockWait, BusyWait, Pause, Poll, SleepWait, SpinBlockWait, WaitStrategy, Waitable,
    YieldWait,
};
pub use channel::{
    busy_channel, channel, channel_with, ChannelError, ChannelHandles, Core, Ring, SetupError,
};
pub use utils::FastMod;
