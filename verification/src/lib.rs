//! A feeder: producers send items in, and each receiver gets as many as it has asked for.
//!
//! Receivers keep a number of items requested, between a low and a high water mark. Scheduler
//! workers take the requests and deliver items to them. What a receiver had buffered when it was
//! dropped is delivered to others. A graceful shutdown delivers everything that was accepted;
//! cancelling stops at once.
//!
//! - `model` says what each operation makes of the state of a feeder, `integrity` what holds in
//!   every state.
//! - `shared`, `consumer` and `worker` are the operations; `handles` puts them behind a lock, for
//!   any number of threads.
//! - `effects`, `effects_consumer` and `effects_worker` state what each operation does, by what is
//!   there before and after it.
//! - `laws`, `history_laws`, `conserve`, `order`, `ledger` and `reports` state what holds of the
//!   library as a whole, over the sequences of operations that `history` defines.
//! - `channel` and `status` are the boundary to the channels that carry items and events.

use vstd::prelude::*;

pub mod channel;
pub mod conserve;
pub mod consumer;
pub mod effects;
pub mod effects_consumer;
pub mod effects_worker;
pub mod handles;
pub mod history;
pub mod history_laws;
pub mod integrity;
pub mod laws;
pub mod ledger;
pub mod model;
pub mod nonzero;
pub mod order;
pub mod preserve;
pub mod preserve_worker;
pub mod reports;
pub mod shared;
pub mod stats;
pub mod status;
pub mod tally;
pub mod types;
pub mod worker;

pub use crate::handles::{Feeder, FeederBuilder, FeederRx, FeederTx, Worker};
pub use crate::model::{DemandCommand, WorkerState, WorkerStep};
pub use crate::nonzero::NonZeroUsize;
pub use crate::shared::Shared;
pub use crate::stats::{
    ConsumerStats, ConsumerStatsSnapshot, FeederStatsSnapshot, SchedulerStats,
    SchedulerStatsSnapshot,
};
pub use crate::status::{ChannelStatus, NoStatus, StatusEvent, StatusSink};
pub use crate::types::{
    AccessError, Attempt, FeederId, GetError, ReceiverId, SendBatchError, SendError, TryGet,
    TryGetOne,
};

verus! {

} // verus!
