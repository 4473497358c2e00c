//! Identifiers, errors and results of the public operations.

use vstd::prelude::*;

verus! {

/// Items are accepted and delivered.
pub const RUNNING: u8 = 0;

/// Ingress is sealed and what was accepted is being delivered.
pub const SHUTTING_DOWN: u8 = 1;

/// Everything was stopped at once.
pub const CANCELLED: u8 = 2;

/// Everything that was accepted has been consumed.
pub const NO_MORE_WORK: u8 = 3;

/// The identifier of one handle to a feeder.
#[derive(Debug, Clone, Copy, PartialEq, Eq, Hash, Structural)]
pub struct FeederId(pub usize);

/// The identifier of one receiver.
#[derive(Debug, Clone, Copy, PartialEq, Eq, Hash, Structural)]
pub struct ReceiverId(pub usize);

/// Why a handle for sending or receiving was refused.
#[derive(Debug, Clone, PartialEq, Eq)]
pub enum AccessError {
    IngressSealed,
    Cancelled,
    NoMoreWork,
    SchedulerStopped,
    InvalidWaterMarks,
}

impl AccessError {
    /// The text of the error.
    pub fn message(&self) -> (text: &'static str)
        ensures
            match self {
                AccessError::IngressSealed => text@ == "ingress sealed"@,
                AccessError::Cancelled => text@ == "cancelled"@,
                AccessError::NoMoreWork => text@ == "no more work"@,
                AccessError::SchedulerStopped => text@ == "scheduler stopped"@,
                AccessError::InvalidWaterMarks => text@
                    == "low water mark must be less than high water mark"@,
            },
    {
        match self {
            AccessError::IngressSealed => "ingress sealed",
            AccessError::Cancelled => "cancelled",
            AccessError::NoMoreWork => "no more work",
            AccessError::SchedulerStopped => "scheduler stopped",
            AccessError::InvalidWaterMarks => "low water mark must be less than high water mark",
        }
    }
}

/// Why an item was not accepted; it is handed back.
#[derive(Debug, Clone, PartialEq, Eq)]
pub enum SendError<T> {
    IngressSealed(T),
    Cancelled(T),
    NoMoreWork(T),
    SchedulerStopped(T),
}

/// Why a batch was not accepted; what was not accepted of it is handed back.
#[derive(Debug, Clone, PartialEq, Eq)]
pub enum SendBatchError<T> {
    IngressSealed(Vec<T>),
    Cancelled(Vec<T>),
    NoMoreWork(Vec<T>),
    SchedulerStopped(Vec<T>),
}

/// Why an item is refused, by the lifecycle and by whether items are accepted.
pub open spec fn send_error<T>(state: u8, accepting: bool, item: T) -> SendError<T> {
    if state == CANCELLED {
        SendError::Cancelled(item)
    } else if state == NO_MORE_WORK {
        SendError::NoMoreWork(item)
    } else if state == SHUTTING_DOWN || (state == RUNNING && !accepting) {
        SendError::IngressSealed(item)
    } else {
        SendError::SchedulerStopped(item)
    }
}

/// Refuses an item, which is handed back.
pub fn send_error_for_state<T>(state: u8, accepting: bool, item: T) -> (error: SendError<T>)
    ensures
        error == send_error(state, accepting, item),
{
    match state {
        CANCELLED => SendError::Cancelled(item),
        NO_MORE_WORK => SendError::NoMoreWork(item),
        SHUTTING_DOWN => SendError::IngressSealed(item),
        RUNNING => if accepting {
            SendError::SchedulerStopped(item)
        } else {
            SendError::IngressSealed(item)
        },
        _ => SendError::SchedulerStopped(item),
    }
}

impl<T> SendBatchError<T> {
    /// The items that are handed back.
    pub open spec fn items(self) -> Seq<T> {
        match self {
            SendBatchError::IngressSealed(items) => items@,
            SendBatchError::Cancelled(items) => items@,
            SendBatchError::NoMoreWork(items) => items@,
            SendBatchError::SchedulerStopped(items) => items@,
        }
    }
}

/// Refuses a batch, which is handed back.
pub fn send_batch_error_for_state<T>(state: u8, accepting: bool, items: Vec<T>) -> (error:
    SendBatchError<T>)
    ensures
        error.items() == items@,
        error is Cancelled <==> state == CANCELLED,
        error is NoMoreWork <==> state == NO_MORE_WORK,
        error is IngressSealed <==> state == SHUTTING_DOWN || (state == RUNNING && !accepting),
{
    match state {
        CANCELLED => SendBatchError::Cancelled(items),
        NO_MORE_WORK => SendBatchError::NoMoreWork(items),
        SHUTTING_DOWN => SendBatchError::IngressSealed(items),
        RUNNING => if accepting {
            SendBatchError::SchedulerStopped(items)
        } else {
            SendBatchError::IngressSealed(items)
        },
        _ => SendBatchError::SchedulerStopped(items),
    }
}

/// Why a receiver will get nothing more.
#[derive(Debug, Clone, Copy, PartialEq, Eq, Structural)]
pub enum GetError {
    Cancelled,
    NoMoreWork,
}

impl GetError {
    /// The text of the error.
    pub fn message(&self) -> (text: &'static str)
        ensures
            match self {
                GetError::Cancelled => text@ == "cancelled"@,
                GetError::NoMoreWork => text@ == "no more work"@,
            },
    {
        match self {
            GetError::Cancelled => "cancelled",
            GetError::NoMoreWork => "no more work",
        }
    }
}

/// What a receiver got without waiting.
#[derive(Debug, Clone, PartialEq, Eq)]
pub enum TryGet<T> {
    Items(Vec<T>),
    Empty,
    InShutdown,
    NoMoreWork,
    Cancelled,
}

/// What a receiver got without waiting, where it asked for one item.
#[derive(Debug, Clone, PartialEq, Eq)]
pub enum TryGetOne<T> {
    Item(T),
    Empty,
    InShutdown,
    NoMoreWork,
    Cancelled,
}

/// The outcome of an operation that may have to wait for others.
#[derive(Debug, Clone, Copy, PartialEq, Eq)]
pub enum Attempt<R> {
    /// The operation is finished.
    Ready(R),
    /// Nothing can be done now: try again after the state has changed.
    Wait,
}

} // verus!
