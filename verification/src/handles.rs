//! Handles to a feeder, which any number of threads can hold.
//!
//! All handles share one state, behind a lock. Each operation takes the lock, does to the state
//! what `shared`, `consumer` or `worker` say of it, and gives the lock back. Whatever the threads
//! do, the state behind the lock is one that some sequence of operations leads to, so that all that
//! `history_laws` says holds of it, and the status sink was told of every event on the way. Other
//! threads may act before and after: a contract here speaks of some such state, which the operation
//! found, and of the state that it left. Which of all these states the lock holds at a given
//! moment, no contract says.
//!
//! No operation blocks: where others have to act first it says so, and the caller tries again
//! after the state has changed.

use vstd::prelude::*;
use vstd::rwlock::{RwLock, RwLockPredicate, WriteHandle};
use std::marker::PhantomData;
use std::sync::Arc;
use crossbeam_channel::Receiver;
use crate::channel::{ends_meet, status_channel};
use crate::history::{reachable, Action};
use crate::history_laws::{law_reachable_in_order, lemma_initial_reachable, lemma_reachable_after};
use crate::model::{State, WorkerStep};
use crate::nonzero::NonZeroUsize;
use crate::shared::Shared;
use crate::stats::FeederStatsSnapshot;
use crate::status::{ChannelStatus, NoStatus, StatusEvent, StatusSink};
use crate::types::{
    send_batch_error_for_state, send_error, send_error_for_state, AccessError, Attempt, FeederId,
    GetError, ReceiverId, SendBatchError, SendError, TryGet, TryGetOne, CANCELLED, NO_MORE_WORK,
    RUNNING, SHUTTING_DOWN,
};

verus! {

/// The state behind the lock is one that a feeder with this many workers can come into, and it
/// reports to this sink.
pub struct Lawful<S> {
    pub worker_count: usize,
    pub status: S,
}

impl<T: Send + 'static, S: StatusSink> RwLockPredicate<Shared<T, S>> for Lawful<S> {
    open spec fn inv(self, shared: Shared<T, S>) -> bool {
        &&& self.worker_count > 0
        &&& shared.coherent()
        &&& shared.status == self.status
        &&& reachable(self.worker_count, shared@)
    }
}

/// The state that the handles to one feeder share, behind a lock.
#[verifier::reject_recursive_types(T)]
#[verifier::reject_recursive_types(S)]
pub struct Core<T: Send + 'static, S: StatusSink> {
    lock: RwLock<Shared<T, S>, Lawful<S>>,
    worker_count: NonZeroUsize,
}

impl<T: Send + 'static, S: StatusSink> Core<T, S> {
    #[verifier::type_invariant]
    spec fn one_count(self) -> bool {
        self.lock.pred().worker_count == self.worker_count@
    }

    /// The number of workers.
    pub closed spec fn workers(self) -> usize {
        self.worker_count@
    }

    /// Where the feeder reports to.
    pub closed spec fn sink(self) -> S {
        self.lock.pred().status
    }

    /// The feeder can come into this state: some sequence of operations leads to it, and the sink
    /// was told of every event on the way.
    pub open spec fn admits(self, s: State<T>) -> bool {
        &&& reachable(self.workers(), s)
        &&& forall|i: int|
            0 <= i < s.events.len() ==> self.sink().notified(#[trigger] s.events[i])
    }

    /// The feeder can come into the state `s`, and from there, by `action`, into the state that
    /// `action` leads to. The sink was told of the events of `action`, too.
    pub open spec fn performs(self, s: State<T>, action: Action<T>) -> bool {
        &&& self.admits(s)
        &&& s.allows(action)
        &&& self.admits(s.after(action))
    }

    /// The state of a new feeder behind its lock, and the identifier of the first handle to it.
    fn new(status: S, worker_count: NonZeroUsize) -> (built: (Self, FeederId))
        ensures
            built.0.workers() == worker_count@,
            built.0.sink() == status,
            built.1 == FeederId(1),
    {
        let count = worker_count.get();
        let ghost start = State::<T>::initial(count);
        let ghost pred = Lawful { worker_count: count, status };
        let mut shared = Shared::new(status, count);
        let id = shared.alloc_feeder_id();
        proof {
            lemma_initial_reachable::<T>(count);
            lemma_reachable_after(count, start, Action::AllocateId);
        }
        (Core { lock: RwLock::new(shared, Ghost(pred)), worker_count }, id)
    }

    /// Takes the lock.
    fn enter(&self) -> (entered: (Shared<T, S>, WriteHandle<'_, Shared<T, S>, Lawful<S>>))
        ensures
            entered.0.wf(),
            entered.0.status == self.sink(),
            entered.0@.workers.len() == self.workers(),
            self.admits(entered.0@),
            entered.1.rwlock().pred().worker_count == self.workers(),
            entered.1.rwlock().pred().status == self.sink(),
            self.workers() > 0,
    {
        let entered = self.lock.acquire_write();
        proof {
            use_type_invariant(self);
            law_reachable_in_order(self.workers(), entered.0@);
        }
        entered
    }

    /// Gives the lock back, after `action` was done to the state `before`.
    fn leave(
        &self,
        shared: Shared<T, S>,
        lock: WriteHandle<'_, Shared<T, S>, Lawful<S>>,
        Ghost(before): Ghost<State<T>>,
        Ghost(action): Ghost<Action<T>>,
    )
        requires
            shared.coherent(),
            shared.status == self.sink(),
            self.workers() > 0,
            self.admits(before),
            before.allows(action),
            shared@ == before.after(action),
            lock.rwlock().pred().worker_count == self.workers(),
            lock.rwlock().pred().status == self.sink(),
        ensures
            self.performs(before, action),
    {
        proof {
            lemma_reachable_after(self.workers(), before, action);
        }
        lock.release_write(shared);
    }

    fn alloc_feeder_id(&self) -> (id: FeederId)
        ensures
            exists|s: State<T>| #[trigger]
                self.performs(s, Action::AllocateId) && id == FeederId(s.next_id),
    {
        let (mut shared, lock) = self.enter();
        let ghost s = shared@;
        let id = shared.alloc_feeder_id();
        self.leave(shared, lock, Ghost(s), Ghost(Action::AllocateId));
        id
    }
}

/// Builds a feeder.
#[verifier::reject_recursive_types(T)]
pub struct FeederBuilder<T> {
    scheduler_threads: NonZeroUsize,
    _marker: PhantomData<T>,
}

impl<T> FeederBuilder<T> {
    /// The number of workers that the feeder will have.
    pub closed spec fn threads(self) -> usize {
        self.scheduler_threads@
    }
}

impl<T: Send + 'static> FeederBuilder<T> {
    /// Sets the number of workers.
    pub fn scheduler_threads(self, n: NonZeroUsize) -> (builder: Self)
        ensures
            builder.threads() == n@,
    {
        FeederBuilder { scheduler_threads: n, _marker: self._marker }
    }

    /// Builds a feeder that reports to nobody.
    pub fn build(self) -> (feeder: Feeder<T, NoStatus>)
        ensures
            feeder.worker_count() == self.threads(),
            feeder.identifier() == FeederId(1),
            feeder.common().sink() == NoStatus,
    {
        build_feeder(NoStatus, self.scheduler_threads)
    }

    /// Builds a feeder that reports events into a channel, and hands out its receiving end.
    pub fn build_with_status(self) -> (built: (Feeder<T, ChannelStatus>, Receiver<StatusEvent>))
        ensures
            built.0.worker_count() == self.threads(),
            built.0.identifier() == FeederId(1),
            ends_meet(built.0.common().sink().sender(), built.1),
    {
        let (status_tx, status_rx) = status_channel();
        let feeder = build_feeder(ChannelStatus::new(status_tx), self.scheduler_threads);
        (feeder, status_rx)
    }
}

impl<T: Send + 'static> Default for FeederBuilder<T> {
    /// One worker.
    fn default() -> (builder: Self)
        ensures
            builder.threads() == 1,
    {
        FeederBuilder {
            scheduler_threads: NonZeroUsize::new(1).unwrap(),
            _marker: PhantomData,
        }
    }
}

/// Builds a feeder with `scheduler_threads` workers, which reports to `status`.
fn build_feeder<T: Send + 'static, S: StatusSink>(
    status: S,
    scheduler_threads: NonZeroUsize,
) -> (feeder: Feeder<T, S>)
    ensures
        feeder.worker_count() == scheduler_threads@,
        feeder.identifier() == FeederId(1),
        feeder.common().sink() == status,
{
    let (core, id) = Core::new(status, scheduler_threads);
    Feeder { id, core: Arc::new(core) }
}

/// A handle to a feeder.
#[verifier::reject_recursive_types(T)]
#[verifier::reject_recursive_types(S)]
pub struct Feeder<T: Send + 'static, S: StatusSink = NoStatus> {
    id: FeederId,
    core: Arc<Core<T, S>>,
}

/// A handle for sending.
#[verifier::reject_recursive_types(T)]
#[verifier::reject_recursive_types(S)]
pub struct FeederTx<T: Send + 'static, S: StatusSink = NoStatus> {
    core: Arc<Core<T, S>>,
}

/// A receiver.
#[verifier::reject_recursive_types(T)]
#[verifier::reject_recursive_types(S)]
pub struct FeederRx<T: Send + 'static, S: StatusSink = NoStatus> {
    receiver_id: ReceiverId,
    core: Arc<Core<T, S>>,
}

/// One scheduler worker, for the thread that runs it.
#[verifier::reject_recursive_types(T)]
#[verifier::reject_recursive_types(S)]
pub struct Worker<T: Send + 'static, S: StatusSink = NoStatus> {
    index: usize,
    core: Arc<Core<T, S>>,
}

impl<T: Send + 'static> Feeder<T, NoStatus> {
    /// Builds a feeder.
    pub fn builder() -> (builder: FeederBuilder<T>)
        ensures
            builder.threads() == 1,
    {
        FeederBuilder::default()
    }
}

impl<T: Send + 'static, S: StatusSink> Feeder<T, S> {
    /// The identifier of this handle.
    pub closed spec fn identifier(self) -> FeederId {
        self.id
    }

    /// The number of workers.
    pub open spec fn worker_count(self) -> usize {
        self.common().workers()
    }

    /// What this handle shares with others.
    pub closed spec fn common(self) -> Core<T, S> {
        *self.core
    }

    /// The identifier of this handle.
    pub fn id(&self) -> (id: FeederId)
        ensures
            id == self.identifier(),
    {
        self.id
    }

    /// A handle for sending, unless the feeder has stopped.
    pub fn tx(&self) -> (created: Result<FeederTx<T, S>, AccessError>)
        ensures
            created matches Ok(tx) ==> tx.common() == self.common(),
            exists|s: State<T>| #[trigger]
                self.common().admits(s) && match created {
                    Ok(_) => s.refusal() is None,
                    Err(error) => s.refusal() == Some(error),
                },
    {
        let lock = self.core.lock.acquire_read();
        let ghost s = lock.view()@;
        proof {
            use_type_invariant(&*self.core);
            assert(self.common().admits(s));
        }
        let allowed = lock.borrow().tx();
        lock.release_read();
        match allowed {
            Ok(()) => Ok(FeederTx { core: Arc::clone(&self.core) }),
            Err(error) => Err(error),
        }
    }

    /// A receiver that requests `high` items, and what it lacks to `high` whenever fewer than
    /// `low` are left.
    pub fn rx(&self, low: NonZeroUsize, high: NonZeroUsize) -> (created: Result<
        FeederRx<T, S>,
        AccessError,
    >)
        ensures
            low@ >= high@ <==> created is Err && created->Err_0 is InvalidWaterMarks,
            match created {
                Ok(rx) => rx.common() == self.common() && exists|s: State<T>| #[trigger]
                    self.common().performs(s, Action::Register { low: low@, high: high@ })
                        && s.receiver_refusal(low@, high@) is None && rx.identifier()
                        == ReceiverId(s.next_id),
                Err(error) => exists|s: State<T>| #[trigger]
                    self.common().admits(s) && s.receiver_refusal(low@, high@) == Some(error),
            },
    {
        let (mut shared, lock) = self.core.enter();
        let ghost s = shared@;
        let created = shared.rx(low.get(), high.get());
        proof {
            assert(self.common().admits(s));
        }
        match created {
            Ok(receiver_id) => {
                self.core.leave(
                    shared,
                    lock,
                    Ghost(s),
                    Ghost(Action::Register { low: low@, high: high@ }),
                );
                assert(self.common().performs(s, Action::Register { low: low@, high: high@ }));
                Ok(FeederRx { receiver_id, core: Arc::clone(&self.core) })
            },
            Err(error) => {
                lock.release_write(shared);
                Err(error)
            },
        }
    }

    /// The workers, each for a thread of its own. Every worker has to be run until it ends.
    pub fn workers(&self) -> (workers: Vec<Worker<T, S>>)
        ensures
            workers@.len() == self.worker_count(),
            forall|i: int|
                0 <= i < workers@.len() ==> (#[trigger] workers@[i]).number() == i
                    && workers@[i].common() == self.common(),
    {
        let count = self.core.worker_count.get();
        let mut workers: Vec<Worker<T, S>> = Vec::new();
        let mut index: usize = 0;
        while index < count
            invariant
                index <= count,
                count == self.core.workers(),
                workers@.len() == index,
                forall|i: int|
                    0 <= i < workers@.len() ==> (#[trigger] workers@[i]).number() == i
                        && workers@[i].common() == self.common(),
            decreases count - index,
        {
            workers.push(Worker { index, core: Arc::clone(&self.core) });
            index = index + 1;
        }
        workers
    }

    /// Copies all counters.
    pub fn stats_snapshot(&self) -> (snapshot: FeederStatsSnapshot)
        ensures
            exists|s: State<T>| #[trigger] self.common().admits(s) && snapshot == s.stats(),
    {
        let lock = self.core.lock.acquire_read();
        let ghost s = lock.view()@;
        proof {
            use_type_invariant(&*self.core);
            assert(self.common().admits(s));
        }
        let snapshot = lock.borrow().stats_snapshot();
        lock.release_read();
        snapshot
    }

    /// Sets all counters to zero, but for the number of workers, as `Shared::reset_stats` says.
    pub fn reset_stats(&self)
        ensures
            exists|s: State<T>| #[trigger] self.common().performs(s, Action::ResetStats),
    {
        let (mut shared, lock) = self.core.enter();
        let ghost s = shared@;
        shared.reset_stats();
        self.core.leave(shared, lock, Ghost(s), Ghost(Action::ResetStats));
        assert(self.common().performs(s, Action::ResetStats));
    }

    /// Seals ingress and starts a graceful shutdown, as `Shared::graceful_shutdown` says. Returns
    /// false where a producer is still sending: then the shutdown has to be asked for again.
    pub fn graceful_shutdown(&self) -> (finished: bool)
        ensures
            exists|s: State<T>| #[trigger]
                self.common().performs(s, Action::ShutDown) && finished == (s.active_producer_sends
                    == 0),
    {
        let (mut shared, lock) = self.core.enter();
        let ghost s = shared@;
        let finished = shared.graceful_shutdown();
        self.core.leave(shared, lock, Ghost(s), Ghost(Action::ShutDown));
        assert(self.common().performs(s, Action::ShutDown));
        finished
    }

    /// Stops everything at once, as `Shared::cancel_internal` says.
    pub fn cancel(&self)
        ensures
            exists|s: State<T>| #[trigger] self.common().performs(s, Action::Cancel),
    {
        let (mut shared, lock) = self.core.enter();
        let ghost s = shared@;
        shared.cancel_internal();
        self.core.leave(shared, lock, Ghost(s), Ghost(Action::Cancel));
        assert(self.common().performs(s, Action::Cancel));
    }
}

impl<T: Send + 'static, S: StatusSink> Clone for Feeder<T, S> {
    /// Another handle to the same feeder, with an identifier of its own.
    fn clone(&self) -> (other: Self)
        ensures
            other.common() == self.common(),
            exists|s: State<T>| #[trigger]
                self.common().performs(s, Action::AllocateId) && other.identifier() == FeederId(
                    s.next_id,
                ),
    {
        let id = self.core.alloc_feeder_id();
        proof {
            let s = choose|s: State<T>| #[trigger]
                self.core.performs(s, Action::AllocateId) && id == FeederId(s.next_id);
            assert(self.common().performs(s, Action::AllocateId));
        }
        Feeder { id, core: Arc::clone(&self.core) }
    }
}

impl<T: Send + 'static, S: StatusSink> Clone for FeederTx<T, S> {
    /// Another handle for sending to the same feeder.
    fn clone(&self) -> (other: Self)
        ensures
            other == *self,
    {
        FeederTx { core: Arc::clone(&self.core) }
    }
}

impl<T: Send + 'static, S: StatusSink> FeederTx<T, S> {
    /// What this handle shares with others.
    pub closed spec fn common(self) -> Core<T, S> {
        *self.core
    }

    /// Starts to send, or tells the lifecycle and whether items are accepted.
    fn begin(&self) -> (begun: Result<(), (u8, bool)>)
        ensures
            exists|s: State<T>| #[trigger]
                self.common().performs(s, Action::BeginSend) && match begun {
                    Ok(()) => s.accepting(),
                    Err((state, accepting)) => !s.accepting() && state == s.lifecycle && accepting
                        == s.accepting_ingress,
                },
    {
        let (mut shared, lock) = self.core.enter();
        let ghost s = shared@;
        let begun = shared.begin_send();
        let state = shared.lifecycle;
        let accepting = shared.accepting_ingress;
        self.core.leave(shared, lock, Ghost(s), Ghost(Action::BeginSend));
        assert(self.common().performs(s, Action::BeginSend));
        if begun {
            Ok(())
        } else {
            Err((state, accepting))
        }
    }

    /// Sends one item. An item that is refused is handed back.
    pub fn send(&self, item: T) -> (sent: Result<(), SendError<T>>)
        ensures
            exists|s: State<T>| #[trigger]
                self.common().performs(s, Action::BeginSend) && if s.accepting() {
                    exists|t: State<T>| #[trigger]
                        self.common().performs(t, Action::FinishSend { items: seq![item] }) && sent
                            == if t.send_can_finish() {
                            Ok(())
                        } else {
                            Err(SendError::SchedulerStopped(item))
                        }
                } else {
                    sent == Err::<(), _>(send_error(s.lifecycle, s.accepting_ingress, item))
                },
    {
        match self.begin() {
            Ok(()) => {},
            Err((state, accepting)) => {
                return Err(send_error_for_state(state, accepting, item));
            },
        }
        let (mut shared, lock) = self.core.enter();
        let ghost s = shared@;
        let sent = shared.finish_send(item);
        self.core.leave(shared, lock, Ghost(s), Ghost(Action::FinishSend { items: seq![item] }));
        assert(self.common().performs(s, Action::FinishSend { items: seq![item] }));
        match sent {
            Ok(()) => Ok(()),
            Err(unsent) => Err(SendError::SchedulerStopped(unsent)),
        }
    }

    /// Sends the items of a batch, in their order and with none in between. Items that are refused
    /// are handed back.
    pub fn send_batch(&self, items: Vec<T>) -> (sent: Result<(), SendBatchError<T>>)
        ensures
            items@.len() == 0 ==> sent is Ok,
            sent matches Err(error) ==> error.items() == items@,
            items@.len() > 0 ==> exists|s: State<T>| #[trigger]
                self.common().performs(s, Action::BeginSend) && if s.accepting() {
                    exists|t: State<T>| #[trigger]
                        self.common().performs(t, Action::FinishSend { items: items@ })
                            && if t.send_can_finish() {
                            sent is Ok
                        } else {
                            sent is Err && sent->Err_0 is SchedulerStopped
                        }
                } else {
                    &&& sent is Err
                    &&& sent->Err_0 is Cancelled <==> s.lifecycle == CANCELLED
                    &&& sent->Err_0 is NoMoreWork <==> s.lifecycle == NO_MORE_WORK
                    &&& sent->Err_0 is IngressSealed <==> s.lifecycle == SHUTTING_DOWN
                        || s.lifecycle == RUNNING
                },
    {
        if items.len() == 0 {
            return Ok(());
        }
        match self.begin() {
            Ok(()) => {},
            Err((state, accepting)) => {
                return Err(send_batch_error_for_state(state, accepting, items));
            },
        }
        let ghost all = items@;
        let count = items.len();
        let (mut shared, lock) = self.core.enter();
        let ghost s = shared@;
        let sent = shared.finish_send_batch(items);
        proof {
            assert(all.len() == count);
        }
        self.core.leave(shared, lock, Ghost(s), Ghost(Action::FinishSend { items: all }));
        assert(self.common().performs(s, Action::FinishSend { items: all }));
        match sent {
            Ok(()) => Ok(()),
            Err(unsent) => Err(SendBatchError::SchedulerStopped(unsent)),
        }
    }
}

impl<T: Send + 'static, S: StatusSink> FeederRx<T, S> {
    /// The identifier of the receiver.
    pub closed spec fn identifier(self) -> ReceiverId {
        self.receiver_id
    }

    /// What this handle shares with others.
    pub closed spec fn common(self) -> Core<T, S> {
        *self.core
    }

    /// The identifier of the receiver.
    pub fn id(&self) -> (id: ReceiverId)
        ensures
            id == self.identifier(),
    {
        self.receiver_id
    }

    /// Takes at most `max` items, at least one. Where there is none and some may still come, the
    /// caller has to wait.
    pub fn get(&self, max: NonZeroUsize) -> (outcome: Attempt<Result<Vec<T>, GetError>>)
        ensures
            exists|s: State<T>| #[trigger]
                self.common().performs(
                    s,
                    Action::Consume { id: self.identifier().0, max: max@ },
                ) && s.gives(self.identifier().0, max@, outcome),
    {
        let (mut shared, lock) = self.core.enter();
        let ghost s = shared@;
        let id = self.receiver_id.0;
        let outcome = shared.get(id, max.get());
        self.core.leave(shared, lock, Ghost(s), Ghost(Action::Consume { id, max: max@ }));
        assert(self.common().performs(s, Action::Consume { id, max: max@ }));
        outcome
    }

    /// Takes one item. Where there is none and some may still come, the caller has to wait.
    pub fn get_one(&self) -> (outcome: Attempt<Result<T, GetError>>)
        ensures
            exists|s: State<T>| #[trigger]
                self.common().performs(
                    s,
                    Action::Consume { id: self.identifier().0, max: 1 },
                ) && s.gives_one(self.identifier().0, outcome),
    {
        let (mut shared, lock) = self.core.enter();
        let ghost s = shared@;
        let id = self.receiver_id.0;
        let outcome = shared.get_one(id);
        self.core.leave(shared, lock, Ghost(s), Ghost(Action::Consume { id, max: 1 }));
        assert(self.common().performs(s, Action::Consume { id, max: 1 }));
        outcome
    }

    /// Takes at most `max` items, where there are some.
    pub fn try_get(&self, max: NonZeroUsize) -> (outcome: TryGet<T>)
        ensures
            exists|s: State<T>| #[trigger]
                self.common().performs(
                    s,
                    Action::Consume { id: self.identifier().0, max: max@ },
                ) && s.offers(self.identifier().0, max@, outcome),
    {
        let (mut shared, lock) = self.core.enter();
        let ghost s = shared@;
        let id = self.receiver_id.0;
        let outcome = shared.try_get(id, max.get());
        self.core.leave(shared, lock, Ghost(s), Ghost(Action::Consume { id, max: max@ }));
        assert(self.common().performs(s, Action::Consume { id, max: max@ }));
        outcome
    }

    /// Takes one item, where there is one.
    pub fn try_get_one(&self) -> (outcome: TryGetOne<T>)
        ensures
            exists|s: State<T>| #[trigger]
                self.common().performs(
                    s,
                    Action::Consume { id: self.identifier().0, max: 1 },
                ) && s.offers_one(self.identifier().0, outcome),
    {
        let (mut shared, lock) = self.core.enter();
        let ghost s = shared@;
        let id = self.receiver_id.0;
        let outcome = shared.try_get_one(id);
        self.core.leave(shared, lock, Ghost(s), Ghost(Action::Consume { id, max: 1 }));
        assert(self.common().performs(s, Action::Consume { id, max: 1 }));
        outcome
    }

    /// Gives the receiver up: what it buffered is taken back, to be delivered to others. Where a
    /// worker is just sending to the receiver, `finish_cancel` has to be called until it is done.
    /// Who tries `get` after that is told that nothing more comes.
    pub fn cancel(&self) -> (outcome: Attempt<()>)
        ensures
            exists|s: State<T>| #[trigger]
                self.common().performs(s, Action::BeginDrop { id: self.identifier().0 })
                    && if s.drop_begins(self.identifier().0) {
                    exists|t: State<T>| #[trigger]
                        self.common().performs(t, Action::FinishDrop { id: self.identifier().0 })
                            && (outcome is Wait <==> t.drop_held_up(self.identifier().0))
                } else {
                    outcome is Ready
                },
    {
        let (mut shared, lock) = self.core.enter();
        let ghost s = shared@;
        let id = self.receiver_id.0;
        let begun = shared.begin_drop(id);
        self.core.leave(shared, lock, Ghost(s), Ghost(Action::BeginDrop { id }));
        assert(self.common().performs(s, Action::BeginDrop { id: self.identifier().0 }));
        if begun {
            self.finish_cancel()
        } else {
            Attempt::Ready(())
        }
    }

    /// Takes back what the receiver buffered, where it was given up and no worker is sending to it
    /// any more.
    pub fn finish_cancel(&self) -> (outcome: Attempt<()>)
        ensures
            exists|s: State<T>| #[trigger]
                self.common().performs(s, Action::FinishDrop { id: self.identifier().0 }) && (
                outcome is Wait <==> s.drop_held_up(self.identifier().0)),
    {
        let (mut shared, lock) = self.core.enter();
        let ghost s = shared@;
        let id = self.receiver_id.0;
        let finished = shared.finish_drop(id);
        let wait = !finished && shared.drop_pending(id);
        self.core.leave(shared, lock, Ghost(s), Ghost(Action::FinishDrop { id }));
        assert(self.common().performs(s, Action::FinishDrop { id: self.identifier().0 }));
        if wait {
            Attempt::Wait
        } else {
            Attempt::Ready(())
        }
    }

    /// Drops the last end of a receiver that was given up after nothing could come any more, as
    /// `Shared::release` says. What the receiver had buffered goes with it. Its owner calls this
    /// last. Returns whether there was such an end.
    pub fn release(&self) -> (released: bool)
        ensures
            exists|s: State<T>| #[trigger]
                self.common().performs(s, Action::Release { id: self.identifier().0 })
                    && released == s.releasable(self.identifier().0),
    {
        let (mut shared, lock) = self.core.enter();
        let ghost s = shared@;
        let id = self.receiver_id.0;
        let released = shared.release(id);
        self.core.leave(shared, lock, Ghost(s), Ghost(Action::Release { id }));
        assert(self.common().performs(s, Action::Release { id: self.identifier().0 }));
        released
    }
}

impl<T: Send + 'static, S: StatusSink> Worker<T, S> {
    #[verifier::type_invariant]
    spec fn numbered(self) -> bool {
        self.index < self.core.workers()
    }

    /// The place of the worker among all.
    pub closed spec fn number(self) -> usize {
        self.index
    }

    /// What this handle shares with others.
    pub closed spec fn common(self) -> Core<T, S> {
        *self.core
    }

    /// Runs one step. Returns `Exit` once the worker has ended, and `Wait` where it can do nothing
    /// until the state changes.
    #[verifier::rlimit(40)]
    pub fn run(&self) -> (step: WorkerStep)
        ensures
            exists|s: State<T>| #[trigger]
                self.common().performs(s, Action::Work { worker: self.number() as int }) && step
                    == s.worker_step(self.number() as int).1,
    {
        proof {
            use_type_invariant(self);
        }
        let (mut shared, lock) = self.core.enter();
        let ghost s = shared@;
        let step = shared.run_worker(self.index);
        self.core.leave(shared, lock, Ghost(s), Ghost(Action::Work { worker: self.index as int }));
        assert(self.common().performs(s, Action::Work { worker: self.number() as int }));
        step
    }
}

/// What a feeder performs leads from a state that a sequence of operations leads to, by one more
/// operation. Its sink was told of every event, those of the operation included.
pub proof fn law_performed_is_told<T: Send + 'static, S: StatusSink>(
    core: Core<T, S>,
    s: State<T>,
    action: Action<T>,
)
    requires
        core.performs(s, action),
    ensures
        s.allows(action),
        reachable(core.workers(), s),
        reachable(core.workers(), s.after(action)),
        forall|i: int| 0 <= i < s.events.len() ==> core.sink().notified(#[trigger] s.events[i]),
        forall|i: int|
            0 <= i < s.after(action).events.len() ==> core.sink().notified(
                #[trigger] s.after(action).events[i],
            ),
{
}

} // verus!
