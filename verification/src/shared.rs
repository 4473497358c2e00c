//! The state that all handles to a feeder share, and the operations on it.

use vstd::prelude::*;
use vstd::std_specs::hash::spec_keys_iter;
use vstd::std_specs::iter::IteratorSpec;
use std::collections::HashMap;
use crate::channel::{Channel, Received};
use crate::model::{DemandCommand, ReceiverState, State, WorkerState};
use crate::preserve::{
    lemma_cancel, lemma_initial, lemma_receiver_requested, lemma_same_receivers,
    lemma_same_references, lemma_send_finished, lemma_shut_down, lemma_small_steps,
};
use crate::stats::{ConsumerStats, ConsumerStatsSnapshot, FeederStatsSnapshot, SchedulerStats};
use crate::status::{notify, StatusEvent, StatusSink};
use crate::types::{
    send_batch_error_for_state, send_error, send_error_for_state, AccessError, FeederId, ReceiverId,
    SendBatchError, SendError, CANCELLED, NO_MORE_WORK, RUNNING, SHUTTING_DOWN,
};

verus! {

broadcast use vstd::std_specs::hash::group_hash_axioms;

/// One receiver, as the scheduler sees it.
#[verifier::reject_recursive_types(T)]
pub struct ReceiverHandle<T> {
    pub data: Channel<T>,
    pub closing: bool,
    pub draining: bool,
    pub dropped: bool,
    pub active_sends: usize,
    pub outstanding: usize,
    pub owed: usize,
    pub low_water: usize,
    pub high_water: usize,
    pub lagging: bool,
    pub stats: usize,
}

impl<T> View for ReceiverHandle<T> {
    type V = ReceiverState<T>;

    open spec fn view(&self) -> ReceiverState<T> {
        ReceiverState {
            data: self.data@,
            rx_open: self.data.receiver_open(),
            tx_open: self.data.sender_open(),
            closing: self.closing,
            draining: self.draining,
            dropped: self.dropped,
            active_sends: self.active_sends,
            outstanding: self.outstanding,
            owed: self.owed,
            low_water: self.low_water,
            high_water: self.high_water,
            lagging: self.lagging,
            stats: self.stats,
        }
    }
}

impl<T> ReceiverHandle<T> {
    /// Drops the sending end of the data channel once nobody can need it any more.
    pub fn settle(&mut self)
        ensures
            final(self)@ == old(self)@.settled(),
    {
        if self.closing && self.owed == 0 && !self.draining {
            self.data.drop_sender();
        }
    }

    /// Takes at most `max` of the buffered items.
    pub fn take_items(&mut self, max: usize) -> (items: Vec<T>)
        requires
            old(self)@.rx_open,
        ensures
            items@.len() == if old(self)@.data.len() < max {
                old(self)@.data.len()
            } else {
                max as nat
            },
            items@ == old(self)@.data.take(items@.len() as int),
            final(self)@ == (ReceiverState {
                data: old(self)@.data.skip(items@.len() as int),
                ..old(self)@
            }),
    {
        let mut items: Vec<T> = Vec::new();
        let ghost all = self.data@;
        let ghost before = self@;
        let mut more = true;
        proof {
            assert(all.take(0) =~= Seq::<T>::empty());
            assert(all.skip(0) =~= all);
        }
        while items.len() < max && more
            invariant
                all == before.data,
                before.rx_open,
                items@.len() <= max,
                items@.len() <= all.len(),
                items@ == all.take(items@.len() as int),
                self@ == (ReceiverState { data: all.skip(items@.len() as int), ..before }),
                !more ==> items@.len() == all.len(),
            decreases max - items@.len() + (if more { 1int } else { 0int }),
        {
            match self.data.try_recv() {
                Received::Item(item) => {
                    proof {
                        let n = items@.len() as int;
                        assert(all.skip(n)[0] == all[n]);
                        assert(all.take(n).push(all[n]) =~= all.take(n + 1));
                        assert(all.skip(n).drop_first() =~= all.skip(n + 1));
                    }
                    items.push(item);
                },
                Received::Empty => {
                    more = false;
                },
                Received::Disconnected => {
                    more = false;
                },
            }
        }
        items
    }
}

/// The receivers, each as a mathematical value.
pub open spec fn receiver_states<T>(handles: Map<usize, ReceiverHandle<T>>) -> Map<
    usize,
    ReceiverState<T>,
> {
    handles.map_values(|handle: ReceiverHandle<T>| handle@)
}

proof fn lemma_receiver_states<T>(handles: Map<usize, ReceiverHandle<T>>)
    ensures
        receiver_states(handles).dom() == handles.dom(),
        forall|id: usize, handle: ReceiverHandle<T>|
            receiver_states(#[trigger] handles.insert(id, handle)) == receiver_states(
                handles,
            ).insert(id, handle@),
        forall|id: usize|
            receiver_states(#[trigger] handles.remove(id)) == receiver_states(handles).remove(id),
{
    assert forall|id: usize, handle: ReceiverHandle<T>|
        receiver_states(#[trigger] handles.insert(id, handle)) == receiver_states(handles).insert(
            id,
            handle@,
        ) by {
        assert(receiver_states(handles.insert(id, handle)) =~= receiver_states(handles).insert(
            id,
            handle@,
        ));
    }
    assert forall|id: usize|
        receiver_states(#[trigger] handles.remove(id)) == receiver_states(handles).remove(id) by {
        assert(receiver_states(handles.remove(id)) =~= receiver_states(handles).remove(id));
    }
    assert(receiver_states(handles).dom() =~= handles.dom());
}

/// What a worker is doing, without the item that it holds.
#[derive(Debug, Clone, Copy, PartialEq, Eq, Structural)]
pub enum Task {
    Idle,
    Serving { receiver: usize, count: usize },
    Holding { receiver: usize, count: usize },
    Sending { receiver: usize, count: usize, fulfilled: usize },
    Exited,
}

/// One worker. The item that it holds between two steps waits in a channel of its own, so that
/// threads can share the worker whatever the item is.
#[verifier::reject_recursive_types(T)]
pub struct WorkerSlot<T> {
    pub task: Task,
    pub hand: Channel<T>,
}

impl<T> View for WorkerSlot<T> {
    type V = WorkerState<T>;

    open spec fn view(&self) -> WorkerState<T> {
        match self.task {
            Task::Idle => WorkerState::Idle,
            Task::Serving { receiver, count } => WorkerState::Serving { receiver, count },
            Task::Holding { receiver, count } => WorkerState::Holding {
                receiver,
                count,
                item: self.hand@[0],
            },
            Task::Sending { receiver, count, fulfilled } => WorkerState::Sending {
                receiver,
                count,
                item: self.hand@[0],
                fulfilled,
            },
            Task::Exited => WorkerState::Exited,
        }
    }
}

impl<T> WorkerSlot<T> {
    /// The worker holds one item exactly where its task says so.
    pub open spec fn sound(&self) -> bool {
        &&& self.hand.sender_open()
        &&& self.hand.receiver_open()
        &&& self.hand@.len() == if self.task is Holding || self.task is Sending {
            1nat
        } else {
            0nat
        }
    }

    /// A worker that has nothing to do.
    pub fn new() -> (slot: Self)
        ensures
            slot.sound(),
            slot@ is Idle,
    {
        WorkerSlot { task: Task::Idle, hand: Channel::new() }
    }

    /// Takes over what the worker is doing, and leaves it with nothing to do.
    pub fn take(&mut self) -> (state: WorkerState<T>)
        requires
            old(self).sound(),
        ensures
            final(self).sound(),
            final(self)@ is Idle,
            state == old(self)@,
    {
        let task = self.task;
        self.task = Task::Idle;
        match task {
            Task::Idle => WorkerState::Idle,
            Task::Serving { receiver, count } => WorkerState::Serving { receiver, count },
            Task::Holding { receiver, count } => match self.hand.try_recv() {
                Received::Item(item) => WorkerState::Holding { receiver, count, item },
                _ => WorkerState::Idle,
            },
            Task::Sending { receiver, count, fulfilled } => match self.hand.try_recv() {
                Received::Item(item) => WorkerState::Sending { receiver, count, item, fulfilled },
                _ => WorkerState::Idle,
            },
            Task::Exited => WorkerState::Exited,
        }
    }

    /// Gives a worker that holds no item something to do.
    pub fn give(&mut self, state: WorkerState<T>)
        requires
            old(self).sound(),
            old(self)@ !is Holding,
            old(self)@ !is Sending,
        ensures
            final(self).sound(),
            final(self)@ == state,
    {
        match state {
            WorkerState::Idle => {
                self.task = Task::Idle;
            },
            WorkerState::Serving { receiver, count } => {
                self.task = Task::Serving { receiver, count };
            },
            WorkerState::Holding { receiver, count, item } => {
                self.task = Task::Holding { receiver, count };
                let _ = self.hand.send(item);
            },
            WorkerState::Sending { receiver, count, item, fulfilled } => {
                self.task = Task::Sending { receiver, count, fulfilled };
                let _ = self.hand.send(item);
            },
            WorkerState::Exited => {
                self.task = Task::Exited;
            },
        }
    }
}

/// The workers, each as a mathematical value.
pub open spec fn worker_states<T>(slots: Seq<WorkerSlot<T>>) -> Seq<WorkerState<T>> {
    slots.map_values(|slot: WorkerSlot<T>| slot@)
}

/// The state that all handles to a feeder share.
///
/// The handles keep it behind a lock, out of reach, and in order (`wf`) whatever their callers do.
/// Who holds a `Shared` of their own has its fields in hand, to look at and to bring to the limits
/// of the machine, and keeps it in order.
#[verifier::reject_recursive_types(T)]
#[verifier::reject_recursive_types(S)]
pub struct Shared<T: Send + 'static, S: StatusSink> {
    pub next_id: usize,
    pub lifecycle: u8,
    pub accepting_ingress: bool,
    pub ingress: Channel<T>,
    pub demand: Channel<DemandCommand>,
    pub recovered: Channel<T>,
    pub receivers: HashMap<usize, ReceiverHandle<T>>,
    pub workers: Vec<WorkerSlot<T>>,
    pub terminal_open: bool,
    pub ingress_pending: usize,
    pub demand_pending: usize,
    pub recovered_pending: usize,
    pub active_worker_items: usize,
    pub delivered_inflight: usize,
    pub active_producer_sends: usize,
    pub active_workers: usize,
    pub cancelled_emitted: bool,
    pub no_more_work_emitted: bool,
    pub status: S,
    pub scheduler_stats: SchedulerStats,
    pub consumer_stats: Vec<ConsumerStats>,
    pub discarded: Ghost<nat>,
    pub unheard: Ghost<nat>,
    pub events: Ghost<Seq<StatusEvent>>,
}

impl<T: Send + 'static, S: StatusSink> View for Shared<T, S> {
    type V = State<T>;

    open spec fn view(&self) -> State<T> {
        State {
            next_id: self.next_id,
            lifecycle: self.lifecycle,
            accepting_ingress: self.accepting_ingress,
            ingress: self.ingress@,
            demand: self.demand@,
            recovered: self.recovered@,
            receivers: receiver_states(self.receivers@),
            workers: worker_states(self.workers@),
            terminal_open: self.terminal_open,
            ingress_pending: self.ingress_pending,
            demand_pending: self.demand_pending,
            recovered_pending: self.recovered_pending,
            active_worker_items: self.active_worker_items,
            delivered_inflight: self.delivered_inflight,
            active_producer_sends: self.active_producer_sends,
            active_workers: self.active_workers,
            cancelled_emitted: self.cancelled_emitted,
            no_more_work_emitted: self.no_more_work_emitted,
            scheduler_stats: self.scheduler_stats,
            consumer_stats: self.consumer_stats@,
            discarded: self.discarded@,
            unheard: self.unheard@,
            events: self.events@,
        }
    }
}

impl<T: Send + 'static, S: StatusSink> Shared<T, S> {
    /// The queues are there as long as a worker is, the workers hold what they say, and the status
    /// sink was told of every event.
    pub open spec fn coherent(&self) -> bool {
        &&& self.ingress.sender_open()
        &&& self.demand.sender_open()
        &&& self.recovered.sender_open()
        &&& self.ingress.receiver_open() <==> self.active_workers > 0
        &&& self.demand.receiver_open() <==> self.active_workers > 0
        &&& self.recovered.receiver_open() <==> self.active_workers > 0
        &&& forall|i: int|
            0 <= i < self.workers@.len() ==> (#[trigger] self.workers@[i]).sound()
        &&& forall|i: int|
            0 <= i < self.events@.len() ==> self.status.notified(#[trigger] self.events@[i])
    }

    /// The shared state is in order.
    pub open spec fn wf(&self) -> bool {
        self.coherent() && self@.inv()
    }

    /// The state of a new feeder with `worker_count` workers.
    pub fn new(status: S, worker_count: usize) -> (shared: Self)
        requires
            worker_count > 0,
        ensures
            shared.wf(),
            shared@ == State::<T>::initial(worker_count),
            shared.status == status,
    {
        let mut workers: Vec<WorkerSlot<T>> = Vec::new();
        let mut i: usize = 0;
        while i < worker_count
            invariant
                i <= worker_count,
                workers@.len() == i,
                forall|j: int|
                    0 <= j < i ==> (#[trigger] workers@[j]).sound() && workers@[j]@ is Idle,
            decreases worker_count - i,
        {
            workers.push(WorkerSlot::new());
            i = i + 1;
        }
        let mut scheduler_stats: SchedulerStats = SchedulerStats::default();
        scheduler_stats.worker_count = worker_count;
        let shared = Shared {
            next_id: 1,
            lifecycle: RUNNING,
            accepting_ingress: true,
            ingress: Channel::new(),
            demand: Channel::new(),
            recovered: Channel::new(),
            receivers: HashMap::new(),
            workers,
            terminal_open: true,
            ingress_pending: 0,
            demand_pending: 0,
            recovered_pending: 0,
            active_worker_items: 0,
            delivered_inflight: 0,
            active_producer_sends: 0,
            active_workers: worker_count,
            cancelled_emitted: false,
            no_more_work_emitted: false,
            status,
            scheduler_stats,
            consumer_stats: Vec::new(),
            discarded: Ghost(0nat),
            unheard: Ghost(0nat),
            events: Ghost(Seq::empty()),
        };
        proof {
            lemma_initial::<T>(worker_count);
            assert(receiver_states(shared.receivers@) =~= Map::empty());
            assert(shared@.workers =~= State::<T>::initial(worker_count).workers);
            assert(shared@ =~= State::<T>::initial(worker_count));
        }
        shared
    }

    /// Tells the status sink of `event`.
    pub(crate) fn emit(&mut self, event: StatusEvent)
        requires
            old(self).coherent(),
        ensures
            final(self).coherent(),
            final(self)@ == old(self)@.emit(event),
            final(self).status == old(self).status,
    {
        notify(&self.status, event);
        self.events = Ghost(self.events@.push(event));
    }

    /// Takes over what the worker `worker` is doing, and leaves it with nothing to do.
    pub(crate) fn take_worker(&mut self, worker: usize) -> (state: WorkerState<T>)
        requires
            old(self).coherent(),
            worker < old(self)@.workers.len(),
        ensures
            final(self).coherent(),
            state == old(self)@.workers[worker as int],
            final(self)@ == old(self)@.with_worker(worker as int, WorkerState::Idle),
            final(self).status == old(self).status,
    {
        let ghost before = self@;
        let state = self.workers[worker].take();
        proof {
            assert(self@.workers =~= before.workers.update(worker as int, WorkerState::Idle));
        }
        state
    }

    /// Gives the worker `worker`, which holds no item, something to do.
    pub(crate) fn set_worker(&mut self, worker: usize, state: WorkerState<T>)
        requires
            old(self).coherent(),
            worker < old(self)@.workers.len(),
            old(self)@.workers[worker as int] !is Holding,
            old(self)@.workers[worker as int] !is Sending,
        ensures
            final(self).coherent(),
            final(self)@ == old(self)@.with_worker(worker as int, state),
            final(self).status == old(self).status,
    {
        let ghost before = self@;
        self.workers[worker].give(state);
        proof {
            assert(self@.workers =~= before.workers.update(worker as int, state));
        }
    }

    /// Takes the receiver `id` out of the table.
    pub(crate) fn take_receiver(&mut self, id: usize) -> (handle: ReceiverHandle<T>)
        requires
            old(self).coherent(),
            old(self)@.receivers.contains_key(id),
        ensures
            final(self).coherent(),
            handle@ == old(self)@.receivers[id],
            final(self)@ == (State { receivers: old(self)@.receivers.remove(id), ..old(self)@ }),
            final(self).status == old(self).status,
    {
        proof {
            lemma_receiver_states(self.receivers@);
        }
        self.receivers.remove(&id).unwrap()
    }

    /// Puts the receiver `id` into the table.
    pub(crate) fn insert_receiver(&mut self, id: usize, handle: ReceiverHandle<T>)
        requires
            old(self).coherent(),
        ensures
            final(self).coherent(),
            final(self)@ == old(self)@.with_receiver(id, handle@),
            final(self).status == old(self).status,
    {
        proof {
            lemma_receiver_states(self.receivers@);
        }
        self.receivers.insert(id, handle);
    }

    /// Puts the receiver `id` into the table, unless nobody holds it any more.
    pub(crate) fn put_receiver(&mut self, id: usize, handle: ReceiverHandle<T>)
        requires
            old(self).coherent(),
            !old(self)@.receivers.contains_key(id),
        ensures
            final(self).coherent(),
            final(self)@ == old(self)@.put_receiver(id, handle@),
            final(self).status == old(self).status,
    {
        let mut handle = handle;
        handle.settle();
        if handle.data.is_receiver_open() || handle.data.is_sender_open() {
            self.insert_receiver(id, handle);
        } else {
            proof {
                assert(self@.receivers.remove(id) =~= self@.receivers);
            }
        }
    }

    /// Takes all receivers out of the registry: nothing more will be requested for them.
    pub(crate) fn mark_all_receivers_closing(&mut self)
        requires
            old(self).coherent(),
        ensures
            final(self).coherent(),
            final(self)@ == old(self)@.all_closed(),
            final(self).status == old(self).status,
    {
        let ids = self.receiver_ids();
        let ghost before = self@;
        let mut i: usize = 0;
        while i < ids.len()
            invariant
                i <= ids.len(),
                ids@.no_duplicates(),
                ids@.to_set() == before.receivers.dom(),
                self.coherent(),
                self.status == old(self).status,
                self@ == (State { receivers: self@.receivers, ..before }),
                self@.receivers.dom() == before.receivers.dom(),
                forall|j: int|
                    0 <= j < i ==> self@.receivers[#[trigger] ids@[j]]
                        == before.receivers[ids@[j]].closed(),
                forall|j: int|
                    i <= j < ids@.len() ==> self@.receivers[#[trigger] ids@[j]]
                        == before.receivers[ids@[j]],
            decreases ids.len() - i,
        {
            let id = ids[i];
            proof {
                assert(ids@.to_set().contains(ids@[i as int]));
            }
            let ghost here = self@;
            let mut handle = self.take_receiver(id);
            handle.closing = true;
            handle.settle();
            self.insert_receiver(id, handle);
            proof {
                assert(self@.receivers =~= here.receivers.insert(
                    id,
                    before.receivers[id].closed(),
                ));
                assert(self@.receivers.dom() =~= before.receivers.dom());
            }
            i = i + 1;
        }
        proof {
            assert forall|id: usize| before.receivers.contains_key(id) implies self@.receivers[id]
                == before.receivers[id].closed() by {
                assert(ids@.to_set().contains(id));
                let j = choose|j: int| 0 <= j < ids@.len() && ids@[j] == id;
                assert(ids@[j] == id);
            }
            assert(self@.receivers =~= before.all_closed().receivers);
        }
    }

    /// The identifiers of all receivers.
    pub(crate) fn receiver_ids(&self) -> (ids: Vec<usize>)
        ensures
            ids@.no_duplicates(),
            ids@.to_set() == self@.receivers.dom(),
    {
        let mut ids: Vec<usize> = Vec::new();
        proof {
            lemma_receiver_states(self.receivers@);
        }
        for id in iter: self.receivers.keys()
            invariant
                iter.seq() == spec_keys_iter(&self.receivers).remaining(),
                ids@.len() == iter.index(),
                forall|i: int| 0 <= i < ids@.len() ==> ids@[i] == *#[trigger] iter.seq()[i],
        {
            ids.push(*id);
        }
        proof {
            assert(ids@ =~= spec_keys_iter(&self.receivers).remaining().unref());
        }
        ids
    }

    /// Ends a graceful shutdown that has nothing to wait for any more.
    pub(crate) fn try_complete(&mut self)
        requires
            old(self).coherent(),
        ensures
            final(self).coherent(),
            final(self)@ == old(self)@.try_complete(),
            final(self).status == old(self).status,
    {
        if self.lifecycle != SHUTTING_DOWN {
            return ;
        }
        if self.ingress_pending != 0 || self.demand_pending != 0 || self.recovered_pending != 0 {
            return ;
        }
        if self.active_worker_items != 0 || self.delivered_inflight != 0
            || self.active_producer_sends != 0 {
            return ;
        }
        self.lifecycle = NO_MORE_WORK;
        if self.no_more_work_emitted {
            return ;
        }
        self.no_more_work_emitted = true;
        self.mark_all_receivers_closing();
        self.emit(StatusEvent::NoMoreWork);
        self.terminal_open = false;
    }

    /// Ends a graceful shutdown, if there is one, after something was finished.
    pub(crate) fn signal_completion_progress(&mut self)
        requires
            old(self).coherent(),
        ensures
            final(self).coherent(),
            final(self)@ == old(self)@.completion_progress(),
            final(self).status == old(self).status,
    {
        if self.lifecycle != RUNNING {
            self.try_complete();
        }
    }

    /// Requests `count` more items for the receiver `id`. Returns false where no worker is left
    /// that could deliver them: the request is counted, but no command is submitted.
    pub(crate) fn reserve_demand(&mut self, id: usize, count: usize) -> (reserved: bool)
        requires
            old(self).coherent(),
            old(self)@.receivers.contains_key(id),
            old(self)@.receivers[id].outstanding + count <= usize::MAX,
            old(self)@.receivers[id].owed + count <= usize::MAX,
        ensures
            final(self).coherent(),
            final(self)@ == old(self)@.reserve_demand(id, count),
            reserved == (count == 0 || old(self)@.connected()),
            final(self).status == old(self).status,
    {
        if count == 0 {
            return true;
        }
        self.scheduler_stats.demand_requested = self.scheduler_stats.demand_requested.wrapping_add(
            count as u64,
        );
        match self.demand.send(DemandCommand { receiver: id, count }) {
            Ok(()) => {
                let ghost before = self@;
                self.demand_pending = self.demand_pending.wrapping_add(count);
                self.scheduler_stats.demand_commands =
                self.scheduler_stats.demand_commands.wrapping_add(1);
                let mut handle = self.take_receiver(id);
                handle.outstanding = handle.outstanding + count;
                handle.owed = handle.owed + count;
                self.insert_receiver(id, handle);
                proof {
                    assert(self@.receivers =~= before.receivers.insert(id, handle@));
                }
                true
            },
            Err(_) => {
                self.unheard = Ghost(self.unheard@ + count as nat);
                false
            },
        }
    }

    /// Gives up `count` of the items that were requested for the receiver `id`.
    pub(crate) fn abandon_demand(&mut self, id: usize, count: usize)
        requires
            old(self).coherent(),
            old(self)@.receivers.contains_key(id),
            count <= old(self)@.receivers[id].outstanding,
            count <= old(self)@.receivers[id].owed,
        ensures
            final(self).coherent(),
            final(self)@ == old(self)@.abandon_demand(id, count),
            final(self).status == old(self).status,
    {
        if count == 0 {
            return ;
        }
        let ghost before = self@;
        let mut handle = self.take_receiver(id);
        handle.outstanding = handle.outstanding - count;
        handle.owed = handle.owed - count;
        self.demand_pending = self.demand_pending.wrapping_sub(count);
        self.scheduler_stats.demand_abandoned = self.scheduler_stats.demand_abandoned.wrapping_add(
            count as u64,
        );
        self.put_receiver(id, handle);
        proof {
            assert(self@.receivers =~= before.abandon_demand(id, count).receivers);
        }
    }

    /// Takes an item back that was on its way to a receiver.
    pub(crate) fn enqueue_recovered(&mut self, item: T)
        requires
            old(self).coherent(),
        ensures
            final(self).coherent(),
            final(self)@ == old(self)@.enqueue_recovered(item),
            final(self).status == old(self).status,
    {
        if self.lifecycle == CANCELLED || self.lifecycle == NO_MORE_WORK {
            return ;
        }
        match self.recovered.send(item) {
            Ok(()) => {
                self.scheduler_stats.recovered_enqueued =
                self.scheduler_stats.recovered_enqueued.wrapping_add(1);
                self.recovered_pending = self.recovered_pending.wrapping_add(1);
            },
            Err(_) => {},
        }
    }

    /// Stops everything at once. What was accepted and not consumed is lost.
    pub fn cancel_internal(&mut self)
        requires
            old(self).wf(),
        ensures
            final(self).wf(),
            final(self)@ == old(self)@.cancel(),
            final(self).status == old(self).status,
    {
        let ghost before = self@;
        let previous = self.lifecycle;
        self.lifecycle = CANCELLED;
        self.accepting_ingress = false;
        if previous != CANCELLED && previous != NO_MORE_WORK && !self.cancelled_emitted {
            self.cancelled_emitted = true;
            self.emit(StatusEvent::Cancelled);
        }
        self.mark_all_receivers_closing();
        self.terminal_open = false;
        proof {
            lemma_cancel(before);
            assert(self@ =~= before.cancel());
        }
    }

    /// Gives out a fresh identifier for a handle to the feeder.
    pub fn alloc_feeder_id(&mut self) -> (id: FeederId)
        requires
            old(self).wf(),
        ensures
            final(self).wf(),
            final(self)@ == old(self)@.id_taken(),
            id == FeederId(old(self)@.next_id),
            final(self).status == old(self).status,
    {
        proof {
            lemma_small_steps(self@);
        }
        let id = FeederId(self.next_id);
        self.next_id = self.next_id.wrapping_add(1);
        id
    }

    /// Gives out a fresh identifier for a receiver.
    pub(crate) fn alloc_receiver_id(&mut self) -> (id: ReceiverId)
        requires
            old(self).coherent(),
        ensures
            final(self).coherent(),
            final(self)@ == old(self)@.id_taken(),
            id == ReceiverId(old(self)@.next_id),
            final(self).status == old(self).status,
    {
        let id = ReceiverId(self.next_id);
        self.next_id = self.next_id.wrapping_add(1);
        id
    }

    // ---- producers ----

    /// A producer starts to send, where items are accepted.
    pub fn begin_send(&mut self) -> (started: bool)
        requires
            old(self).wf(),
        ensures
            final(self).wf(),
            started == old(self)@.accepting(),
            final(self)@ == old(self)@.send_begun(),
            final(self).status == old(self).status,
    {
        proof {
            lemma_small_steps(self@);
        }
        if self.lifecycle != RUNNING || !self.accepting_ingress {
            return false;
        }
        self.active_producer_sends = self.active_producer_sends.wrapping_add(1);
        true
    }

    /// A producer that has started to send finishes: its item joins the ingress queue. The item is
    /// handed back where no worker is left to take it, or no producer is sending.
    pub fn finish_send(&mut self, item: T) -> (sent: Result<(), T>)
        requires
            old(self).wf(),
        ensures
            final(self).wf(),
            final(self)@ == old(self)@.send_finished(seq![item]),
            sent is Ok <==> old(self)@.send_can_finish(),
            sent is Err ==> sent->Err_0 == item,
            final(self).status == old(self).status,
    {
        let ghost before = self@;
        proof {
            lemma_send_finished(before, seq![item]);
        }
        if self.active_producer_sends == 0 {
            return Err(item);
        }
        let sent = self.ingress.send(item);
        if sent.is_ok() {
            self.scheduler_stats.ingress_accepted =
            self.scheduler_stats.ingress_accepted.wrapping_add(1);
            self.ingress_pending = self.ingress_pending.wrapping_add(1);
        }
        self.active_producer_sends = self.active_producer_sends - 1;
        proof {
            assert(before.ingress + seq![item] =~= before.ingress.push(item));
            assert(self@ =~= before.send_finished(seq![item]));
        }
        sent
    }

    /// A producer that has started to send finishes: its items join the ingress queue in their
    /// order. The items are handed back where no worker is left to take them, or no producer is
    /// sending.
    pub fn finish_send_batch(&mut self, items: Vec<T>) -> (sent: Result<(), Vec<T>>)
        requires
            old(self).wf(),
        ensures
            final(self).wf(),
            final(self)@ == old(self)@.send_finished(items@),
            sent is Ok <==> old(self)@.send_can_finish(),
            sent is Err ==> sent->Err_0@ == items@,
            final(self).status == old(self).status,
    {
        let ghost before = self@;
        let ghost all = items@;
        let count = items.len();
        proof {
            lemma_send_finished(before, all);
        }
        if self.active_producer_sends == 0 {
            return Err(items);
        }
        self.active_producer_sends = self.active_producer_sends - 1;
        if !self.ingress.is_receiver_open() {
            return Err(items);
        }
        self.scheduler_stats.ingress_accepted = self.scheduler_stats.ingress_accepted.wrapping_add(
            count as u64,
        );
        self.ingress_pending = self.ingress_pending.wrapping_add(count);
        let ghost counted = *self;
        for item in iter: items
            invariant
                iter.seq() == all,
                self.coherent(),
                counted.coherent(),
                counted@.ingress == before.ingress,
                self.status == counted.status,
                self.active_workers > 0,
                self@ == (State {
                    ingress: before.ingress + all.take(iter.index()),
                    ..counted@
                }),
        {
            proof {
                assert((before.ingress + all.take(iter.index())).push(item) =~= before.ingress
                    + all.take(iter.index() + 1));
            }
            let _ = self.ingress.send(item);
        }
        proof {
            assert(all.take(all.len() as int) =~= all);
            assert(self@ =~= before.send_finished(all));
        }
        Ok(())
    }

    /// Sends one item, without anyone acting in between. An item that is refused is handed back.
    pub fn send(&mut self, item: T) -> (sent: Result<(), SendError<T>>)
        requires
            old(self).wf(),
        ensures
            final(self).wf(),
            final(self)@ == old(self)@.sent(seq![item]),
            match sent {
                Ok(()) => old(self)@.accepting() && old(self)@.send_begun().send_can_finish(),
                Err(error) => if old(self)@.accepting() {
                    !old(self)@.send_begun().send_can_finish() && error
                        == SendError::SchedulerStopped(item)
                } else {
                    error == send_error(
                        old(self)@.lifecycle,
                        old(self)@.accepting_ingress,
                        item,
                    )
                },
            },
            final(self).status == old(self).status,
    {
        if !self.begin_send() {
            return Err(send_error_for_state(self.lifecycle, self.accepting_ingress, item));
        }
        match self.finish_send(item) {
            Ok(()) => Ok(()),
            Err(unsent) => Err(SendError::SchedulerStopped(unsent)),
        }
    }

    /// Sends the items of a batch, without anyone acting in between. Items that are refused are
    /// handed back. An empty batch is always accepted.
    pub fn send_batch(&mut self, items: Vec<T>) -> (sent: Result<(), SendBatchError<T>>)
        requires
            old(self).wf(),
        ensures
            final(self).wf(),
            final(self)@ == if items@.len() == 0 {
                old(self)@
            } else {
                old(self)@.sent(items@)
            },
            match sent {
                Ok(()) => items@.len() == 0 || (old(self)@.accepting()
                    && old(self)@.send_begun().send_can_finish()),
                Err(error) => {
                    &&& items@.len() > 0
                    &&& error.items() == items@
                    &&& old(self)@.accepting() ==> error is SchedulerStopped
                        && !old(self)@.send_begun().send_can_finish()
                    &&& !old(self)@.accepting() ==> {
                        &&& error is Cancelled <==> old(self)@.lifecycle == CANCELLED
                        &&& error is NoMoreWork <==> old(self)@.lifecycle == NO_MORE_WORK
                        &&& error is IngressSealed <==> old(self)@.lifecycle == SHUTTING_DOWN
                            || old(self)@.lifecycle == RUNNING
                    }
                },
            },
            final(self).status == old(self).status,
    {
        if items.len() == 0 {
            return Ok(());
        }
        if !self.begin_send() {
            return Err(send_batch_error_for_state(self.lifecycle, self.accepting_ingress, items));
        }
        match self.finish_send_batch(items) {
            Ok(()) => Ok(()),
            Err(unsent) => Err(SendBatchError::SchedulerStopped(unsent)),
        }
    }

    // ---- handles ----

    /// Tells whether a handle for sending may be given out now.
    pub fn tx(&self) -> (allowed: Result<(), AccessError>)
        ensures
            self@.refusal() is None ==> allowed is Ok,
            self@.refusal() matches Some(e) ==> allowed is Err && allowed->Err_0 == e,
    {
        match self.lifecycle {
            CANCELLED => Err(AccessError::Cancelled),
            NO_MORE_WORK => Err(AccessError::NoMoreWork),
            RUNNING => Ok(()),
            SHUTTING_DOWN => Ok(()),
            _ => Err(AccessError::SchedulerStopped),
        }
    }

    /// Creates a receiver that keeps between `low` and `high` items requested.
    pub fn rx(&mut self, low: usize, high: usize) -> (created: Result<ReceiverId, AccessError>)
        requires
            old(self).wf(),
            low > 0,
        ensures
            final(self).wf(),
            final(self)@ == old(self)@.receiver_requested(low, high),
            old(self)@.receiver_refusal(low, high) is None ==> created is Ok && created->Ok_0
                == ReceiverId(old(self)@.next_id) && old(self)@.consumer_stats.len() < usize::MAX,
            old(self)@.receiver_refusal(low, high) matches Some(e) ==> created is Err
                && created->Err_0 == e,
            final(self).status == old(self).status,
    {
        let ghost before = self@;
        if low >= high {
            return Err(AccessError::InvalidWaterMarks);
        }
        match self.tx() {
            Ok(()) => {},
            Err(e) => return Err(e),
        }
        if self.receivers.contains_key(&self.next_id) {
            return Err(AccessError::SchedulerStopped);
        }
        let place = self.consumer_stats.len();
        self.consumer_stats.push(ConsumerStats::default());
        let total = self.consumer_stats.len();
        proof {
            assert(total == place + 1);
            lemma_receiver_requested(before, low, high);
        }
        let receiver_id = self.alloc_receiver_id();
        let id = receiver_id.0;
        self.insert_receiver(
            id,
            ReceiverHandle {
                data: Channel::new(),
                closing: false,
                draining: false,
                dropped: false,
                active_sends: 0,
                outstanding: 0,
                owed: 0,
                low_water: low,
                high_water: high,
                lagging: false,
                stats: place,
            },
        );
        proof {
            assert(self@.receivers[id] =~= before.fresh_receiver(low, high));
        }
        if !self.reserve_demand(id, high) {
            return Err(AccessError::SchedulerStopped);
        }
        self.emit(StatusEvent::ReceiverRegistered { receiver_id });
        proof {
            assert(self@ =~= before.registered(low, high));
        }
        Ok(receiver_id)
    }

    /// Seals ingress and starts a graceful shutdown. Returns false where a producer is still
    /// sending: then the shutdown did not start and has to be asked for again.
    pub fn graceful_shutdown(&mut self) -> (finished: bool)
        requires
            old(self).wf(),
        ensures
            final(self).wf(),
            final(self)@ == old(self)@.shut_down(),
            finished == (old(self)@.active_producer_sends == 0),
            final(self).status == old(self).status,
    {
        proof {
            lemma_shut_down(self@);
        }
        self.accepting_ingress = false;
        if self.active_producer_sends != 0 {
            return false;
        }
        if self.lifecycle == RUNNING {
            self.lifecycle = SHUTTING_DOWN;
            self.emit(StatusEvent::GracefulShutdownStarted);
            self.try_complete();
        }
        true
    }

    /// Copies all counters.
    pub fn stats_snapshot(&self) -> (snapshot: FeederStatsSnapshot)
        ensures
            snapshot == self@.stats(),
    {
        FeederStatsSnapshot {
            scheduler: self.scheduler_stats.snapshot_pending(
                self.ingress_pending,
                self.demand_pending,
                self.recovered_pending,
                self.active_worker_items,
                self.delivered_inflight,
            ),
            consumers: ConsumerStatsSnapshot::sum(&self.consumer_stats),
        }
    }

    /// Sets all counters to zero, but for the number of workers.
    pub fn reset_stats(&mut self)
        requires
            old(self).wf(),
        ensures
            final(self).wf(),
            final(self)@ == old(self)@.stats_cleared(),
            final(self).status == old(self).status,
    {
        let ghost before = *self;
        self.scheduler_stats.reset();
        let mut i: usize = 0;
        while i < self.consumer_stats.len()
            invariant
                i <= self.consumer_stats@.len(),
                self.consumer_stats@.len() == before.consumer_stats@.len(),
                forall|j: int|
                    0 <= j < i ==> #[trigger] self.consumer_stats@[j] == ConsumerStats::zero(),
                before.coherent(),
                self.coherent(),
                self.status == before.status,
                self@ == (State {
                    scheduler_stats: before@.scheduler_stats.cleared(),
                    consumer_stats: self.consumer_stats@,
                    ..before@
                }),
            decreases self.consumer_stats@.len() - i,
        {
            self.consumer_stats.set(i, ConsumerStats::default());
            i = i + 1;
        }
        proof {
            assert(self@.consumer_stats =~= before@.stats_cleared().consumer_stats);
            lemma_same_references(before@, self@);
            lemma_same_receivers(before@, self@);
        }
    }
}

/// The mathematical state of a shared state shows all its fields as they are.
pub proof fn law_state_shows_all<T: Send + 'static, S: StatusSink>(shared: Shared<T, S>)
    ensures
        ({
            let s = shared@;
            &&& s.next_id == shared.next_id
            &&& s.lifecycle == shared.lifecycle
            &&& s.accepting_ingress == shared.accepting_ingress
            &&& s.ingress == shared.ingress@
            &&& s.demand == shared.demand@
            &&& s.recovered == shared.recovered@
            &&& s.terminal_open == shared.terminal_open
            &&& s.ingress_pending == shared.ingress_pending
            &&& s.demand_pending == shared.demand_pending
            &&& s.recovered_pending == shared.recovered_pending
            &&& s.active_worker_items == shared.active_worker_items
            &&& s.delivered_inflight == shared.delivered_inflight
            &&& s.active_producer_sends == shared.active_producer_sends
            &&& s.active_workers == shared.active_workers
            &&& s.cancelled_emitted == shared.cancelled_emitted
            &&& s.no_more_work_emitted == shared.no_more_work_emitted
            &&& s.scheduler_stats == shared.scheduler_stats
            &&& s.consumer_stats == shared.consumer_stats@
            &&& s.events == shared.events@
            &&& s.receivers.dom() == shared.receivers@.dom()
            &&& forall|id: usize| #[trigger]
                shared.receivers@.contains_key(id) ==> {
                    let handle = shared.receivers@[id];
                    let r = s.receivers[id];
                    &&& r.data == handle.data@
                    &&& r.rx_open == handle.data.receiver_open()
                    &&& r.tx_open == handle.data.sender_open()
                    &&& r.closing == handle.closing
                    &&& r.draining == handle.draining
                    &&& r.dropped == handle.dropped
                    &&& r.active_sends == handle.active_sends
                    &&& r.outstanding == handle.outstanding
                    &&& r.owed == handle.owed
                    &&& r.low_water == handle.low_water
                    &&& r.high_water == handle.high_water
                    &&& r.lagging == handle.lagging
                    &&& r.stats == handle.stats
                }
            &&& s.workers.len() == shared.workers@.len()
            &&& forall|i: int|
                0 <= i < s.workers.len() ==> match #[trigger] s.workers[i] {
                    WorkerState::Idle => shared.workers@[i].task is Idle,
                    WorkerState::Serving { receiver, count } => shared.workers@[i].task
                        == (Task::Serving { receiver, count }),
                    WorkerState::Holding { receiver, count, item } => shared.workers@[i].task
                        == (Task::Holding { receiver, count }) && item
                        == shared.workers@[i].hand@[0],
                    WorkerState::Sending { receiver, count, item, fulfilled } =>
                        shared.workers@[i].task == (Task::Sending { receiver, count, fulfilled })
                            && item == shared.workers@[i].hand@[0],
                    WorkerState::Exited => shared.workers@[i].task is Exited,
                }
        }),
{
    lemma_receiver_states(shared.receivers@);
}

/// Where a shared state is in order, its status sink was told of every event, its queues can be
/// sent to and, as long as a worker is left, taken from, and a worker has exactly the items in hand
/// that its task says.
pub proof fn law_in_order_means_told<T: Send + 'static, S: StatusSink>(shared: Shared<T, S>)
    requires
        shared.wf(),
    ensures
        shared@.inv(),
        forall|i: int|
            0 <= i < shared@.events.len() ==> shared.status.notified(#[trigger] shared@.events[i]),
        shared.ingress.sender_open() && shared.demand.sender_open()
            && shared.recovered.sender_open(),
        shared.active_workers > 0 <==> shared.ingress.receiver_open(),
        shared.active_workers > 0 <==> shared.demand.receiver_open(),
        shared.active_workers > 0 <==> shared.recovered.receiver_open(),
        forall|i: int|
            0 <= i < shared.workers@.len() ==> (#[trigger] shared.workers@[i]).hand@.len()
                == if shared.workers@[i].task is Holding || shared.workers@[i].task is Sending {
                1int
            } else {
                0
            },
{
}

} // verus!
