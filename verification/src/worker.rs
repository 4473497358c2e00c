//! What scheduler workers do: they take requests and deliver items, one step at a time.

use vstd::prelude::*;
use crate::channel::Received;
use crate::integrity::running;
use crate::model::{ReceiverState, State, WorkerState, WorkerStep};
use crate::preserve::lemma_served_known;
use crate::preserve_worker::lemma_worker_step;
use crate::shared::Shared;
use crate::status::{StatusEvent, StatusSink};
use crate::tally::lemma_seq_sum_bounds;
use crate::types::{Attempt, CANCELLED, NO_MORE_WORK, SHUTTING_DOWN};

verus! {

impl<T: Send + 'static, S: StatusSink> Shared<T, S> {
    /// Tells whether everything was stopped.
    pub fn worker_cancelled(&self) -> (cancelled: bool)
        ensures
            cancelled == (self@.lifecycle == CANCELLED),
    {
        self.lifecycle == CANCELLED
    }

    /// Tells whether a graceful shutdown has started, or has ended.
    pub fn worker_shutting_down(&self) -> (shutting_down: bool)
        ensures
            shutting_down == self@.shutting_down(),
    {
        self.lifecycle == SHUTTING_DOWN || self.lifecycle == NO_MORE_WORK
    }

    /// Tells whether no item is on its way to a receiver.
    pub fn shutdown_idle(&self) -> (idle: bool)
        ensures
            idle == self@.shutdown_idle(),
    {
        self.ingress_pending == 0 && self.recovered_pending == 0 && self.active_worker_items == 0
    }

    /// Tells whether the receiver `id` is no longer registered.
    pub(crate) fn is_closing(&self, id: usize) -> (closing: bool)
        requires
            self@.receivers.contains_key(id),
        ensures
            closing == self@.receivers[id].closing,
    {
        proof {
            assert(self.receivers@.contains_key(id));
        }
        self.receivers.get(&id).unwrap().closing
    }

    /// Takes the next item: one that was taken back, or else one that was newly sent.
    pub(crate) fn take_next_item(&mut self) -> (item: Option<T>)
        requires
            old(self).coherent(),
            old(self)@.connected(),
        ensures
            final(self).coherent(),
            item == old(self)@.next_item(),
            final(self)@ == if item is Some {
                old(self)@.item_taken()
            } else {
                old(self)@
            },
            final(self).status == old(self).status,
    {
        match self.recovered.try_recv() {
            Received::Item(item) => {
                self.recovered_pending = self.recovered_pending.wrapping_sub(1);
                self.active_worker_items = self.active_worker_items.wrapping_add(1);
                self.scheduler_stats.recovered_routed =
                self.scheduler_stats.recovered_routed.wrapping_add(1);
                return Some(item);
            },
            Received::Disconnected => return None,
            Received::Empty => {},
        }
        match self.ingress.try_recv() {
            Received::Item(item) => {
                self.ingress_pending = self.ingress_pending.wrapping_sub(1);
                self.active_worker_items = self.active_worker_items.wrapping_add(1);
                self.scheduler_stats.ingress_consumed =
                self.scheduler_stats.ingress_consumed.wrapping_add(1);
                Some(item)
            },
            Received::Disconnected => None,
            Received::Empty => None,
        }
    }

    /// Takes the next item for the receiver `id`, where there is one and the receiver may get it.
    pub(crate) fn try_acquire_item(&mut self, id: usize) -> (item: Option<T>)
        requires
            old(self).coherent(),
            old(self)@.connected(),
            old(self)@.receivers.contains_key(id),
        ensures
            final(self).coherent(),
            item == old(self)@.item_for(id),
            final(self)@ == old(self)@.item_sought(id),
            final(self).status == old(self).status,
    {
        if self.worker_cancelled() {
            return None;
        }
        if self.is_closing(id) {
            return None;
        }
        self.take_next_item()
    }

    /// Takes the next item for the receiver `id`. Returns `None` where none will come for it, and
    /// `Wait` where one may still come.
    pub(crate) fn acquire_item(&mut self, id: usize) -> (outcome: Attempt<Option<T>>)
        requires
            old(self).coherent(),
            old(self)@.connected(),
            old(self)@.receivers.contains_key(id),
        ensures
            final(self).coherent(),
            final(self)@ == old(self)@.item_sought(id),
            match outcome {
                Attempt::Ready(Some(item)) => old(self)@.item_for(id) == Some(item),
                Attempt::Ready(None) => old(self)@.item_for(id) is None
                    && old(self)@.demand_is_void(id),
                Attempt::Wait => old(self)@.item_for(id) is None && !old(self)@.demand_is_void(id),
            },
            final(self).status == old(self).status,
    {
        match self.try_acquire_item(id) {
            Some(item) => return Attempt::Ready(Some(item)),
            None => {},
        }
        if self.worker_cancelled() || self.is_closing(id) {
            return Attempt::Ready(None);
        }
        if self.worker_shutting_down() && self.shutdown_idle() {
            return Attempt::Ready(None);
        }
        Attempt::Wait
    }

    /// Settles the accounts after a burst that delivered `fulfilled` items.
    pub(crate) fn commit_fulfillment(&mut self, fulfilled: usize)
        requires
            old(self).coherent(),
        ensures
            final(self).coherent(),
            final(self)@ == old(self)@.fulfillment_committed(fulfilled),
            final(self).status == old(self).status,
    {
        if fulfilled == 0 {
            return ;
        }
        self.demand_pending = self.demand_pending.wrapping_sub(fulfilled);
        self.active_worker_items = self.active_worker_items.wrapping_sub(fulfilled);
        self.scheduler_stats.demand_fulfilled =
        self.scheduler_stats.demand_fulfilled.wrapping_add(fulfilled as u64);
        self.scheduler_stats.output_routed = self.scheduler_stats.output_routed.wrapping_add(
            fulfilled as u64,
        );
        self.signal_completion_progress();
    }

    /// Waits for work, or completes a shutdown that has nothing to wait for.
    pub(crate) fn wait_for_work(&mut self) -> (step: WorkerStep)
        requires
            old(self).coherent(),
        ensures
            final(self).coherent(),
            (final(self)@, step) == old(self)@.waiting_step(),
            final(self).status == old(self).status,
    {
        let before = self.lifecycle;
        self.try_complete();
        if self.lifecycle != before {
            WorkerStep::Progress
        } else {
            WorkerStep::Wait
        }
    }

    /// Ends the worker `worker`. The last one takes the queues with it.
    pub(crate) fn exit_worker(&mut self, worker: usize)
        requires
            old(self).coherent(),
            old(self)@.connected(),
            worker < old(self)@.workers.len(),
            old(self)@.workers[worker as int] is Idle,
        ensures
            final(self).coherent(),
            final(self)@ == old(self)@.worker_exited(worker as int),
            final(self).status == old(self).status,
    {
        let ghost before = self@;
        self.set_worker(worker, WorkerState::Exited);
        if self.active_workers > 1 {
            self.active_workers = self.active_workers - 1;
            return ;
        }
        self.active_workers = 0;
        self.ingress.drop_receiver();
        self.demand.drop_receiver();
        self.recovered.drop_receiver();
        self.forsake_receivers();
        self.emit(StatusEvent::SchedulerExited);
        proof {
            assert(self@ =~= before.worker_exited(worker as int));
        }
    }

    /// Gives up all that is owed to receivers, and forgets those that nobody holds any more.
    pub(crate) fn forsake_receivers(&mut self)
        requires
            old(self).coherent(),
        ensures
            final(self).coherent(),
            final(self)@ == (State {
                receivers: old(self)@.receivers.map_values(
                    |receiver: ReceiverState<T>| receiver.forsaken(),
                ).restrict(
                    Set::new(
                        |id: usize|
                            old(self)@.receivers.contains_key(id)
                                && old(self)@.receivers[id].forsaken().held(),
                    ),
                ),
                ..old(self)@
            }),
            final(self).status == old(self).status,
    {
        let ids = self.receiver_ids();
        let ghost before = self@;
        let mut i: usize = 0;
        while i < ids.len()
            invariant
                i <= ids.len(),
                ids@.no_duplicates(),
                ids@.to_set() == before.receivers.dom(),
                self.coherent(),
                self.status == old(self).status,
                self@ == (State { receivers: self@.receivers, ..before }),
                forall|id: usize| #[trigger]
                    self@.receivers.contains_key(id) ==> before.receivers.contains_key(id),
                forall|j: int|
                    0 <= j < i ==> (self@.receivers.contains_key(#[trigger] ids@[j])
                        <==> before.receivers[ids@[j]].forsaken().held()),
                forall|j: int|
                    0 <= j < i && self@.receivers.contains_key(#[trigger] ids@[j])
                        ==> self@.receivers[ids@[j]] == before.receivers[ids@[j]].forsaken(),
                forall|j: int|
                    i <= j < ids@.len() ==> self@.receivers.contains_key(#[trigger] ids@[j])
                        && self@.receivers[ids@[j]] == before.receivers[ids@[j]],
            decreases ids.len() - i,
        {
            let id = ids[i];
            proof {
                assert(ids@.to_set().contains(ids@[i as int]));
            }
            let ghost here = self@;
            let mut handle = self.take_receiver(id);
            handle.owed = 0;
            self.put_receiver(id, handle);
            proof {
                assert(forall|other: usize|
                    other != id ==> (#[trigger] self@.receivers.contains_key(other)
                        <==> here.receivers.contains_key(other)));
                assert(forall|other: usize|
                    other != id && here.receivers.contains_key(other)
                        ==> #[trigger] self@.receivers[other] == here.receivers[other]);
            }
            i = i + 1;
        }
        proof {
            let after = before.receivers.map_values(
                |receiver: ReceiverState<T>| receiver.forsaken(),
            ).restrict(
                Set::new(
                    |id: usize|
                        before.receivers.contains_key(id)
                            && before.receivers[id].forsaken().held(),
                ),
            );
            assert forall|id: usize| self@.receivers.contains_key(id) <==> after.contains_key(
                id,
            ) by {
                if before.receivers.contains_key(id) {
                    assert(ids@.to_set().contains(id));
                    let j = choose|j: int| 0 <= j < ids@.len() && ids@[j] == id;
                    assert(ids@[j] == id);
                }
            }
            assert forall|id: usize| self@.receivers.contains_key(id) implies self@.receivers[id]
                == after[id] by {
                assert(ids@.to_set().contains(id));
                let j = choose|j: int| 0 <= j < ids@.len() && ids@[j] == id;
                assert(ids@[j] == id);
            }
            assert(self@.receivers =~= after);
        }
    }

    /// A worker without demand takes the next request. It ends where nothing will be requested
    /// any more.
    pub(crate) fn next_command(&mut self, worker: usize) -> (step: WorkerStep)
        requires
            old(self).wf(),
            worker < old(self)@.workers.len(),
            old(self)@.workers[worker as int] is Idle,
        ensures
            final(self).wf(),
            (final(self)@, step) == old(self)@.worker_step(worker as int),
            final(self).status == old(self).status,
    {
        let ghost before = self@;
        proof {
            lemma_worker_step(before, worker as int);
            lemma_running_connected(before, worker as int);
        }
        if self.worker_cancelled() {
            self.exit_worker(worker);
            return WorkerStep::Exit;
        }
        match self.demand.try_recv() {
            Received::Item(command) => {
                self.set_worker(
                    worker,
                    WorkerState::Serving { receiver: command.receiver, count: command.count },
                );
                WorkerStep::Progress
            },
            Received::Disconnected => {
                self.exit_worker(worker);
                WorkerStep::Exit
            },
            Received::Empty => {
                if !self.terminal_open {
                    self.exit_worker(worker);
                    return WorkerStep::Exit;
                }
                self.wait_for_work()
            },
        }
    }

    /// A worker that owes items to the receiver `id` gives up, takes an item or waits for one.
    pub(crate) fn fulfill_demand(&mut self, worker: usize, id: usize, count: usize) -> (step:
        WorkerStep)
        requires
            old(self).wf(),
            worker < old(self)@.workers.len(),
            old(self)@.workers[worker as int] == (WorkerState::<T>::Serving {
                receiver: id,
                count,
            }),
        ensures
            final(self).wf(),
            (final(self)@, step) == old(self)@.worker_step(worker as int),
            final(self).status == old(self).status,
    {
        let ghost before = self@;
        proof {
            lemma_worker_step(before, worker as int);
            assert(State::worker_ok(before.workers[worker as int]));
            lemma_served_known(before, worker as int, id);
            assert(before.receiver_ok(before.receivers[id]));
        }
        if self.worker_cancelled() || self.is_closing(id) {
            self.abandon_demand(id, count);
            self.set_worker(worker, WorkerState::Idle);
            return WorkerStep::Progress;
        }
        if self.worker_shutting_down() && self.shutdown_idle() {
            self.abandon_demand(id, count);
            self.try_complete();
            self.set_worker(worker, WorkerState::Idle);
            return WorkerStep::Progress;
        }
        match self.acquire_item(id) {
            Attempt::Ready(Some(item)) => {
                self.set_worker(worker, WorkerState::Holding { receiver: id, count, item });
                WorkerStep::Progress
            },
            _ => self.wait_for_work(),
        }
    }

    /// A worker that holds `item` for the receiver `id` starts to send to it. Where the receiver
    /// is no longer registered, the item is taken back and the demand given up.
    pub(crate) fn start_burst(&mut self, worker: usize, id: usize, count: usize, item: T) -> (step:
        WorkerStep)
        requires
            old(self).coherent(),
            worker < old(self)@.workers.len(),
            old(self)@.workers[worker as int] is Idle,
            old(self)@.receivers.contains_key(id),
            0 < count <= old(self)@.receivers[id].owed,
            old(self)@.receivers[id].owed <= old(self)@.receivers[id].outstanding,
        ensures
            final(self).coherent(),
            (final(self)@, step) == old(self)@.holding_step(worker as int, id, count, item),
            final(self).status == old(self).status,
    {
        let ghost before = self@;
        if self.is_closing(id) {
            self.active_worker_items = self.active_worker_items.wrapping_sub(1);
            self.abandon_demand(id, count);
            if !self.worker_cancelled() {
                self.enqueue_recovered(item);
            }
            self.set_worker(worker, WorkerState::Idle);
            return WorkerStep::Progress;
        }
        let mut handle = self.take_receiver(id);
        handle.active_sends = handle.active_sends.wrapping_add(1);
        self.insert_receiver(id, handle);
        self.set_worker(worker, WorkerState::Sending { receiver: id, count, item, fulfilled: 0 });
        proof {
            assert(self@.receivers =~= before.burst_started(id).receivers);
        }
        WorkerStep::Progress
    }

    /// Puts `item` into the data channel of the receiver `id`.
    pub(crate) fn deliver(&mut self, id: usize, item: T)
        requires
            old(self).coherent(),
            old(self)@.receivers.contains_key(id),
            old(self)@.receivers[id].rx_open,
            old(self)@.receivers[id].tx_open,
            old(self)@.receivers[id].owed > 0,
        ensures
            final(self).coherent(),
            final(self)@ == old(self)@.delivered(id, item),
            final(self).status == old(self).status,
    {
        let ghost before = self@;
        self.delivered_inflight = self.delivered_inflight.wrapping_add(1);
        let mut handle = self.take_receiver(id);
        let sent = handle.data.send(item);
        assert(sent is Ok);
        handle.owed = handle.owed - 1;
        self.insert_receiver(id, handle);
        proof {
            let after = before.delivered(id, item);
            assert(self@.receivers[id] =~= after.receivers[id]);
            assert(self@.receivers =~= after.receivers);
        }
    }

    /// Ends a burst that delivered `fulfilled` items to the receiver `id`.
    pub(crate) fn finish_burst(&mut self, id: usize, fulfilled: usize)
        requires
            old(self).coherent(),
            old(self)@.receivers.contains_key(id),
        ensures
            final(self).coherent(),
            final(self)@ == old(self)@.burst_finished(id, fulfilled),
            final(self).status == old(self).status,
    {
        let ghost before = self@;
        let mut handle = self.take_receiver(id);
        handle.active_sends = handle.active_sends.wrapping_sub(1);
        self.put_receiver(id, handle);
        proof {
            let receiver = ReceiverState {
                active_sends: before.receivers[id].active_sends.wrapping_sub(1),
                ..before.receivers[id]
            };
            assert(self@.receivers =~= before.put_receiver(id, receiver).receivers);
            assert(self@ =~= before.put_receiver(id, receiver));
        }
        self.commit_fulfillment(fulfilled);
    }

    /// A worker that is sending to the receiver `id` and has delivered `fulfilled` items in this
    /// burst delivers `item`. It goes on with the next item, where there is one and it owes more;
    /// else the burst ends.
    pub(crate) fn send_fulfillment_burst(
        &mut self,
        worker: usize,
        id: usize,
        count: usize,
        item: T,
        fulfilled: usize,
    ) -> (step: WorkerStep)
        requires
            old(self).coherent(),
            old(self)@.connected(),
            worker < old(self)@.workers.len(),
            old(self)@.workers[worker as int] is Idle,
            old(self)@.receivers.contains_key(id),
            old(self)@.receivers[id].rx_open,
            old(self)@.receivers[id].tx_open,
            0 < count <= old(self)@.receivers[id].owed,
            fulfilled + count <= usize::MAX,
        ensures
            final(self).coherent(),
            (final(self)@, step) == old(self)@.sending_step(
                worker as int,
                id,
                count,
                item,
                fulfilled,
            ),
            final(self).status == old(self).status,
    {
        self.deliver(id, item);
        let remaining = count - 1;
        let fulfilled = fulfilled + 1;
        if remaining > 0 {
            match self.try_acquire_item(id) {
                Some(next) => {
                    self.set_worker(
                        worker,
                        WorkerState::Sending {
                            receiver: id,
                            count: remaining,
                            item: next,
                            fulfilled,
                        },
                    );
                    return WorkerStep::Progress;
                },
                None => {},
            }
        }
        self.finish_burst(id, fulfilled);
        if remaining > 0 {
            self.set_worker(worker, WorkerState::Serving { receiver: id, count: remaining });
        } else {
            self.set_worker(worker, WorkerState::Idle);
        }
        WorkerStep::Progress
    }

    /// Runs one step of the worker `worker`. A worker that is told to wait can do nothing until
    /// the state changes.
    pub fn run_worker(&mut self, worker: usize) -> (step: WorkerStep)
        requires
            old(self).wf(),
            worker < old(self)@.workers.len(),
        ensures
            final(self).wf(),
            (final(self)@, step) == old(self)@.worker_step(worker as int),
            final(self).status == old(self).status,
    {
        let ghost before = self@;
        let ghost w = worker as int;
        let state = self.take_worker(worker);
        let ghost idle = self@;
        proof {
            lemma_worker_step(before, w);
            assert(State::worker_ok(before.workers[w]));
            assert(idle =~= before.with_worker(w, WorkerState::Idle));
            match before.workers[w] {
                WorkerState::Holding { receiver, count, item } => {
                    lemma_served_known(before, w, receiver);
                    assert(before.receiver_ok(before.receivers[receiver]));
                    lemma_holding_ignores(before, w, receiver, count, item);
                },
                WorkerState::Sending { receiver, count, item, fulfilled } => {
                    lemma_served_known(before, w, receiver);
                    assert(before.receiver_ok(before.receivers[receiver]));
                    lemma_sending_ignores(before, w, receiver, count, item, fulfilled);
                },
                _ => {},
            }
        }
        match state {
            WorkerState::Idle => {
                proof {
                    assert(self@ =~= before);
                }
                self.next_command(worker)
            },
            WorkerState::Serving { receiver, count } => {
                self.set_worker(worker, WorkerState::Serving { receiver, count });
                proof {
                    assert(self@.workers =~= before.workers);
                    assert(self@ =~= before);
                }
                self.fulfill_demand(worker, receiver, count)
            },
            WorkerState::Holding { receiver, count, item } => self.start_burst(
                worker,
                receiver,
                count,
                item,
            ),
            WorkerState::Sending {
                receiver,
                count,
                item,
                fulfilled,
            } => self.send_fulfillment_burst(worker, receiver, count, item, fulfilled),
            WorkerState::Exited => {
                self.set_worker(worker, WorkerState::Exited);
                proof {
                    assert(self@.workers =~= before.workers);
                    assert(self@ =~= before);
                }
                WorkerStep::Exit
            },
        }
    }
}

/// A worker that has not ended is one of those that are counted.
proof fn lemma_running_connected<T>(s: State<T>, worker: int)
    requires
        s.inv(),
        0 <= worker < s.workers.len(),
        s.workers[worker] !is Exited,
    ensures
        s.connected(),
{
    lemma_seq_sum_bounds(s.workers, running());
    assert(running::<T>()(s.workers[worker]) == 1);
}

/// A worker that starts a burst does not look at what it was doing.
proof fn lemma_holding_ignores<T>(s: State<T>, worker: int, id: usize, count: usize, item: T)
    requires
        0 <= worker < s.workers.len(),
    ensures
        s.with_worker(worker, WorkerState::Idle).holding_step(worker, id, count, item)
            == s.holding_step(worker, id, count, item),
{
    let idle = s.with_worker(worker, WorkerState::Idle);
    let after = idle.holding_step(worker, id, count, item).0;
    assert(after.workers =~= s.holding_step(worker, id, count, item).0.workers);
    assert(after =~= s.holding_step(worker, id, count, item).0);
}

/// A worker that delivers an item does not look at what it was doing.
proof fn lemma_sending_ignores<T>(
    s: State<T>,
    worker: int,
    id: usize,
    count: usize,
    item: T,
    fulfilled: usize,
)
    requires
        0 <= worker < s.workers.len(),
    ensures
        s.with_worker(worker, WorkerState::Idle).sending_step(worker, id, count, item, fulfilled)
            == s.sending_step(worker, id, count, item, fulfilled),
{
    let idle = s.with_worker(worker, WorkerState::Idle);
    let after = idle.sending_step(worker, id, count, item, fulfilled).0;
    assert(after.workers =~= s.sending_step(worker, id, count, item, fulfilled).0.workers);
    assert(after =~= s.sending_step(worker, id, count, item, fulfilled).0);
}

} // verus!
