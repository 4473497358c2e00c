//! Where items are, and that no operation loses or repeats one.

use vstd::prelude::*;
use crate::history::Action;
use crate::model::{ReceiverState, State, WorkerState};
use crate::preserve::{lemma_all_recovered, lemma_released, lemma_served_known};
use crate::status::StatusEvent;
use crate::tally::{
    lemma_map_sum_insert, lemma_map_sum_remove, lemma_map_sum_restrict, lemma_map_sum_same,
    lemma_seq_sum_bounds, lemma_seq_sum_concat, lemma_seq_sum_drop_first, lemma_seq_sum_push,
    lemma_seq_sum_update, map_sum, occurrences, one_for, seq_sum,
};
use crate::types::{CANCELLED, SHUTTING_DOWN};

verus! {

/// One for a worker that holds `x`.
pub open spec fn holds<T>(x: T) -> spec_fn(WorkerState<T>) -> int {
    |worker: WorkerState<T>|
        match worker {
            WorkerState::Holding { receiver, count, item } => if item == x {
                1int
            } else {
                0int
            },
            WorkerState::Sending { receiver, count, item, fulfilled } => if item == x {
                1int
            } else {
                0int
            },
            _ => 0int,
        }
}

/// How often a receiver has buffered `x`.
pub open spec fn buffers<T>(x: T) -> spec_fn(ReceiverState<T>) -> int {
    |receiver: ReceiverState<T>| occurrences(receiver.data, x)
}

impl<T> State<T> {
    /// How often the feeder holds `x`.
    pub open spec fn copies(self, x: T) -> int {
        occurrences(self.ingress, x) + occurrences(self.recovered, x) + seq_sum(
            self.workers,
            holds(x),
        ) + map_sum(self.receivers, buffers(x))
    }

    /// Both states hold the same items in the same places.
    pub open spec fn same_items(self, other: State<T>) -> bool {
        &&& self.ingress == other.ingress
        &&& self.recovered == other.recovered
        &&& self.workers == other.workers
        &&& self.receivers.dom() == other.receivers.dom()
        &&& forall|id: usize| #[trigger]
            self.receivers.contains_key(id) ==> self.receivers[id].data
                == other.receivers[id].data
    }
}

proof fn lemma_same_items<T>(s: State<T>, t: State<T>, x: T)
    requires
        s.receivers.dom().finite(),
        s.same_items(t),
    ensures
        s.copies(x) == t.copies(x),
{
    lemma_map_sum_same(s.receivers, t.receivers, buffers(x));
}

proof fn lemma_try_complete_items<T>(s: State<T>)
    ensures
        s.same_items(s.try_complete()),
        s.same_items(s.completion_progress()),
        s.same_items(s.all_closed()),
{
    assert(s.all_closed().receivers.dom() =~= s.receivers.dom());
    assert(s.try_complete().receivers.dom() =~= s.receivers.dom());
}

proof fn lemma_occurrences_bounds<T>(s: Seq<T>, x: T)
    ensures
        0 <= occurrences(s, x),
{
    lemma_seq_sum_bounds(s, one_for(x));
}

/// A new value of one receiver, which has buffered the same, or nothing and is forgotten.
proof fn lemma_put_receiver_items<T>(s: State<T>, id: usize, receiver: ReceiverState<T>, x: T)
    requires
        s.receivers.dom().finite(),
        s.receivers.contains_key(id),
        !receiver.settled().held() ==> receiver.data.len() == 0,
    ensures
        s.put_receiver(id, receiver).copies(x) == s.copies(x) - occurrences(
            s.receivers[id].data,
            x,
        ) + occurrences(receiver.data, x),
        s.put_receiver(id, receiver).receivers.dom().finite(),
{
    lemma_map_sum_insert(s.receivers, id, receiver.settled(), buffers(x));
    lemma_map_sum_remove(s.receivers, id, buffers(x));
}

proof fn lemma_with_receiver_items<T>(s: State<T>, id: usize, receiver: ReceiverState<T>, x: T)
    requires
        s.receivers.dom().finite(),
        s.receivers.contains_key(id),
    ensures
        s.with_receiver(id, receiver).copies(x) == s.copies(x) - occurrences(
            s.receivers[id].data,
            x,
        ) + occurrences(receiver.data, x),
        s.with_receiver(id, receiver).receivers.dom().finite(),
{
    lemma_map_sum_insert(s.receivers, id, receiver, buffers(x));
}

proof fn lemma_consumed_items<T>(s: State<T>, id: usize, max: usize, x: T)
    requires
        s.inv(),
    ensures
        s.consumed(id, max).copies(x) == s.copies(x) - occurrences(s.taken(id, max), x),
{
    let got = s.available(id, max);
    if got == 0 {
        assert(s.taken(id, max).len() == 0);
    } else {
        let before = s.receivers[id];
        let shorter = s.with_receiver(id, ReceiverState { data: before.data.skip(got), ..before });
        assert(before.data.take(got) + before.data.skip(got) =~= before.data);
        lemma_seq_sum_concat(before.data.take(got), before.data.skip(got), one_for(x));
        lemma_with_receiver_items(
            s,
            id,
            ReceiverState { data: before.data.skip(got), ..before },
            x,
        );
        let counted = shorter.consumption_counted(id, got as usize);
        let refilled = counted.refilled(id);
        let reported = refilled.lag_updated(id, max, got as usize);
        assert(shorter.receivers.dom() =~= counted.receivers.dom());
        assert(counted.receivers.dom() =~= refilled.receivers.dom());
        assert(refilled.receivers.dom() =~= reported.receivers.dom());
        assert(shorter.same_items(reported));
        lemma_try_complete_items(reported);
        assert(shorter.same_items(s.consumed(id, max)));
        lemma_same_items(shorter, s.consumed(id, max), x);
    }
}

proof fn lemma_drop_finished_items<T>(s: State<T>, id: usize, x: T)
    requires
        s.inv(),
        s.drop_can_finish(id),
    ensures
        s.drop_finished(id).copies(x) <= s.copies(x),
        s.terminal_open ==> s.drop_finished(id).copies(x) == s.copies(x),
{
    let before = s.receivers[id];
    assert(s.receiver_ok(before));
    let items = before.data;
    let emptied = State {
        delivered_inflight: s.delivered_inflight.wrapping_sub(items.len() as usize),
        ..s
    };
    lemma_all_recovered(emptied, items);
    lemma_seq_sum_concat(s.recovered, items, one_for(x));
    lemma_occurrences_bounds(items, x);
    let recovered = emptied.all_recovered(items);
    let gone = ReceiverState {
        data: Seq::<T>::empty(),
        rx_open: false,
        draining: false,
        outstanding: (before.outstanding - items.len()) as usize,
        ..before
    };
    lemma_put_receiver_items(recovered, id, gone, x);
    let put = recovered.put_receiver(id, gone);
    let done = s.drop_finished(id);
    assert(recovered.receivers == s.receivers);
    lemma_try_complete_items(
        State { scheduler_stats: done.scheduler_stats, events: done.events, ..put },
    );
    assert(put.receivers.dom() == done.receivers.dom());
    assert(put.same_items(done));
    lemma_same_items(put, done, x);
}

proof fn lemma_worker_items<T>(s: State<T>, worker: int, next: WorkerState<T>, x: T)
    requires
        0 <= worker < s.workers.len(),
    ensures
        s.with_worker(worker, next).copies(x) == s.copies(x) - holds(x)(s.workers[worker])
            + holds(x)(next),
{
    lemma_seq_sum_update(s.workers, worker, next, holds(x));
}

proof fn lemma_item_taken_items<T>(s: State<T>, x: T)
    requires
        s.next_item() is Some,
    ensures
        s.item_taken().copies(x) == s.copies(x) - one_for(x)(s.next_item()->Some_0),
        s.item_taken().receivers == s.receivers,
        s.item_taken().workers == s.workers,
{
    if s.recovered.len() > 0 {
        lemma_seq_sum_drop_first(s.recovered, one_for(x));
    } else {
        lemma_seq_sum_drop_first(s.ingress, one_for(x));
    }
}

proof fn lemma_exit_items<T>(s: State<T>, worker: int, x: T)
    requires
        s.inv(),
        0 <= worker < s.workers.len(),
        s.workers[worker] is Idle,
    ensures
        s.worker_exited(worker).copies(x) <= s.copies(x),
{
    let t = s.worker_exited(worker);
    lemma_worker_items(s, worker, WorkerState::Exited, x);
    lemma_occurrences_bounds(s.ingress, x);
    lemma_occurrences_bounds(s.recovered, x);
    if s.active_workers == 1 {
        assert forall|id: usize|
            s.receivers.contains_key(id) && !t.receivers.contains_key(id) implies buffers(x)(
            #[trigger] s.receivers[id],
        ) == 0 by {
            assert(s.receiver_ok(s.receivers[id]));
            assert(s.receivers[id].data.len() == 0);
        }
        assert(t.receivers.dom().subset_of(s.receivers.dom()));
        lemma_map_sum_restrict(s.receivers, t.receivers, buffers(x));
    }
}

proof fn lemma_abandon_items<T>(s: State<T>, id: usize, count: usize, x: T)
    requires
        s.inv(),
        s.receivers.contains_key(id),
    ensures
        s.abandon_demand(id, count).copies(x) == s.copies(x),
        s.abandon_demand(id, count).workers == s.workers,
        s.abandon_demand(id, count).ingress == s.ingress,
        s.abandon_demand(id, count).recovered == s.recovered,
        s.abandon_demand(id, count).receivers.dom().finite(),
{
    let receiver = s.receivers[id];
    assert(s.receiver_ok(receiver));
    lemma_put_receiver_items(
        s,
        id,
        ReceiverState {
            outstanding: (receiver.outstanding - count) as usize,
            owed: (receiver.owed - count) as usize,
            ..receiver
        },
        x,
    );
}

proof fn lemma_serving_items<T>(s: State<T>, worker: int, id: usize, count: usize, x: T)
    requires
        s.inv(),
        0 <= worker < s.workers.len(),
        s.workers[worker] == (WorkerState::<T>::Serving { receiver: id, count }),
    ensures
        s.worker_step(worker).0.copies(x) == s.copies(x),
{
    assert(State::worker_ok(s.workers[worker]));
    lemma_served_known(s, worker, id);
    if s.demand_is_void(id) {
        lemma_abandon_items(s, id, count, x);
        let abandoned = s.abandon_demand(id, count);
        lemma_try_complete_items(abandoned);
        lemma_same_items(abandoned, abandoned.try_complete(), x);
        lemma_worker_items(s.demand_voided(id, count), worker, WorkerState::Idle, x);
    } else if s.next_item() is Some {
        lemma_item_taken_items(s, x);
        lemma_worker_items(
            s.item_taken(),
            worker,
            WorkerState::Holding { receiver: id, count, item: s.next_item()->Some_0 },
            x,
        );
    } else {
        lemma_try_complete_items(s);
        lemma_same_items(s, s.try_complete(), x);
    }
}

proof fn lemma_holding_items<T>(
    s: State<T>,
    worker: int,
    id: usize,
    count: usize,
    item: T,
    x: T,
)
    requires
        s.inv(),
        0 <= worker < s.workers.len(),
        s.workers[worker] == (WorkerState::<T>::Holding { receiver: id, count, item }),
    ensures
        s.worker_step(worker).0.copies(x) <= s.copies(x),
        s.terminal_open ==> s.worker_step(worker).0.copies(x) == s.copies(x),
{
    assert(State::worker_ok(s.workers[worker]));
    lemma_served_known(s, worker, id);
    let receiver = s.receivers[id];
    if receiver.closing {
        lemma_abandon_items(s, id, count, x);
        let freed = State { active_worker_items: s.active_worker_items.wrapping_sub(1), ..s };
        let abandoned = freed.abandon_demand(id, count);
        assert(abandoned.same_items(s.abandon_demand(id, count)));
        lemma_same_items(s.abandon_demand(id, count), abandoned, x);
        lemma_seq_sum_push(s.recovered, item, one_for(x));
        let refused = s.burst_refused(id, count, item);
        lemma_worker_items(refused, worker, WorkerState::Idle, x);
    } else {
        let more = ReceiverState {
            active_sends: receiver.active_sends.wrapping_add(1),
            ..receiver
        };
        lemma_with_receiver_items(s, id, more, x);
        lemma_worker_items(
            s.burst_started(id),
            worker,
            WorkerState::Sending { receiver: id, count, item, fulfilled: 0 },
            x,
        );
    }
}

proof fn lemma_sending_items<T>(
    s: State<T>,
    worker: int,
    id: usize,
    count: usize,
    item: T,
    fulfilled: usize,
    x: T,
)
    requires
        s.inv(),
        0 <= worker < s.workers.len(),
        s.workers[worker] == (WorkerState::<T>::Sending { receiver: id, count, item, fulfilled }),
    ensures
        s.worker_step(worker).0.copies(x) == s.copies(x),
{
    assert(State::worker_ok(s.workers[worker]));
    lemma_served_known(s, worker, id);
    let receiver = s.receivers[id];
    let longer = ReceiverState {
        data: receiver.data.push(item),
        owed: (receiver.owed - 1) as usize,
        ..receiver
    };
    lemma_with_receiver_items(s, id, longer, x);
    lemma_seq_sum_push(receiver.data, item, one_for(x));
    let after = s.delivered(id, item);
    let counted = s.with_receiver(id, longer);
    assert(counted.same_items(after));
    lemma_same_items(counted, after, x);
    let left = (count - 1) as usize;
    let done = (fulfilled + 1) as usize;
    if left > 0 && after.item_for(id) is Some {
        lemma_item_taken_items(after, x);
        lemma_worker_items(
            after.item_taken(),
            worker,
            WorkerState::Sending {
                receiver: id,
                count: left,
                item: after.item_for(id)->Some_0,
                fulfilled: done,
            },
            x,
        );
    } else {
        let less = ReceiverState {
            active_sends: after.receivers[id].active_sends.wrapping_sub(1),
            ..after.receivers[id]
        };
        lemma_put_receiver_items(after, id, less, x);
        let put = after.put_receiver(id, less);
        let finished = after.burst_finished(id, done);
        lemma_try_complete_items(
            State {
                demand_pending: put.demand_pending.wrapping_sub(done),
                active_worker_items: put.active_worker_items.wrapping_sub(done),
                scheduler_stats: finished.scheduler_stats,
                ..put
            },
        );
        assert(put.same_items(finished));
        lemma_same_items(put, finished, x);
        lemma_worker_items(finished, worker, State::serving(id, left), x);
    }
}

proof fn lemma_step_items<T>(s: State<T>, worker: int, x: T)
    requires
        s.inv(),
        0 <= worker < s.workers.len(),
    ensures
        s.worker_step(worker).0.copies(x) <= s.copies(x),
        s.terminal_open ==> s.worker_step(worker).0.copies(x) == s.copies(x),
{
    match s.workers[worker] {
        WorkerState::Idle => {
            if s.lifecycle == CANCELLED {
                lemma_exit_items(s, worker, x);
            } else if s.demand.len() > 0 {
                let command = s.demand[0];
                lemma_worker_items(
                    s,
                    worker,
                    WorkerState::Serving { receiver: command.receiver, count: command.count },
                    x,
                );
            } else if !s.terminal_open {
                lemma_exit_items(s, worker, x);
            } else {
                lemma_try_complete_items(s);
                lemma_same_items(s, s.try_complete(), x);
            }
        },
        WorkerState::Serving { receiver, count } => {
            lemma_serving_items(s, worker, receiver, count, x);
        },
        WorkerState::Holding { receiver, count, item } => {
            lemma_holding_items(s, worker, receiver, count, item, x);
        },
        WorkerState::Sending { receiver, count, item, fulfilled } => {
            lemma_sending_items(s, worker, receiver, count, item, fulfilled, x);
        },
        WorkerState::Exited => {},
    }
}

/// No operation loses or repeats an item while the feeder is in service: what the feeder holds
/// afterwards is what it held before and what came in, without what was handed out. Once the
/// feeder has stopped, items may be discarded, but none is invented.
pub proof fn law_items_conserved<T>(s: State<T>, action: Action<T>, x: T)
    requires
        s.inv(),
        s.allows(action),
    ensures
        s.after(action).copies(x) <= s.copies(x) + occurrences(s.accepted_by(action), x)
            - occurrences(s.consumed_by(action), x),
        s.terminal_open ==> s.after(action).copies(x) == s.copies(x) + occurrences(
            s.accepted_by(action),
            x,
        ) - occurrences(s.consumed_by(action), x),
{
    let t = s.after(action);
    match action {
        Action::FinishSend { items } => {
            lemma_seq_sum_concat(s.ingress, items, one_for(x));
        },
        Action::Register { low, high } => {
            if s.receiver_refusal(low, high) is None {
                lemma_map_sum_insert(
                    s.receivers,
                    s.next_id,
                    t.receivers[s.next_id],
                    buffers(x),
                );
                assert(t.receivers =~= s.receivers.insert(
                    s.next_id,
                    t.receivers[s.next_id],
                ));
            }
        },
        Action::ShutDown => {
            let told = State { lifecycle: SHUTTING_DOWN, ..s.sealed() }.emit(
                StatusEvent::GracefulShutdownStarted,
            );
            lemma_try_complete_items(told);
            assert(s.same_items(t));
            lemma_same_items(s, t, x);
        },
        Action::Cancel => {
            lemma_try_complete_items(s);
            assert(s.same_items(t));
            lemma_same_items(s, t, x);
        },
        Action::Consume { id, max } => {
            lemma_consumed_items(s, id, max, x);
        },
        Action::BeginDrop { id } => {
            assert(s.receivers.dom() =~= t.receivers.dom());
            lemma_same_items(s, t, x);
        },
        Action::FinishDrop { id } => {
            if s.drop_can_finish(id) {
                lemma_drop_finished_items(s, id, x);
            }
        },
        Action::Release { id } => {
            if s.releasable(id) {
                lemma_released(s, id);
                lemma_map_sum_remove(s.receivers, id, buffers(x));
                lemma_occurrences_bounds(s.receivers[id].data, x);
            }
        },
        Action::Work { worker } => {
            lemma_step_items(s, worker, x);
        },
        _ => {
            lemma_same_items(s, t, x);
        },
    }
}

} // verus!
