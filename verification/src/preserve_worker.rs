//! Every step of a worker keeps what holds in every state.

use vstd::prelude::*;
use crate::integrity::{
    buffered, in_hand, owed_by_worker, requested, requested_for, running, sending_to,
};
use crate::model::{ReceiverState, State, WorkerState};
use crate::preserve::{
    lemma_emitted, lemma_enqueue_recovered, lemma_same_receivers, lemma_served_known,
    lemma_try_complete, lemma_worker_changed,
};
use crate::stats::SchedulerStats;
use crate::status::StatusEvent;
use crate::tally::{
    lemma_counts_minus, lemma_counts_plus, lemma_counts_zero, lemma_map_sum_insert,
    lemma_map_sum_remove, lemma_map_sum_restrict, lemma_seq_sum_bounds, lemma_seq_sum_drop_first,
    lemma_seq_sum_zero,
};
use crate::types::CANCELLED;

verus! {

/// Completing a shutdown and changing the state of a worker do not interfere.
pub proof fn lemma_complete_then_change<T>(s: State<T>, worker: int, next: WorkerState<T>)
    ensures
        s.try_complete().with_worker(worker, next) == s.with_worker(worker, next).try_complete(),
        s.completion_progress().with_worker(worker, next) == s.with_worker(
            worker,
            next,
        ).completion_progress(),
{
    assert(s.try_complete().with_worker(worker, next) =~= s.with_worker(
        worker,
        next,
    ).try_complete());
}

/// Taking the next command keeps everything in order.
proof fn lemma_command_taken<T>(s: State<T>, worker: int)
    requires
        s.inv(),
        0 <= worker < s.workers.len(),
        s.workers[worker] is Idle,
        s.lifecycle != CANCELLED,
        s.demand.len() > 0,
    ensures
        s.worker_step(worker).0.inv(),
{
    let command = s.demand[0];
    let next = WorkerState::<T>::Serving { receiver: command.receiver, count: command.count };
    let t = s.worker_step(worker).0;
    lemma_worker_changed(s, worker, next);
    lemma_seq_sum_drop_first(s.demand, requested());
    assert forall|id: usize| #[trigger] t.owed_to(id) == t.recorded_owed(id) by {
        assert(s.owed_to(id) == s.recorded_owed(id));
        lemma_seq_sum_drop_first(s.demand, requested_for(id));
        assert(owed_by_worker::<T>(id)(next) == requested_for(id)(command));
    }
    assert forall|id: usize| #[trigger] t.sends_to(id) == t.recorded_sends(id) by {
        assert(s.sends_to(id) == s.recorded_sends(id));
        assert(sending_to::<T>(id)(next) == 0);
    }
    lemma_same_receivers(s, t);
    assert forall|i: int| 0 <= i < t.demand.len() implies (#[trigger] t.demand[i]).count > 0 by {
        assert(t.demand[i] == s.demand[i + 1]);
    }
    assert forall|i: int| 0 <= i < t.workers.len() implies State::worker_ok(
        #[trigger] t.workers[i],
    ) by {
        if i != worker {
            assert(t.workers[i] == s.workers[i]);
        }
    }
}

/// A worker that gives up what it had to deliver keeps everything in order. It gives back the
/// `hand` items it held.
proof fn lemma_given_up<T>(s: State<T>, worker: int, id: usize, count: usize, hand: usize)
    requires
        s.inv(),
        0 <= worker < s.workers.len(),
        match s.workers[worker] {
            WorkerState::Serving { receiver, count: c } => receiver == id && c == count && hand
                == 0,
            WorkerState::Holding { receiver, count: c, item } => receiver == id && c == count
                && hand == 1,
            _ => false,
        },
    ensures
        (State {
            active_worker_items: s.active_worker_items.wrapping_sub(hand),
            ..s
        }).abandon_demand(id, count).with_worker(worker, WorkerState::Idle).inv(),
{
    assert(State::worker_ok(s.workers[worker]));
    lemma_served_known(s, worker, id);
    let before = s.receivers[id];
    assert(s.receiver_ok(before));
    let freed = State { active_worker_items: s.active_worker_items.wrapping_sub(hand), ..s };
    let t = freed.abandon_demand(id, count).with_worker(worker, WorkerState::Idle);
    let less = ReceiverState {
        outstanding: (before.outstanding - count) as usize,
        owed: (before.owed - count) as usize,
        ..before
    };
    lemma_worker_changed(s, worker, WorkerState::Idle);
    lemma_counts_minus(s.active_worker_items, s.total_in_hand(), hand);
    lemma_counts_minus(s.demand_pending, s.total_demand(), count);
    lemma_map_sum_insert(s.receivers, id, less.settled(), buffered());
    lemma_map_sum_remove(s.receivers, id, buffered());
    assert(s.owed_to(id) == s.recorded_owed(id));
    assert(s.sends_to(id) == s.recorded_sends(id));
    assert forall|other: usize| #[trigger] t.owed_to(other) == t.recorded_owed(other) by {
        assert(s.owed_to(other) == s.recorded_owed(other));
        assert(owed_by_worker::<T>(other)(s.workers[worker]) == if other == id {
            count as int
        } else {
            0
        });
        assert(owed_by_worker::<T>(other)(WorkerState::Idle) == 0);
    }
    assert forall|other: usize| #[trigger] t.sends_to(other) == t.recorded_sends(other) by {
        assert(s.sends_to(other) == s.recorded_sends(other));
        assert(sending_to::<T>(other)(s.workers[worker]) == 0);
        assert(sending_to::<T>(other)(WorkerState::Idle) == 0);
    }
    assert forall|other: usize| #[trigger] t.receivers.contains_key(other) implies t.receiver_ok(
        t.receivers[other],
    ) by {
        if other != id {
            assert(s.receivers.contains_key(other));
            assert(s.receiver_ok(s.receivers[other]));
        }
    }
    assert forall|i: int| 0 <= i < t.workers.len() implies State::worker_ok(
        #[trigger] t.workers[i],
    ) by {
        if i != worker {
            assert(t.workers[i] == s.workers[i]);
        }
    }
}

/// A worker that takes an item keeps everything in order.
proof fn lemma_item_acquired<T>(s: State<T>, worker: int, id: usize, count: usize)
    requires
        s.inv(),
        0 <= worker < s.workers.len(),
        s.workers[worker] == (WorkerState::<T>::Serving { receiver: id, count }),
        s.next_item() is Some,
    ensures
        s.item_taken().with_worker(
            worker,
            WorkerState::Holding { receiver: id, count, item: s.next_item()->Some_0 },
        ).inv(),
{
    assert(State::worker_ok(s.workers[worker]));
    lemma_served_known(s, worker, id);
    let next = WorkerState::Holding { receiver: id, count, item: s.next_item()->Some_0 };
    let t = s.item_taken().with_worker(worker, next);
    lemma_worker_changed(s, worker, next);
    lemma_counts_plus(s.active_worker_items, s.total_in_hand(), 1);
    lemma_counts_minus(s.recovered_pending, s.recovered.len() as int, 1);
    lemma_counts_minus(s.ingress_pending, s.ingress.len() as int, 1);
    assert forall|other: usize| #[trigger] t.owed_to(other) == t.recorded_owed(other) by {
        assert(s.owed_to(other) == s.recorded_owed(other));
        assert(owed_by_worker::<T>(other)(s.workers[worker]) == owed_by_worker::<T>(other)(next));
    }
    assert forall|other: usize| #[trigger] t.sends_to(other) == t.recorded_sends(other) by {
        assert(s.sends_to(other) == s.recorded_sends(other));
        assert(sending_to::<T>(other)(s.workers[worker]) == 0);
        assert(sending_to::<T>(other)(next) == 0);
    }
    lemma_same_receivers(s, t);
    assert forall|i: int| 0 <= i < t.workers.len() implies State::worker_ok(
        #[trigger] t.workers[i],
    ) by {
        if i != worker {
            assert(t.workers[i] == s.workers[i]);
        }
    }
}

/// A step of a worker that serves a receiver keeps everything in order.
proof fn lemma_serving_step<T>(s: State<T>, worker: int, id: usize, count: usize)
    requires
        s.inv(),
        0 <= worker < s.workers.len(),
        s.workers[worker] == (WorkerState::<T>::Serving { receiver: id, count }),
    ensures
        s.worker_step(worker).0.inv(),
{
    if s.demand_is_void(id) {
        lemma_given_up(s, worker, id, count, 0);
        let freed = State { active_worker_items: s.active_worker_items.wrapping_sub(0), ..s };
        assert(freed =~= s);
        lemma_complete_then_change(s.abandon_demand(id, count), worker, WorkerState::Idle);
        lemma_try_complete(s.abandon_demand(id, count).with_worker(worker, WorkerState::Idle));
    } else if s.next_item() is Some {
        lemma_item_acquired(s, worker, id, count);
    } else {
        lemma_try_complete(s);
    }
}

/// A step of a worker that holds an item keeps everything in order.
proof fn lemma_holding_step<T>(s: State<T>, worker: int, id: usize, count: usize, item: T)
    requires
        s.inv(),
        0 <= worker < s.workers.len(),
        s.workers[worker] == (WorkerState::<T>::Holding { receiver: id, count, item }),
    ensures
        s.worker_step(worker).0.inv(),
{
    assert(State::worker_ok(s.workers[worker]));
    lemma_served_known(s, worker, id);
    let before = s.receivers[id];
    assert(s.receiver_ok(before));
    if before.closing {
        lemma_given_up(s, worker, id, count, 1);
        let freed = State { active_worker_items: s.active_worker_items.wrapping_sub(1), ..s };
        let idle = freed.abandon_demand(id, count).with_worker(worker, WorkerState::Idle);
        lemma_enqueue_recovered(idle, item);
        let t = s.worker_step(worker).0;
        assert(t =~= idle.item_returned(item));
    } else {
        let next = WorkerState::<T>::Sending { receiver: id, count, item, fulfilled: 0 };
        let t = s.worker_step(worker).0;
        let more = ReceiverState {
            active_sends: before.active_sends.wrapping_add(1),
            ..before
        };
        lemma_worker_changed(s, worker, next);
        lemma_map_sum_insert(s.receivers, id, more, buffered());
        assert forall|other: usize| #[trigger] t.owed_to(other) == t.recorded_owed(other) by {
            assert(s.owed_to(other) == s.recorded_owed(other));
            assert(owed_by_worker::<T>(other)(s.workers[worker]) == owed_by_worker::<T>(other)(
                next,
            ));
        }
        assert forall|other: usize| #[trigger] t.sends_to(other) == t.recorded_sends(other) by {
            assert(s.sends_to(other) == s.recorded_sends(other));
            assert(sending_to::<T>(other)(s.workers[worker]) == 0);
            assert(sending_to::<T>(other)(next) == if other == id {
                1int
            } else {
                0int
            });
        }
        assert forall|other: usize| #[trigger]
            t.receivers.contains_key(other) implies t.receiver_ok(t.receivers[other]) by {
            if other != id {
                assert(s.receivers.contains_key(other));
                assert(s.receiver_ok(s.receivers[other]));
            }
        }
        assert forall|i: int| 0 <= i < t.workers.len() implies State::worker_ok(
            #[trigger] t.workers[i],
        ) by {
            if i != worker {
                assert(t.workers[i] == s.workers[i]);
            }
        }
    }
}

/// A step of a worker in a burst keeps everything in order.
proof fn lemma_sending_step<T>(
    s: State<T>,
    worker: int,
    id: usize,
    count: usize,
    item: T,
    fulfilled: usize,
)
    requires
        s.inv(),
        0 <= worker < s.workers.len(),
        s.workers[worker] == (WorkerState::<T>::Sending { receiver: id, count, item, fulfilled }),
    ensures
        s.worker_step(worker).0.inv(),
{
    assert(State::worker_ok(s.workers[worker]));
    lemma_served_known(s, worker, id);
    let before = s.receivers[id];
    assert(s.receiver_ok(before));
    let after = s.delivered(id, item);
    let left = (count - 1) as usize;
    let done = (fulfilled + 1) as usize;
    let given = after.receivers[id];
    lemma_counts_plus(s.delivered_inflight, s.total_buffered() + s.discarded, 1);
    if left > 0 && after.item_for(id) is Some {
        let next = WorkerState::<T>::Sending {
            receiver: id,
            count: left,
            item: after.item_for(id)->Some_0,
            fulfilled: done,
        };
        let t = after.item_taken().with_worker(worker, next);
        lemma_worker_changed(s, worker, next);
        lemma_map_sum_insert(s.receivers, id, given, buffered());
        lemma_counts_plus(s.active_worker_items, s.total_in_hand(), 1);
        lemma_counts_minus(s.recovered_pending, s.recovered.len() as int, 1);
        lemma_counts_minus(s.ingress_pending, s.ingress.len() as int, 1);
        assert forall|other: usize| #[trigger] t.owed_to(other) == t.recorded_owed(other) by {
            assert(s.owed_to(other) == s.recorded_owed(other));
            assert(owed_by_worker::<T>(other)(s.workers[worker]) - owed_by_worker::<T>(other)(next)
                == if other == id {
                1int
            } else {
                0int
            });
        }
        assert forall|other: usize| #[trigger] t.sends_to(other) == t.recorded_sends(other) by {
            assert(s.sends_to(other) == s.recorded_sends(other));
            assert(sending_to::<T>(other)(s.workers[worker]) == sending_to::<T>(other)(next));
        }
        assert forall|other: usize| #[trigger]
            t.receivers.contains_key(other) implies t.receiver_ok(t.receivers[other]) by {
            if other != id {
                assert(s.receivers.contains_key(other));
                assert(s.receiver_ok(s.receivers[other]));
            }
        }
        assert forall|i: int| 0 <= i < t.workers.len() implies State::worker_ok(
            #[trigger] t.workers[i],
        ) by {
            if i != worker {
                assert(t.workers[i] == s.workers[i]);
            }
        }
        assert(s.worker_step(worker).0 == t);
    } else {
        let next = State::<T>::serving(id, left);
        let released = ReceiverState {
            active_sends: given.active_sends.wrapping_sub(1),
            ..given
        };
        let settled = released.settled();
        let put = after.put_receiver(id, released);
        assert(put.receivers =~= s.receivers.insert(id, settled));
        let committed = State {
            demand_pending: put.demand_pending.wrapping_sub(done),
            active_worker_items: put.active_worker_items.wrapping_sub(done),
            scheduler_stats: SchedulerStats {
                demand_fulfilled: put.scheduler_stats.demand_fulfilled.wrapping_add(done as u64),
                output_routed: put.scheduler_stats.output_routed.wrapping_add(done as u64),
                ..put.scheduler_stats
            },
            ..put
        };
        let t = committed.with_worker(worker, next);
        lemma_worker_changed(s, worker, next);
        lemma_map_sum_insert(s.receivers, id, settled, buffered());
        lemma_counts_minus(s.demand_pending, s.total_demand(), done);
        lemma_counts_minus(s.active_worker_items, s.total_in_hand(), done);
        assert forall|other: usize| #[trigger] t.owed_to(other) == t.recorded_owed(other) by {
            assert(s.owed_to(other) == s.recorded_owed(other));
            assert(owed_by_worker::<T>(other)(s.workers[worker]) - owed_by_worker::<T>(other)(next)
                == if other == id {
                1int
            } else {
                0int
            });
        }
        assert forall|other: usize| #[trigger] t.sends_to(other) == t.recorded_sends(other) by {
            assert(s.sends_to(other) == s.recorded_sends(other));
            assert(sending_to::<T>(other)(s.workers[worker]) == if other == id {
                1int
            } else {
                0int
            });
            assert(sending_to::<T>(other)(next) == 0);
        }
        assert forall|other: usize| #[trigger]
            t.receivers.contains_key(other) implies t.receiver_ok(t.receivers[other]) by {
            if other != id {
                assert(s.receivers.contains_key(other));
                assert(s.receiver_ok(s.receivers[other]));
            }
        }
        assert forall|i: int| 0 <= i < t.workers.len() implies State::worker_ok(
            #[trigger] t.workers[i],
        ) by {
            if i != worker {
                assert(t.workers[i] == s.workers[i]);
            }
        }
        lemma_complete_then_change(committed, worker, next);
        lemma_try_complete(t);
        assert(s.worker_step(worker).0 == committed.completion_progress().with_worker(
            worker,
            next,
        ));
    }
}

/// The end of a worker keeps everything in order.
proof fn lemma_worker_exited<T>(s: State<T>, worker: int)
    requires
        s.inv(),
        0 <= worker < s.workers.len(),
        s.workers[worker] is Idle,
        !s.terminal_open,
    ensures
        s.worker_exited(worker).inv(),
{
    let t = s.worker_exited(worker);
    let next = WorkerState::<T>::Exited;
    lemma_worker_changed(s, worker, next);
    lemma_seq_sum_bounds(s.workers, running());
    assert(running::<T>()(s.workers[worker]) == 1);
    assert forall|i: int| 0 <= i < t.workers.len() implies State::worker_ok(
        #[trigger] t.workers[i],
    ) by {
        if i != worker {
            assert(t.workers[i] == s.workers[i]);
        }
    }
    if s.active_workers == 1 {
        lemma_counts_zero();
        lemma_seq_sum_bounds(t.workers, running());
        assert forall|i: int| 0 <= i < t.workers.len() implies (#[trigger] t.workers[i])
            is Exited by {
            assert(running::<T>()(t.workers[i]) <= 0);
        }
        lemma_seq_sum_zero(t.workers, in_hand());
        assert forall|id: usize| #[trigger] t.owed_to(id) == t.recorded_owed(id) by {
            lemma_seq_sum_zero(t.workers, owed_by_worker(id));
        }
        assert forall|id: usize| #[trigger] t.sends_to(id) == t.recorded_sends(id) by {
            lemma_seq_sum_zero(t.workers, sending_to(id));
            assert(s.sends_to(id) == s.recorded_sends(id));
            assert(sending_to::<T>(id)(s.workers[worker]) == 0);
            assert(sending_to::<T>(id)(next) == 0);
        }
        assert forall|id: usize| #[trigger] t.receivers.contains_key(id) implies t.receiver_ok(
            t.receivers[id],
        ) by {
            assert(s.receivers.contains_key(id));
            assert(s.receiver_ok(s.receivers[id]));
        }
        assert forall|id: usize| #[trigger]
            s.receivers.contains_key(id) && !t.receivers.contains_key(id) implies buffered::<T>()(
            s.receivers[id],
        ) == 0 by {
            assert(s.receiver_ok(s.receivers[id]));
        }
        assert(t.receivers.dom().subset_of(s.receivers.dom()));
        vstd::set_lib::lemma_set_subset_finite(s.receivers.dom(), t.receivers.dom());
        lemma_map_sum_restrict(s.receivers, t.receivers, buffered());
        lemma_emitted(s, StatusEvent::SchedulerExited);
    } else {
        assert forall|id: usize| #[trigger] t.owed_to(id) == t.recorded_owed(id) by {
            assert(s.owed_to(id) == s.recorded_owed(id));
            assert(owed_by_worker::<T>(id)(s.workers[worker]) == 0);
            assert(owed_by_worker::<T>(id)(next) == 0);
        }
        assert forall|id: usize| #[trigger] t.sends_to(id) == t.recorded_sends(id) by {
            assert(s.sends_to(id) == s.recorded_sends(id));
            assert(sending_to::<T>(id)(s.workers[worker]) == 0);
            assert(sending_to::<T>(id)(next) == 0);
        }
        lemma_same_receivers(s, t);
    }
}

/// Every step of a worker keeps everything in order.
pub proof fn lemma_worker_step<T>(s: State<T>, worker: int)
    requires
        s.inv(),
        0 <= worker < s.workers.len(),
    ensures
        s.worker_step(worker).0.inv(),
{
    match s.workers[worker] {
        WorkerState::Idle => {
            if s.lifecycle == CANCELLED {
                lemma_worker_exited(s, worker);
            } else if s.demand.len() > 0 {
                lemma_command_taken(s, worker);
            } else if !s.terminal_open {
                lemma_worker_exited(s, worker);
            } else {
                lemma_try_complete(s);
            }
        },
        WorkerState::Serving { receiver, count } => lemma_serving_step(s, worker, receiver, count),
        WorkerState::Holding { receiver, count, item } => lemma_holding_step(
            s,
            worker,
            receiver,
            count,
            item,
        ),
        WorkerState::Sending { receiver, count, item, fulfilled } => lemma_sending_step(
            s,
            worker,
            receiver,
            count,
            item,
            fulfilled,
        ),
        WorkerState::Exited => {},
    }
}

} // verus!
