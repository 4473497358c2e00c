//! Every transition keeps what holds in every state.

use vstd::prelude::*;
use crate::integrity::{
    buffered, in_hand, owed_by_worker, requested, requested_for, running, sending_to, unsettled,
};
use crate::model::{DemandCommand, ReceiverState, State, WorkerState};
use crate::stats::{ConsumerStats, SchedulerStats};
use crate::status::StatusEvent;
use crate::tally::{
    counts, lemma_counts_minus, lemma_counts_plus, lemma_counts_zero, lemma_map_sum_insert,
    lemma_map_sum_remove, lemma_map_sum_same, lemma_seq_sum_at_most_len, lemma_seq_sum_bounds,
    lemma_seq_sum_push, lemma_seq_sum_update, lemma_seq_sum_zero, occurrences, one_for, seq_sum,
};
use crate::types::{ReceiverId, CANCELLED, NO_MORE_WORK, RUNNING, SHUTTING_DOWN};

verus! {

/// The receiver of a queued command is known, and the command is part of what is owed to it.
pub proof fn lemma_command_known<T>(s: State<T>, i: int)
    requires
        s.inv(),
        0 <= i < s.demand.len(),
    ensures
        s.receivers.contains_key(s.demand[i].receiver),
        s.demand[i].count <= s.receivers[s.demand[i].receiver].owed,
{
    let id = s.demand[i].receiver;
    lemma_seq_sum_bounds(s.demand, requested_for(id));
    lemma_seq_sum_bounds(s.workers, owed_by_worker(id));
    assert(requested_for(id)(s.demand[i]) == s.demand[i].count);
    assert(s.owed_to(id) == s.recorded_owed(id));
}

/// The receiver that a worker serves is known, and what the worker has to deliver is part of what
/// is owed to it. A worker that sends is counted there, and the consumer still holds its end.
pub proof fn lemma_served_known<T>(s: State<T>, worker: int, id: usize)
    requires
        s.inv(),
        0 <= worker < s.workers.len(),
        owed_by_worker::<T>(id)(s.workers[worker]) > 0,
    ensures
        s.receivers.contains_key(id),
        owed_by_worker::<T>(id)(s.workers[worker]) <= s.receivers[id].owed,
        s.receivers[id].tx_open,
        s.connected(),
        s.workers[worker] is Sending ==> s.receivers[id].active_sends > 0
            && s.receivers[id].rx_open,
        s.workers[worker] !is Sending ==> s.receivers[id].active_sends < usize::MAX,
{
    lemma_seq_sum_bounds(s.demand, requested_for(id));
    lemma_seq_sum_bounds(s.workers, owed_by_worker(id));
    lemma_seq_sum_at_most_len(s.workers, sending_to(id));
    lemma_seq_sum_bounds(s.workers, sending_to(id));
    lemma_seq_sum_bounds(s.workers, running());
    assert(running::<T>()(s.workers[worker]) == 1);
    assert(s.owed_to(id) == s.recorded_owed(id));
    assert(s.sends_to(id) == s.recorded_sends(id));
    assert(s.receiver_ok(s.receivers[id]));
}

/// A change of the state of one worker.
pub proof fn lemma_worker_changed<T>(s: State<T>, worker: int, next: WorkerState<T>)
    requires
        0 <= worker < s.workers.len(),
    ensures
        forall|id: usize|
            seq_sum(s.workers.update(worker, next), #[trigger] owed_by_worker::<T>(id)) == seq_sum(
                s.workers,
                owed_by_worker(id),
            ) - owed_by_worker::<T>(id)(s.workers[worker]) + owed_by_worker::<T>(id)(next),
        forall|id: usize|
            seq_sum(s.workers.update(worker, next), #[trigger] sending_to::<T>(id)) == seq_sum(
                s.workers,
                sending_to(id),
            ) - sending_to::<T>(id)(s.workers[worker]) + sending_to::<T>(id)(next),
        seq_sum(s.workers.update(worker, next), unsettled()) == seq_sum(s.workers, unsettled())
            - unsettled::<T>()(s.workers[worker]) + unsettled::<T>()(next),
        seq_sum(s.workers.update(worker, next), in_hand()) == seq_sum(s.workers, in_hand())
            - in_hand::<T>()(s.workers[worker]) + in_hand::<T>()(next),
        seq_sum(s.workers.update(worker, next), running()) == seq_sum(s.workers, running())
            - running::<T>()(s.workers[worker]) + running::<T>()(next),
{
    assert forall|id: usize|
        seq_sum(s.workers.update(worker, next), #[trigger] owed_by_worker::<T>(id)) == seq_sum(
            s.workers,
            owed_by_worker(id),
        ) - owed_by_worker::<T>(id)(s.workers[worker]) + owed_by_worker::<T>(id)(next) by {
        lemma_seq_sum_update(s.workers, worker, next, owed_by_worker(id));
    }
    assert forall|id: usize|
        seq_sum(s.workers.update(worker, next), #[trigger] sending_to::<T>(id)) == seq_sum(
            s.workers,
            sending_to(id),
        ) - sending_to::<T>(id)(s.workers[worker]) + sending_to::<T>(id)(next) by {
        lemma_seq_sum_update(s.workers, worker, next, sending_to(id));
    }
    lemma_seq_sum_update(s.workers, worker, next, unsettled());
    lemma_seq_sum_update(s.workers, worker, next, in_hand());
    lemma_seq_sum_update(s.workers, worker, next, running());
}

/// One more event.
pub proof fn lemma_emitted<T>(s: State<T>, event: StatusEvent)
    ensures
        forall|e: StatusEvent|
            occurrences(s.emit(event).events, e) == #[trigger] occurrences(s.events, e) + (if e
                == event {
                1int
            } else {
                0int
            }),
{
    assert forall|e: StatusEvent|
        occurrences(s.emit(event).events, e) == #[trigger] occurrences(s.events, e) + (if e
            == event {
            1int
        } else {
            0int
        }) by {
        lemma_seq_sum_push(s.events, event, one_for(e));
    }
}

/// A new feeder is in order.
pub proof fn lemma_initial<T>(worker_count: usize)
    requires
        worker_count > 0,
    ensures
        State::<T>::initial(worker_count).inv(),
{
    let s = State::<T>::initial(worker_count);
    lemma_counts_zero();
    lemma_seq_sum_zero(s.workers, unsettled());
    lemma_seq_sum_zero(s.workers, in_hand());
    lemma_all_running(s.workers);
    assert forall|id: usize| #[trigger] s.owed_to(id) == s.recorded_owed(id) by {
        lemma_seq_sum_zero(s.workers, owed_by_worker(id));
    }
    assert forall|id: usize| #[trigger] s.sends_to(id) == s.recorded_sends(id) by {
        lemma_seq_sum_zero(s.workers, sending_to(id));
    }
}

proof fn lemma_all_running<T>(workers: Seq<WorkerState<T>>)
    requires
        forall|i: int| 0 <= i < workers.len() ==> (#[trigger] workers[i]) !is Exited,
    ensures
        seq_sum(workers, running()) == workers.len(),
    decreases workers.len(),
{
    if workers.len() > 0 {
        assert forall|i: int| 0 <= i < workers.drop_last().len() implies (
        #[trigger] workers.drop_last()[i]) !is Exited by {
            assert(workers.drop_last()[i] == workers[i]);
        }
        lemma_all_running(workers.drop_last());
    }
}

/// Closing all receivers keeps what is counted of them.
pub proof fn lemma_all_closed<T>(s: State<T>)
    requires
        s.inv(),
    ensures
        s.all_closed().receivers.dom() == s.receivers.dom(),
        s.all_closed().total_buffered() == s.total_buffered(),
        forall|id: usize| #[trigger]
            s.receivers.contains_key(id) ==> s.all_closed().receivers[id]
                == s.receivers[id].closed(),
        forall|id: usize| #[trigger] s.all_closed().recorded_owed(id) == s.recorded_owed(id),
        forall|id: usize| #[trigger] s.all_closed().recorded_sends(id) == s.recorded_sends(id),
        forall|id: usize| #[trigger] s.all_closed().owed_to(id) == s.owed_to(id),
        forall|id: usize| #[trigger] s.all_closed().sends_to(id) == s.sends_to(id),
{
    let closed = s.all_closed();
    assert(closed.receivers.dom() =~= s.receivers.dom());
    lemma_map_sum_same(s.receivers, closed.receivers, buffered());
}

/// A shutdown that is completed keeps everything in order.
pub proof fn lemma_try_complete<T>(s: State<T>)
    requires
        s.inv(),
    ensures
        s.try_complete().inv(),
{
    if s.completion_due() {
        lemma_all_closed(s);
        let closed = s.all_closed();
        let done = State {
            no_more_work_emitted: true,
            terminal_open: false,
            ..State { lifecycle: NO_MORE_WORK, ..s }.all_closed()
        };
        assert(done.receivers == closed.receivers);
        lemma_emitted(done, StatusEvent::NoMoreWork);
        let after = s.try_complete();
        assert(after.receivers == closed.receivers);
        assert forall|id: usize| #[trigger] after.owed_to(id) == after.recorded_owed(id) by {
            assert(closed.owed_to(id) == s.owed_to(id));
            assert(closed.recorded_owed(id) == s.recorded_owed(id));
        }
        assert forall|id: usize| #[trigger] after.sends_to(id) == after.recorded_sends(id) by {
            assert(closed.sends_to(id) == s.sends_to(id));
            assert(closed.recorded_sends(id) == s.recorded_sends(id));
        }
        assert forall|id: usize| #[trigger]
            after.receivers.contains_key(id) implies after.receiver_ok(after.receivers[id]) by {
            assert(s.receivers.contains_key(id));
            assert(s.receiver_ok(s.receivers[id]));
        }
    }
}

/// Stopping everything keeps everything in order.
pub proof fn lemma_cancel<T>(s: State<T>)
    requires
        s.inv(),
    ensures
        s.cancel().inv(),
{
    lemma_all_closed(s);
    let closed = s.all_closed();
    let after = s.cancel();
    lemma_emitted(s, StatusEvent::Cancelled);
    assert(after.receivers == closed.receivers);
    assert forall|id: usize| #[trigger] after.owed_to(id) == after.recorded_owed(id) by {
        assert(closed.owed_to(id) == s.owed_to(id));
        assert(closed.recorded_owed(id) == s.recorded_owed(id));
    }
    assert forall|id: usize| #[trigger] after.sends_to(id) == after.recorded_sends(id) by {
        assert(closed.sends_to(id) == s.sends_to(id));
        assert(closed.recorded_sends(id) == s.recorded_sends(id));
    }
    assert forall|id: usize| #[trigger]
        after.receivers.contains_key(id) implies after.receiver_ok(after.receivers[id]) by {
        assert(s.receivers.contains_key(id));
        assert(s.receiver_ok(s.receivers[id]));
    }
}

/// A producer that starts sending, a sealed ingress and a fresh identifier keep everything in
/// order.
pub proof fn lemma_small_steps<T>(s: State<T>)
    requires
        s.inv(),
    ensures
        s.send_begun().inv(),
        s.sealed().inv(),
        s.id_taken().inv(),
{
    let begun = s.send_begun();
    let sealed = s.sealed();
    let taken = s.id_taken();
    lemma_same_references(s, begun);
    lemma_same_references(s, sealed);
    lemma_same_references(s, taken);
    lemma_same_receivers(s, begun);
    lemma_same_receivers(s, sealed);
    lemma_same_receivers(s, taken);
}

pub proof fn lemma_same_references<T>(s: State<T>, t: State<T>)
    requires
        s.references_ok(),
        t.demand == s.demand,
        t.workers == s.workers,
        t.receivers == s.receivers,
    ensures
        t.references_ok(),
{
    assert forall|id: usize| #[trigger] t.owed_to(id) == t.recorded_owed(id) by {
        assert(s.owed_to(id) == s.recorded_owed(id));
    }
    assert forall|id: usize| #[trigger] t.sends_to(id) == t.recorded_sends(id) by {
        assert(s.sends_to(id) == s.recorded_sends(id));
    }
}

pub proof fn lemma_same_receivers<T>(s: State<T>, t: State<T>)
    requires
        s.receivers_ok(),
        t.receivers == s.receivers,
        t.connected() == s.connected(),
        t.terminal_open == s.terminal_open,
        t.consumer_stats.len() >= s.consumer_stats.len(),
    ensures
        t.receivers_ok(),
{
    assert forall|id: usize| #[trigger] t.receivers.contains_key(id) implies t.receiver_ok(
        t.receivers[id],
    ) by {
        assert(s.receivers.contains_key(id));
        assert(s.receiver_ok(s.receivers[id]));
    }
}

/// A producer that finishes sending keeps everything in order.
pub proof fn lemma_send_finished<T>(s: State<T>, items: Seq<T>)
    requires
        s.inv(),
        items.len() <= usize::MAX,
    ensures
        s.send_finished(items).inv(),
{
    let t = s.send_finished(items);
    if s.connected() {
        lemma_counts_plus(s.ingress_pending, s.ingress.len() as int, items.len() as usize);
    }
    lemma_same_references(s, t);
    lemma_same_receivers(s, t);
}

/// Starting a graceful shutdown keeps everything in order.
pub proof fn lemma_shut_down<T>(s: State<T>)
    requires
        s.inv(),
    ensures
        s.shut_down().inv(),
{
    lemma_small_steps(s);
    if s.active_producer_sends == 0 && s.lifecycle == RUNNING {
        let started = State { lifecycle: SHUTTING_DOWN, ..s.sealed() };
        let told = started.emit(StatusEvent::GracefulShutdownStarted);
        lemma_emitted(started, StatusEvent::GracefulShutdownStarted);
        lemma_same_references(s, told);
        lemma_same_receivers(s, told);
        lemma_try_complete(told);
    }
}

/// An event on one receiver keeps everything in order.
pub proof fn lemma_receiver_event<T>(s: State<T>, event: StatusEvent)
    requires
        s.inv(),
        event !is NoMoreWork,
        event !is Cancelled,
        event !is GracefulShutdownStarted,
        event !is SchedulerExited,
    ensures
        s.emit(event).inv(),
{
    lemma_emitted(s, event);
    lemma_same_references(s, s.emit(event));
    lemma_same_receivers(s, s.emit(event));
}

/// A new value of one receiver, which is owed the same and has the same senders.
proof fn lemma_receiver_replaced<T>(s: State<T>, id: usize, receiver: ReceiverState<T>)
    requires
        s.inv(),
        s.receivers.contains_key(id),
        s.receiver_ok(receiver),
        receiver.owed == s.receivers[id].owed,
        receiver.active_sends == s.receivers[id].active_sends,
        receiver.data.len() == s.receivers[id].data.len(),
    ensures
        s.with_receiver(id, receiver).inv(),
{
    let t = s.with_receiver(id, receiver);
    lemma_map_sum_insert(s.receivers, id, receiver, buffered());
    assert forall|other: usize| #[trigger] t.owed_to(other) == t.recorded_owed(other) by {
        assert(s.owed_to(other) == s.recorded_owed(other));
    }
    assert forall|other: usize| #[trigger] t.sends_to(other) == t.recorded_sends(other) by {
        assert(s.sends_to(other) == s.recorded_sends(other));
    }
    assert forall|other: usize| #[trigger] t.receivers.contains_key(other) implies t.receiver_ok(
        t.receivers[other],
    ) by {
        if other != id {
            assert(s.receivers.contains_key(other));
            assert(s.receiver_ok(s.receivers[other]));
        }
    }
}

/// Requesting items within the high water mark keeps everything in order.
pub proof fn lemma_reserve_demand<T>(s: State<T>, id: usize, count: usize)
    requires
        s.inv(),
        s.receivers.contains_key(id),
        s.receivers[id].tx_open,
        s.receivers[id].outstanding + count <= s.receivers[id].high_water,
    ensures
        s.reserve_demand(id, count).inv(),
{
    let t = s.reserve_demand(id, count);
    assert(s.receiver_ok(s.receivers[id]));
    if count == 0 {
    } else if !s.connected() {
        lemma_same_references(s, t);
        lemma_same_receivers(s, t);
    } else {
        let command = DemandCommand { receiver: id, count };
        lemma_counts_plus(s.demand_pending, s.total_demand(), count);
        lemma_seq_sum_push(s.demand, command, requested());
        lemma_map_sum_insert(s.receivers, id, t.receivers[id], buffered());
        assert forall|other: usize| #[trigger] t.owed_to(other) == t.recorded_owed(other) by {
            assert(s.owed_to(other) == s.recorded_owed(other));
            lemma_seq_sum_push(s.demand, command, requested_for(other));
        }
        assert forall|other: usize| #[trigger] t.sends_to(other) == t.recorded_sends(other) by {
            assert(s.sends_to(other) == s.recorded_sends(other));
        }
        assert forall|other: usize| #[trigger]
            t.receivers.contains_key(other) implies t.receiver_ok(t.receivers[other]) by {
            if other != id {
                assert(s.receivers.contains_key(other));
                assert(s.receiver_ok(s.receivers[other]));
            }
        }
    }
}

/// Creating a receiver keeps everything in order.
pub proof fn lemma_receiver_requested<T>(s: State<T>, low: usize, high: usize)
    requires
        s.inv(),
        low > 0,
        s.consumer_stats.len() < usize::MAX,
    ensures
        s.receiver_requested(low, high).inv(),
        s.receiver_refusal(low, high) is None ==> s.connected(),
{
    if s.receiver_refusal(low, high) is None {
        let id = s.next_id;
        let base = State {
            consumer_stats: s.consumer_stats.push(ConsumerStats::zero()),
            ..s.id_taken()
        };
        let fresh = s.fresh_receiver(low, high);
        let known = base.with_receiver(id, fresh);
        lemma_map_sum_insert(s.receivers, id, fresh, buffered());
        assert forall|other: usize| #[trigger] known.owed_to(other) == known.recorded_owed(
            other,
        ) by {
            assert(s.owed_to(other) == s.recorded_owed(other));
        }
        assert forall|other: usize| #[trigger] known.sends_to(other) == known.recorded_sends(
            other,
        ) by {
            assert(s.sends_to(other) == s.recorded_sends(other));
        }
        assert forall|other: usize| #[trigger]
            known.receivers.contains_key(other) implies known.receiver_ok(
            known.receivers[other],
        ) by {
            if other != id {
                assert(s.receivers.contains_key(other));
                assert(s.receiver_ok(s.receivers[other]));
            }
        }
        lemma_reserve_demand(known, id, high);
        lemma_receiver_event(
            known.reserve_demand(id, high),
            StatusEvent::ReceiverRegistered { receiver_id: ReceiverId(id) },
        );
    }
}

/// Consuming items keeps everything in order.
pub proof fn lemma_consumed<T>(s: State<T>, id: usize, max: usize)
    requires
        s.inv(),
    ensures
        s.consumed(id, max).inv(),
{
    let got = s.available(id, max);
    if got != 0 {
        let before = s.receivers[id];
        assert(s.receiver_ok(before));
        let shorter = s.with_receiver(id, ReceiverState { data: before.data.skip(got), ..before });
        let counted = shorter.consumption_counted(id, got as usize);
        let after = counted.receivers[id];
        lemma_map_sum_insert(s.receivers, id, after, buffered());
        assert(counted.receivers =~= s.receivers.insert(id, after));
        lemma_counts_minus(s.delivered_inflight, s.total_buffered() + s.discarded, got as usize);
        assert forall|other: usize| #[trigger] counted.owed_to(other) == counted.recorded_owed(
            other,
        ) by {
            assert(s.owed_to(other) == s.recorded_owed(other));
        }
        assert forall|other: usize| #[trigger] counted.sends_to(other) == counted.recorded_sends(
            other,
        ) by {
            assert(s.sends_to(other) == s.recorded_sends(other));
        }
        assert forall|other: usize| #[trigger]
            counted.receivers.contains_key(other) implies counted.receiver_ok(
            counted.receivers[other],
        ) by {
            if other != id {
                assert(s.receivers.contains_key(other));
                assert(s.receiver_ok(s.receivers[other]));
            }
        }
        assert(counted.inv());
        lemma_refilled(counted, id);
        let refilled = counted.refilled(id);
        lemma_lag_updated(refilled, id, max, got as usize);
        let reported = refilled.lag_updated(id, max, got as usize);
        lemma_try_complete(reported);
    }
}

proof fn lemma_refilled<T>(s: State<T>, id: usize)
    requires
        s.inv(),
        s.receivers.contains_key(id),
    ensures
        s.refilled(id).inv(),
        s.refilled(id).receivers.contains_key(id),
{
    let receiver = s.receivers[id];
    assert(s.receiver_ok(receiver));
    if receiver.tx_open && receiver.outstanding < receiver.low_water {
        let place = receiver.stats as int;
        let stats = s.consumer_stats[place];
        let noted = State {
            consumer_stats: s.consumer_stats.update(
                place,
                ConsumerStats { refill_messages: stats.refill_messages.wrapping_add(1), ..stats },
            ),
            ..s
        };
        lemma_same_references(s, noted);
        lemma_same_receivers(s, noted);
        lemma_reserve_demand(noted, id, (receiver.high_water - receiver.outstanding) as usize);
    }
}

proof fn lemma_lag_updated<T>(s: State<T>, id: usize, requested: usize, got: usize)
    requires
        s.inv(),
        s.receivers.contains_key(id),
    ensures
        s.lag_updated(id, requested, got).inv(),
{
    let receiver = s.receivers[id];
    assert(s.receiver_ok(receiver));
    if s.lifecycle == RUNNING {
        if got < requested && !receiver.lagging {
            let late = ReceiverState { lagging: true, ..receiver };
            lemma_receiver_replaced(s, id, late);
            lemma_receiver_event(
                s.with_receiver(id, late),
                StatusEvent::Lagging { receiver_id: ReceiverId(id), requested, received: got },
            );
        } else if got >= requested && receiver.lagging {
            let timely = ReceiverState { lagging: false, ..receiver };
            lemma_receiver_replaced(s, id, timely);
            lemma_receiver_event(
                s.with_receiver(id, timely),
                StatusEvent::Recovered { receiver_id: ReceiverId(id) },
            );
        }
    }
}

/// Starting to drop a receiver keeps everything in order.
pub proof fn lemma_drop_begun<T>(s: State<T>, id: usize)
    requires
        s.inv(),
    ensures
        s.drop_begun(id).inv(),
{
    if s.receivers.contains_key(id) && !s.receivers[id].dropped {
        assert(s.receiver_ok(s.receivers[id]));
        lemma_receiver_replaced(s, id, s.drop_begun(id).receivers[id]);
    }
}

/// Releasing a receiver keeps everything in order.
pub proof fn lemma_released<T>(s: State<T>, id: usize)
    requires
        s.inv(),
    ensures
        s.released(id).inv(),
        s.releasable(id) ==> !s.terminal_open,
{
    if s.releasable(id) {
        let t = s.released(id);
        assert(s.receiver_ok(s.receivers[id]));
        lemma_map_sum_remove(s.receivers, id, buffered());
        lemma_nobody_sends(s, id);
        assert forall|other: usize| #[trigger] t.owed_to(other) == t.recorded_owed(other) by {
            assert(s.owed_to(other) == s.recorded_owed(other));
        }
        assert forall|other: usize| #[trigger] t.sends_to(other) == t.recorded_sends(other) by {
            assert(s.sends_to(other) == s.recorded_sends(other));
        }
        assert forall|other: usize| #[trigger]
            t.receivers.contains_key(other) implies t.receiver_ok(t.receivers[other]) by {
            assert(s.receivers.contains_key(other));
            assert(s.receiver_ok(s.receivers[other]));
        }
    }
}

/// Nobody sends to a receiver that is owed nothing.
proof fn lemma_nobody_sends<T>(s: State<T>, id: usize)
    requires
        s.inv(),
        s.recorded_owed(id) == 0,
    ensures
        s.sends_to(id) == 0,
{
    assert(s.owed_to(id) == s.recorded_owed(id));
    lemma_seq_sum_bounds(s.demand, requested_for(id));
    lemma_seq_sum_bounds(s.workers, owed_by_worker(id));
    assert forall|i: int| 0 <= i < s.workers.len() implies sending_to::<T>(id)(
        #[trigger] s.workers[i],
    ) == 0 by {
        assert(State::worker_ok(s.workers[i]));
        assert(owed_by_worker::<T>(id)(s.workers[i]) <= 0);
    }
    lemma_seq_sum_zero(s.workers, sending_to(id));
}

/// Taking an item back keeps everything in order.
pub proof fn lemma_enqueue_recovered<T>(s: State<T>, item: T)
    requires
        s.inv(),
    ensures
        s.enqueue_recovered(item).inv(),
{
    let t = s.enqueue_recovered(item);
    if s.connected() {
        lemma_counts_plus(s.recovered_pending, s.recovered.len() as int, 1);
    }
    lemma_same_references(s, t);
    lemma_same_receivers(s, t);
}

/// What taking several items back changes.
pub proof fn lemma_all_recovered<T>(s: State<T>, items: Seq<T>)
    requires
        items.len() <= usize::MAX,
    ensures
        ({
            let t = s.all_recovered(items);
            &&& t == (State {
                recovered: t.recovered,
                recovered_pending: t.recovered_pending,
                scheduler_stats: t.scheduler_stats,
                ..s
            })
            &&& t.recovered == if s.lifecycle == CANCELLED || s.lifecycle == NO_MORE_WORK
                || !s.connected() {
                s.recovered
            } else {
                s.recovered + items
            }
            &&& s.connected() && counts(s.recovered_pending, s.recovered.len() as int) ==> counts(
                t.recovered_pending,
                t.recovered.len() as int,
            )
        }),
    decreases items.len(),
{
    if items.len() > 0 {
        lemma_all_recovered(s, items.drop_last());
        let t = s.all_recovered(items.drop_last());
        if s.connected() && counts(s.recovered_pending, s.recovered.len() as int) {
            lemma_counts_plus(t.recovered_pending, t.recovered.len() as int, 1);
        }
        assert(items.drop_last().push(items.last()) =~= items);
        assert((s.recovered + items.drop_last()).push(items.last()) =~= s.recovered + items);
    } else {
        assert(s.recovered + items =~= s.recovered);
    }
}

/// Taking items back does not look at the receivers.
pub proof fn lemma_recovered_beside<T>(
    s: State<T>,
    receivers: Map<usize, ReceiverState<T>>,
    items: Seq<T>,
)
    ensures
        (State { receivers, ..s }).all_recovered(items) == (State {
            receivers,
            ..s.all_recovered(items)
        }),
    decreases items.len(),
{
    if items.len() > 0 {
        lemma_recovered_beside(s, receivers, items.drop_last());
    }
}

/// Finishing the drop of a receiver keeps everything in order.
pub proof fn lemma_drop_finished<T>(s: State<T>, id: usize)
    requires
        s.inv(),
        s.drop_can_finish(id),
    ensures
        s.drop_finished(id).inv(),
{
    let before = s.receivers[id];
    assert(s.receiver_ok(before));
    let items = before.data;
    let emptied = State {
        delivered_inflight: s.delivered_inflight.wrapping_sub(items.len() as usize),
        ..s
    };
    lemma_all_recovered(emptied, items);
    let recovered = emptied.all_recovered(items);
    let counted = State {
        scheduler_stats: SchedulerStats {
            receiver_drop_recovered:
                recovered.scheduler_stats.receiver_drop_recovered.wrapping_add(items.len() as u64),
            ..recovered.scheduler_stats
        },
        ..recovered
    };
    let event = StatusEvent::ReceiverDropped {
        receiver_id: ReceiverId(id),
        recovered: items.len() as usize,
    };
    let told = counted.emit(event);
    lemma_emitted(counted, event);
    let gone = ReceiverState {
        data: Seq::<T>::empty(),
        rx_open: false,
        draining: false,
        outstanding: (before.outstanding - items.len()) as usize,
        ..before
    };
    let t = told.put_receiver(id, gone);
    lemma_counts_minus(
        s.delivered_inflight,
        s.total_buffered() + s.discarded,
        items.len() as usize,
    );
    lemma_map_sum_insert(s.receivers, id, gone.settled(), buffered());
    lemma_map_sum_remove(s.receivers, id, buffered());
    assert forall|other: usize| #[trigger] t.owed_to(other) == t.recorded_owed(other) by {
        assert(s.owed_to(other) == s.recorded_owed(other));
        assert(t.owed_to(other) == s.owed_to(other));
    }
    assert forall|other: usize| #[trigger] t.sends_to(other) == t.recorded_sends(other) by {
        assert(s.sends_to(other) == s.recorded_sends(other));
        assert(t.sends_to(other) == s.sends_to(other));
    }
    assert forall|other: usize| #[trigger] t.receivers.contains_key(other) implies t.receiver_ok(
        t.receivers[other],
    ) by {
        if other != id {
            assert(s.receivers.contains_key(other));
            assert(s.receiver_ok(s.receivers[other]));
        }
    }
    assert(t.inv());
    lemma_try_complete(t);
}

} // verus!
