//! What the status sink is told of one receiver, over any sequence of operations.

use vstd::prelude::*;
use crate::history::Action;
use crate::history_laws::law_always_in_order;
use crate::model::{ReceiverState, State, WorkerState};
use crate::preserve::{lemma_all_recovered, lemma_served_known};
use crate::stats::SchedulerStats;
use crate::status::StatusEvent;
use crate::types::{ReceiverId, SHUTTING_DOWN};

verus! {

/// The event says that the receiver `id` was registered.
pub open spec fn tells_registered(event: StatusEvent, id: usize) -> bool {
    event matches StatusEvent::ReceiverRegistered { receiver_id } && receiver_id.0 == id
}

/// The event says that the receiver `id` gets less than it asks for.
pub open spec fn tells_lagging(event: StatusEvent, id: usize) -> bool {
    event matches StatusEvent::Lagging { receiver_id, requested, received } && receiver_id.0 == id
}

/// The event says that the receiver `id` gets enough again.
pub open spec fn tells_recovered(event: StatusEvent, id: usize) -> bool {
    event matches StatusEvent::Recovered { receiver_id } && receiver_id.0 == id
}

/// The last that was told of the receiver `id` is that it gets less than it asks for.
pub open spec fn last_told_lagging(events: Seq<StatusEvent>, id: usize) -> bool
    decreases events.len(),
{
    events.len() > 0 && (tells_lagging(events.last(), id) || (!tells_recovered(events.last(), id)
        && !tells_registered(events.last(), id) && last_told_lagging(events.drop_last(), id)))
}

/// A receiver is told to lag only where it was not yet, and to get enough only where it was.
spec fn told_in_turn(events: Seq<StatusEvent>, id: usize) -> bool {
    forall|i: int|
        0 <= i < events.len() ==> {
            &&& tells_lagging(#[trigger] events[i], id) ==> !last_told_lagging(events.take(i), id)
            &&& tells_recovered(events[i], id) ==> last_told_lagging(events.take(i), id)
        }
}

impl<T> State<T> {
    /// What was told of the receiver `id` was told in turn, up to how the receiver is now.
    spec fn heard(self, id: usize) -> bool {
        &&& told_in_turn(self.events, id)
        &&& self.receivers.contains_key(id) ==> self.receivers[id].lagging == last_told_lagging(
            self.events,
            id,
        )
    }
}

proof fn lemma_told<T>(s: State<T>, event: StatusEvent, id: usize)
    requires
        told_in_turn(s.events, id),
        tells_lagging(event, id) ==> !last_told_lagging(s.events, id),
        tells_recovered(event, id) ==> last_told_lagging(s.events, id),
    ensures
        told_in_turn(s.emit(event).events, id),
        last_told_lagging(s.emit(event).events, id) == (tells_lagging(event, id) || (
        !tells_recovered(event, id) && !tells_registered(event, id) && last_told_lagging(
            s.events,
            id,
        ))),
{
    let events = s.emit(event).events;
    assert(events.drop_last() =~= s.events);
    assert forall|i: int| 0 <= i < events.len() implies {
        &&& tells_lagging(#[trigger] events[i], id) ==> !last_told_lagging(events.take(i), id)
        &&& tells_recovered(events[i], id) ==> last_told_lagging(events.take(i), id)
    } by {
        if i < s.events.len() {
            assert(events.take(i) =~= s.events.take(i));
            assert(events[i] == s.events[i]);
        } else {
            assert(events.take(i) =~= s.events);
        }
    }
}

proof fn lemma_completion_heard<T>(s: State<T>, id: usize)
    requires
        s.heard(id),
    ensures
        s.try_complete().heard(id),
{
    lemma_told(s, StatusEvent::NoMoreWork, id);
}

proof fn lemma_register_heard<T>(s: State<T>, low: usize, high: usize, id: usize)
    requires
        s.heard(id),
    ensures
        s.receiver_requested(low, high).heard(id),
{
    if s.receiver_refusal(low, high) is None {
        let t = s.receiver_requested(low, high);
        lemma_told(s, t.events.last(), id);
    }
}

proof fn lemma_shut_down_heard<T>(s: State<T>, id: usize)
    requires
        s.heard(id),
    ensures
        s.shut_down().heard(id),
{
    let told = State { lifecycle: SHUTTING_DOWN, ..s.sealed() }.emit(
        StatusEvent::GracefulShutdownStarted,
    );
    lemma_told(s, StatusEvent::GracefulShutdownStarted, id);
    lemma_completion_heard(told, id);
}

proof fn lemma_consumed_heard<T>(s: State<T>, reader: usize, max: usize, id: usize)
    requires
        s.heard(id),
    ensures
        s.consumed(reader, max).heard(id),
{
    let got = s.available(reader, max);
    if got != 0 {
        let receiver = s.receivers[reader];
        let counted = s.with_receiver(
            reader,
            ReceiverState { data: receiver.data.skip(got), ..receiver },
        ).consumption_counted(reader, got as usize);
        let refilled = counted.refilled(reader);
        assert(refilled.heard(id));
        let reported = refilled.lag_updated(reader, max, got as usize);
        if reported.events != refilled.events {
            lemma_told(refilled, reported.events.last(), id);
        }
        assert(reported.heard(id));
        lemma_completion_heard(reported, id);
    }
}

proof fn lemma_drop_heard<T>(s: State<T>, dropped: usize, id: usize)
    requires
        s.inv(),
        s.heard(id),
        s.drop_can_finish(dropped),
    ensures
        s.drop_finished(dropped).heard(id),
{
    let receiver = s.receivers[dropped];
    assert(s.receiver_ok(receiver));
    let emptied = State {
        delivered_inflight: s.delivered_inflight.wrapping_sub(receiver.data.len() as usize),
        ..s
    };
    lemma_all_recovered(emptied, receiver.data);
    let event = StatusEvent::ReceiverDropped {
        receiver_id: ReceiverId(dropped),
        recovered: receiver.data.len() as usize,
    };
    lemma_told(s, event, id);
    let recovered = emptied.all_recovered(receiver.data);
    let told = State {
        scheduler_stats: SchedulerStats {
            receiver_drop_recovered: recovered.scheduler_stats.receiver_drop_recovered.wrapping_add(
                receiver.data.len() as u64,
            ),
            ..recovered.scheduler_stats
        },
        ..recovered
    }.emit(event).put_receiver(
        dropped,
        ReceiverState {
            data: Seq::empty(),
            rx_open: false,
            draining: false,
            outstanding: (receiver.outstanding - receiver.data.len()) as usize,
            ..receiver
        },
    );
    assert(told.heard(id));
    lemma_completion_heard(told, id);
}

proof fn lemma_burst_heard<T>(s: State<T>, receiver: usize, fulfilled: usize, id: usize)
    requires
        s.heard(id),
        s.receivers.contains_key(receiver),
        fulfilled > 0,
    ensures
        s.burst_finished(receiver, fulfilled).heard(id),
{
    let handle = s.receivers[receiver];
    let freed = s.put_receiver(
        receiver,
        ReceiverState { active_sends: handle.active_sends.wrapping_sub(1), ..handle },
    );
    let counted = State {
        demand_pending: freed.demand_pending.wrapping_sub(fulfilled),
        active_worker_items: freed.active_worker_items.wrapping_sub(fulfilled),
        scheduler_stats: SchedulerStats {
            demand_fulfilled: freed.scheduler_stats.demand_fulfilled.wrapping_add(fulfilled as u64),
            output_routed: freed.scheduler_stats.output_routed.wrapping_add(fulfilled as u64),
            ..freed.scheduler_stats
        },
        ..freed
    };
    lemma_completion_heard(counted, id);
}

proof fn lemma_step_heard<T>(s: State<T>, worker: int, id: usize)
    requires
        s.inv(),
        s.heard(id),
        0 <= worker < s.workers.len(),
    ensures
        s.worker_step(worker).0.heard(id),
{
    assert(State::worker_ok(s.workers[worker]));
    lemma_completion_heard(s, id);
    match s.workers[worker] {
        WorkerState::Idle => lemma_told(s, StatusEvent::SchedulerExited, id),
        WorkerState::Serving { receiver, count } => {
            lemma_served_known(s, worker, receiver);
            lemma_completion_heard(s.abandon_demand(receiver, count), id);
        },
        WorkerState::Holding { receiver, count, item } => {
            lemma_served_known(s, worker, receiver);
        },
        WorkerState::Sending { receiver, count, item, fulfilled } => {
            lemma_served_known(s, worker, receiver);
            let after = s.delivered(receiver, item);
            lemma_burst_heard(after, receiver, (fulfilled + 1) as usize, id);
        },
        WorkerState::Exited => {},
    }
}

proof fn lemma_action_heard<T>(s: State<T>, action: Action<T>, id: usize)
    requires
        s.inv(),
        s.allows(action),
        s.heard(id),
    ensures
        s.after(action).heard(id),
{
    match action {
        Action::Register { low, high } => lemma_register_heard(s, low, high, id),
        Action::ShutDown => lemma_shut_down_heard(s, id),
        Action::Cancel => lemma_told(s, StatusEvent::Cancelled, id),
        Action::Consume { id: reader, max } => lemma_consumed_heard(s, reader, max, id),
        Action::FinishDrop { id: dropped } => {
            if s.drop_can_finish(dropped) {
                lemma_drop_heard(s, dropped, id);
            }
        },
        Action::Work { worker } => lemma_step_heard(s, worker, id),
        _ => {},
    }
}

proof fn lemma_always_heard<T>(worker_count: usize, actions: Seq<Action<T>>, id: usize)
    requires
        worker_count > 0,
        State::<T>::initial(worker_count).allows_all(actions),
    ensures
        State::<T>::initial(worker_count).after_all(actions).heard(id),
    decreases actions.len(),
{
    if actions.len() > 0 {
        let sofar = actions.drop_last();
        law_always_in_order(worker_count, sofar);
        lemma_always_heard(worker_count, sofar, id);
        lemma_action_heard(
            State::<T>::initial(worker_count).after_all(sofar),
            actions.last(),
            id,
        );
    }
}

/// After a receiver was told to lag and was not told so last, something else was told of it.
proof fn lemma_no_longer_lagging(events: Seq<StatusEvent>, i: int, j: int, id: usize)
    requires
        0 <= i < j <= events.len(),
        tells_lagging(events[i], id),
        !last_told_lagging(events.take(j), id),
    ensures
        exists|k: int|
            i < k < j && (tells_recovered(#[trigger] events[k], id) || tells_registered(
                events[k],
                id,
            )),
    decreases j,
{
    let last = j - 1;
    assert(events.take(j).last() == events[last]);
    assert(events.take(j).drop_last() =~= events.take(last));
    if !tells_recovered(events[last], id) && !tells_registered(events[last], id) {
        lemma_no_longer_lagging(events, i, last, id);
    }
}

/// Where a receiver was told last to lag, there is the moment when it was.
proof fn lemma_since_lagging(events: Seq<StatusEvent>, j: int, id: usize) -> (i: int)
    requires
        0 <= j <= events.len(),
        last_told_lagging(events.take(j), id),
    ensures
        0 <= i < j,
        tells_lagging(events[i], id),
        forall|k: int|
            i < k < j ==> !tells_lagging(#[trigger] events[k], id) && !tells_recovered(
                events[k],
                id,
            ) && !tells_registered(events[k], id),
    decreases j,
{
    let last = j - 1;
    assert(events.take(j).last() == events[last]);
    assert(events.take(j).drop_last() =~= events.take(last));
    if tells_lagging(events[last], id) {
        last
    } else {
        lemma_since_lagging(events, last, id)
    }
}

/// The reports on one receiver alternate, whatever was done with the feeder. Between two reports
/// that it lags comes one that it gets enough again, unless its identifier was given to a new
/// receiver. Each report that it gets enough again comes after one that it lags, with no other
/// report on it in between. What was reported last is how the receiver is now.
pub proof fn law_lag_reports_alternate<T>(worker_count: usize, actions: Seq<Action<T>>, id: usize)
    requires
        worker_count > 0,
        State::<T>::initial(worker_count).allows_all(actions),
    ensures
        ({
            let s = State::<T>::initial(worker_count).after_all(actions);
            &&& forall|i: int, j: int|
                0 <= i < j < s.events.len() && tells_lagging(#[trigger] s.events[i], id)
                    && tells_lagging(#[trigger] s.events[j], id) ==> exists|k: int|
                    i < k < j && (tells_recovered(#[trigger] s.events[k], id) || tells_registered(
                        s.events[k],
                        id,
                    ))
            &&& forall|j: int|
                0 <= j < s.events.len() && tells_recovered(#[trigger] s.events[j], id)
                    ==> exists|i: int|
                    0 <= i < j && tells_lagging(#[trigger] s.events[i], id) && forall|k: int|
                        i < k < j ==> !tells_lagging(#[trigger] s.events[k], id)
                            && !tells_recovered(s.events[k], id) && !tells_registered(
                            s.events[k],
                            id,
                        )
            &&& s.receivers.contains_key(id) ==> s.receivers[id].lagging == last_told_lagging(
                s.events,
                id,
            )
        }),
{
    let s = State::<T>::initial(worker_count).after_all(actions);
    lemma_always_heard(worker_count, actions, id);
    assert forall|i: int, j: int|
        0 <= i < j < s.events.len() && tells_lagging(#[trigger] s.events[i], id) && tells_lagging(
            #[trigger] s.events[j],
            id,
        ) implies exists|k: int|
        i < k < j && (tells_recovered(#[trigger] s.events[k], id) || tells_registered(
            s.events[k],
            id,
        )) by {
        lemma_no_longer_lagging(s.events, i, j, id);
    }
    assert forall|j: int|
        0 <= j < s.events.len() && tells_recovered(
            #[trigger] s.events[j],
            id,
        ) implies exists|i: int|
        0 <= i < j && tells_lagging(#[trigger] s.events[i], id) && forall|k: int|
            i < k < j ==> !tells_lagging(#[trigger] s.events[k], id) && !tells_recovered(
                s.events[k],
                id,
            ) && !tells_registered(s.events[k], id) by {
        let i = lemma_since_lagging(s.events, j, id);
        assert(tells_lagging(s.events[i], id));
    }
}

} // verus!
