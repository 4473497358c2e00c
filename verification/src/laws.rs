//! What holds of every operation on a feeder.

use vstd::prelude::*;
use crate::history::Action;
use crate::integrity::{
    buffered, in_hand, owed_by_worker, requested, running, sending_to, unsettled,
};
use crate::model::{DemandCommand, ReceiverState, State, WorkerState};
use crate::preserve::{
    lemma_all_recovered, lemma_cancel, lemma_consumed, lemma_drop_begun, lemma_drop_finished,
    lemma_receiver_requested, lemma_released, lemma_same_receivers, lemma_same_references,
    lemma_send_finished, lemma_served_known, lemma_shut_down, lemma_small_steps,
    lemma_worker_changed,
};
use crate::preserve_worker::lemma_worker_step;
use crate::stats::{ConsumerStats, ConsumerStatsSnapshot};
use crate::status::StatusEvent;
use crate::tally::{
    lemma_counts_exact, lemma_map_sum_bounds, lemma_seq_sum_bounds, lemma_seq_sum_update,
    lemma_seq_sum_zero, map_sum, occurrences, seq_sum,
};
use crate::types::{ReceiverId, CANCELLED, NO_MORE_WORK, RUNNING, SHUTTING_DOWN};

verus! {

impl<T> State<T> {
    /// A worker that holds no item.
    pub open spec fn empty_handed(worker: WorkerState<T>) -> bool {
        worker !is Holding && worker !is Sending
    }

    /// A worker that has nothing to deliver.
    pub open spec fn at_rest(worker: WorkerState<T>) -> bool {
        worker is Idle || worker is Exited
    }

    /// No item is anywhere in the feeder, and no producer is sending.
    pub open spec fn empty(self) -> bool {
        &&& self.ingress.len() == 0
        &&& self.recovered.len() == 0
        &&& self.active_producer_sends == 0
        &&& forall|i: int|
            0 <= i < self.workers.len() ==> State::empty_handed(#[trigger] self.workers[i])
        &&& forall|id: usize| #[trigger]
            self.receivers.contains_key(id) ==> self.receivers[id].data.len() == 0
    }

    /// No item and no request is anywhere in the feeder, and no producer is sending.
    pub open spec fn drained(self) -> bool {
        &&& self.empty()
        &&& self.demand.len() == 0
        &&& forall|i: int|
            0 <= i < self.workers.len() ==> State::at_rest(#[trigger] self.workers[i])
    }

    /// All counters of pending items, and of producers that are sending, are at zero.
    pub open spec fn no_items_pending(self) -> bool {
        &&& self.ingress_pending == 0
        &&& self.recovered_pending == 0
        &&& self.active_worker_items == 0
        &&& self.delivered_inflight == 0
        &&& self.active_producer_sends == 0
    }

    /// All counters of what is pending are at zero.
    pub open spec fn nothing_pending(self) -> bool {
        self.no_items_pending() && self.demand_pending == 0
    }
}

/// Every operation keeps the state in order.
pub proof fn law_kept_in_order<T>(s: State<T>, action: Action<T>)
    requires
        s.inv(),
        s.allows(action),
    ensures
        s.after(action).inv(),
{
    match action {
        Action::AllocateId => lemma_small_steps(s),
        Action::BeginSend => lemma_small_steps(s),
        Action::FinishSend { items } => lemma_send_finished(s, items),
        Action::Register { low, high } => lemma_receiver_requested(s, low, high),
        Action::ShutDown => lemma_shut_down(s),
        Action::Cancel => lemma_cancel(s),
        Action::Consume { id, max } => lemma_consumed(s, id, max),
        Action::BeginDrop { id } => lemma_drop_begun(s, id),
        Action::FinishDrop { id } => {
            if s.drop_can_finish(id) {
                lemma_drop_finished(s, id);
            }
        },
        Action::Release { id } => lemma_released(s, id),
        Action::Work { worker } => lemma_worker_step(s, worker),
        Action::ResetStats => {
            lemma_same_references(s, s.stats_cleared());
            lemma_same_receivers(s, s.stats_cleared());
        },
    }
}

proof fn lemma_empty_if_nothing_pending<T>(s: State<T>)
    requires
        s.inv(),
        s.items_fit(),
        s.connected(),
        s.nothing_pending(),
    ensures
        s.empty(),
{
    lemma_seq_sum_bounds(s.workers, in_hand());
    lemma_map_sum_bounds(s.receivers, buffered());
    lemma_counts_exact(s.ingress_pending, s.ingress.len() as int);
    lemma_counts_exact(s.recovered_pending, s.recovered.len() as int);
    lemma_counts_exact(s.active_worker_items, s.total_in_hand());
    lemma_counts_exact(s.delivered_inflight, s.total_buffered() + s.discarded);
    assert forall|i: int| 0 <= i < s.workers.len() implies State::empty_handed(
        #[trigger] s.workers[i],
    ) by {
        assert(in_hand::<T>()(s.workers[i]) <= 0);
    }
    assert forall|id: usize| #[trigger] s.receivers.contains_key(id) implies s.receivers[
        id
    ].data.len() == 0 by {
        assert(buffered::<T>()(s.receivers[id]) <= 0);
    }
}

proof fn lemma_drained_if_nothing_pending<T>(s: State<T>)
    requires
        s.inv(),
        s.fits(),
        s.connected(),
        s.nothing_pending(),
    ensures
        s.drained(),
{
    lemma_empty_if_nothing_pending(s);
    lemma_seq_sum_bounds(s.demand, requested());
    assert forall|i: int| 0 <= i < s.workers.len() implies unsettled::<T>()(
        #[trigger] s.workers[i],
    ) >= 0 by {
        assert(State::worker_ok(s.workers[i]));
    }
    lemma_seq_sum_bounds(s.workers, unsettled());
    lemma_counts_exact(s.demand_pending, s.total_demand());
    assert forall|i: int| 0 <= i < s.workers.len() implies State::at_rest(
        #[trigger] s.workers[i],
    ) by {
        assert(State::worker_ok(s.workers[i]));
        assert(unsettled::<T>()(s.workers[i]) <= 0);
    }
    if s.demand.len() > 0 {
        assert(s.demand[0].count > 0);
        assert(requested()(s.demand[0]) <= 0);
    }
}

proof fn lemma_nothing_pending_if_drained<T>(s: State<T>)
    requires
        s.inv(),
        s.terminal_open,
        s.drained(),
    ensures
        s.nothing_pending(),
{
    lemma_seq_sum_zero(s.workers, unsettled());
    lemma_seq_sum_zero(s.workers, in_hand());
    lemma_buffered_zero(s.receivers);
    lemma_counts_exact(s.ingress_pending, 0);
    lemma_counts_exact(s.recovered_pending, 0);
    lemma_counts_exact(s.demand_pending, s.total_demand());
    lemma_counts_exact(s.active_worker_items, s.total_in_hand());
    lemma_counts_exact(s.delivered_inflight, s.total_buffered() + s.discarded);
}

proof fn lemma_buffered_zero<T>(receivers: Map<usize, ReceiverState<T>>)
    requires
        receivers.dom().finite(),
        forall|id: usize| #[trigger]
            receivers.contains_key(id) ==> receivers[id].data.len() == 0,
    ensures
        map_sum(receivers, buffered()) == 0,
    decreases receivers.dom().len(),
{
    if receivers.dom().len() > 0 {
        let first = receivers.dom().choose();
        assert(receivers.contains_key(first));
        lemma_buffered_zero(receivers.remove(first));
    }
}

/// A graceful shutdown has nothing to wait for exactly where no item and no request is anywhere
/// in the feeder and no producer is sending.
pub proof fn law_completion_means_drained<T>(s: State<T>)
    requires
        s.inv(),
        s.fits(),
        s.lifecycle == SHUTTING_DOWN,
    ensures
        s.completion_due() <==> s.drained(),
{
    if s.nothing_pending() {
        lemma_drained_if_nothing_pending(s);
    }
    if s.drained() {
        lemma_nothing_pending_if_drained(s);
    }
}

/// What completing a shutdown changes.
proof fn lemma_completion<T>(s: State<T>)
    ensures
        ({
            let t = s.try_complete();
            &&& t.lifecycle != s.lifecycle ==> s.lifecycle == SHUTTING_DOWN && t.lifecycle
                == NO_MORE_WORK && t.nothing_pending()
            &&& t == (State {
                lifecycle: t.lifecycle,
                receivers: t.receivers,
                terminal_open: t.terminal_open,
                no_more_work_emitted: t.no_more_work_emitted,
                events: t.events,
                ..s
            })
            &&& t.events == s.events || t.events == s.events.push(StatusEvent::NoMoreWork)
            &&& t.terminal_open ==> s.terminal_open
        }),
{
}

/// One state leads to another by the rules of the lifecycle.
pub open spec fn lifecycle_step(from: u8, to: u8) -> bool {
    ||| to == from
    ||| from == RUNNING
    ||| from == SHUTTING_DOWN && (to == NO_MORE_WORK || to == CANCELLED)
    ||| from == NO_MORE_WORK && to == CANCELLED
}

/// The lifecycle only goes forward: no operation takes a feeder back into service, a shutdown is
/// never taken back, and what was cancelled stays cancelled. A feeder that has stopped stays so,
/// and a sealed ingress stays sealed.
pub proof fn law_lifecycle_goes_forward<T>(s: State<T>, action: Action<T>)
    requires
        s.inv(),
        s.allows(action),
    ensures
        lifecycle_step(s.lifecycle, s.after(action).lifecycle),
        s.after(action).terminal_open ==> s.terminal_open,
        s.after(action).accepting_ingress ==> s.accepting_ingress,
        s.after(action).accepting() ==> s.accepting(),
{
    law_kept_in_order(s, action);
    lemma_changes(s, action);
}

/// What an operation can change of the lifecycle, the counters and the events.
proof fn lemma_changes<T>(s: State<T>, action: Action<T>)
    requires
        s.inv(),
        s.allows(action),
    ensures
        ({
            let t = s.after(action);
            &&& s.lifecycle != NO_MORE_WORK && t.lifecycle == NO_MORE_WORK ==> t.nothing_pending()
            &&& lifecycle_step(s.lifecycle, t.lifecycle)
            &&& t.terminal_open ==> s.terminal_open
            &&& t.accepting_ingress ==> s.accepting_ingress
            &&& s.events.len() <= t.events.len()
            &&& t.events.take(s.events.len() as int) == s.events
        }),
{
    let t = s.after(action);
    assert(s.events.take(s.events.len() as int) =~= s.events);
    match action {
        Action::Register { low, high } => {
            assert(t.events.take(s.events.len() as int) =~= s.events);
        },
        Action::ShutDown => {
            let told = State { lifecycle: SHUTTING_DOWN, ..s.sealed() }.emit(
                StatusEvent::GracefulShutdownStarted,
            );
            lemma_completion(told);
            assert(t.events.take(s.events.len() as int) =~= s.events);
        },
        Action::Cancel => {
            assert(t.events.take(s.events.len() as int) =~= s.events);
        },
        Action::Consume { id, max } => {
            lemma_consumed_changes(s, id, max);
        },
        Action::FinishDrop { id } => {
            if s.drop_can_finish(id) {
                lemma_drop_changes(s, id);
            }
        },
        Action::Work { worker } => {
            lemma_step_changes(s, worker);
        },
        _ => {},
    }
}

proof fn lemma_consumed_changes<T>(s: State<T>, id: usize, max: usize)
    requires
        s.inv(),
    ensures
        ({
            let t = s.consumed(id, max);
            &&& s.lifecycle != NO_MORE_WORK && t.lifecycle == NO_MORE_WORK ==> t.nothing_pending()
            &&& lifecycle_step(s.lifecycle, t.lifecycle)
            &&& t.terminal_open ==> s.terminal_open
            &&& t.accepting_ingress == s.accepting_ingress
            &&& s.events.len() <= t.events.len()
            &&& t.events.take(s.events.len() as int) == s.events
        }),
{
    let t = s.consumed(id, max);
    assert(s.events.take(s.events.len() as int) =~= s.events);
    let got = s.available(id, max);
    if got != 0 {
        let receiver = s.receivers[id];
        let counted = s.with_receiver(
            id,
            ReceiverState { data: receiver.data.skip(got), ..receiver },
        ).consumption_counted(id, got as usize);
        let reported = counted.refilled(id).lag_updated(id, max, got as usize);
        lemma_completion(reported);
        assert(t.events.take(s.events.len() as int) =~= s.events);
    }
}

proof fn lemma_drop_changes<T>(s: State<T>, id: usize)
    requires
        s.inv(),
        s.drop_can_finish(id),
    ensures
        ({
            let t = s.drop_finished(id);
            &&& s.lifecycle != NO_MORE_WORK && t.lifecycle == NO_MORE_WORK ==> t.nothing_pending()
            &&& lifecycle_step(s.lifecycle, t.lifecycle)
            &&& t.terminal_open ==> s.terminal_open
            &&& t.accepting_ingress == s.accepting_ingress
            &&& s.events.len() <= t.events.len()
            &&& t.events.take(s.events.len() as int) == s.events
        }),
{
    let t = s.drop_finished(id);
    let receiver = s.receivers[id];
    assert(s.receiver_ok(receiver));
    let items = receiver.data;
    let emptied = State {
        delivered_inflight: s.delivered_inflight.wrapping_sub(items.len() as usize),
        ..s
    };
    lemma_all_recovered(emptied, items);
    assert(t.events.take(s.events.len() as int) =~= s.events);
}

#[verifier::rlimit(40)]
proof fn lemma_step_changes<T>(s: State<T>, worker: int)
    requires
        s.inv(),
        0 <= worker < s.workers.len(),
    ensures
        ({
            let t = s.worker_step(worker).0;
            &&& s.lifecycle != NO_MORE_WORK && t.lifecycle == NO_MORE_WORK ==> t.nothing_pending()
            &&& lifecycle_step(s.lifecycle, t.lifecycle)
            &&& t.terminal_open ==> s.terminal_open
            &&& t.accepting_ingress == s.accepting_ingress
            &&& s.events.len() <= t.events.len()
            &&& t.events.take(s.events.len() as int) == s.events
        }),
{
    let t = s.worker_step(worker).0;
    assert(s.events.take(s.events.len() as int) =~= s.events);
    assert(t.events.take(s.events.len() as int) =~= s.events);
}

/// Where an operation completes a shutdown, no item is left anywhere, and every counter of what is
/// pending is at zero. No request is left either, where the requests can be counted.
pub proof fn law_completes_only_when_drained<T>(s: State<T>, action: Action<T>)
    requires
        s.inv(),
        s.allows(action),
        s.after(action).items_fit(),
        s.lifecycle != NO_MORE_WORK,
        s.after(action).lifecycle == NO_MORE_WORK,
    ensures
        s.after(action).empty(),
        s.after(action).nothing_pending(),
        s.after(action).fits() ==> s.after(action).drained(),
{
    law_kept_in_order(s, action);
    lemma_changes(s, action);
    lemma_still_connected(s, action);
    lemma_empty_if_nothing_pending(s.after(action));
    if s.after(action).fits() {
        lemma_drained_if_nothing_pending(s.after(action));
    }
}

proof fn lemma_still_connected<T>(s: State<T>, action: Action<T>)
    requires
        s.inv(),
        s.allows(action),
        s.lifecycle != NO_MORE_WORK,
        s.after(action).lifecycle == NO_MORE_WORK,
    ensures
        s.after(action).connected(),
{
    match action {
        Action::FinishDrop { id } => {
            let receiver = s.receivers[id];
            assert(s.receiver_ok(receiver));
            let emptied = State {
                delivered_inflight: s.delivered_inflight.wrapping_sub(
                    receiver.data.len() as usize,
                ),
                ..s
            };
            lemma_all_recovered(emptied, receiver.data);
        },
        _ => {},
    }
}

/// The status sink is told of each event on the feeder as a whole at most once, and of the end of
/// a shutdown only after its start.
pub proof fn law_told_once<T>(s: State<T>)
    requires
        s.inv(),
    ensures
        occurrences(s.events, StatusEvent::GracefulShutdownStarted) <= 1,
        occurrences(s.events, StatusEvent::NoMoreWork) <= 1,
        occurrences(s.events, StatusEvent::Cancelled) <= 1,
        occurrences(s.events, StatusEvent::SchedulerExited) <= 1,
        occurrences(s.events, StatusEvent::NoMoreWork) == 1 ==> occurrences(
            s.events,
            StatusEvent::GracefulShutdownStarted,
        ) == 1,
        occurrences(s.events, StatusEvent::SchedulerExited) == 1 <==> !s.connected(),
        s.lifecycle == NO_MORE_WORK ==> occurrences(s.events, StatusEvent::NoMoreWork) == 1
            && occurrences(s.events, StatusEvent::Cancelled) == 0,
{
}

/// No operation takes back what the status sink was told.
pub proof fn law_told_for_good<T>(s: State<T>, action: Action<T>)
    requires
        s.inv(),
        s.allows(action),
    ensures
        s.events.is_prefix_of(s.after(action).events),
{
    lemma_changes(s, action);
}

/// Once a graceful shutdown has started, nothing more comes in.
pub proof fn law_nothing_accepted_after_seal<T>(s: State<T>, action: Action<T>)
    requires
        s.inv(),
        s.lifecycle == SHUTTING_DOWN || s.lifecycle == NO_MORE_WORK,
    ensures
        s.accepted_by(action).len() == 0,
        !s.accepting(),
        s.send_begun() == s,
{
}

/// A shutdown that was completed stays so: nothing comes in, nothing is handed out and nothing
/// turns up again. The counters of pending items stay at zero, and so does that of requests where
/// none was left.
pub proof fn law_completed_stays_empty<T>(s: State<T>, action: Action<T>)
    requires
        s.inv(),
        s.allows(action),
        s.lifecycle == NO_MORE_WORK,
        s.empty(),
    ensures
        s.after(action).empty(),
        s.accepted_by(action).len() == 0,
        s.consumed_by(action).len() == 0,
        s.no_items_pending() ==> s.after(action).no_items_pending(),
        s.drained() ==> s.after(action).drained(),
        s.drained() && s.nothing_pending() ==> s.after(action).nothing_pending(),
{
    let t = s.after(action);
    match action {
        Action::Cancel => {
            assert(s.all_closed().receivers.dom() =~= s.receivers.dom());
        },
        Action::Consume { id, max } => {
            assert(s.available(id, max) == 0);
        },
        Action::FinishDrop { id } => {
            if s.drop_can_finish(id) {
                let emptied = State {
                    delivered_inflight: s.delivered_inflight.wrapping_sub(0),
                    ..s
                };
                lemma_all_recovered(emptied, s.receivers[id].data);
            }
        },
        Action::Work { worker } => {
            assert(State::empty_handed(s.workers[worker]));
            if let WorkerState::Serving { receiver, count } = s.workers[worker] {
                assert(State::worker_ok(s.workers[worker]));
                lemma_served_known(s, worker, receiver);
                assert(s.receiver_ok(s.receivers[receiver]));
            }
        },
        _ => {},
    }
}

/// What is requested for a receiver and not yet consumed never exceeds its high water mark, and
/// covers what the receiver has buffered and what is still owed to it.
pub proof fn law_requests_bounded<T>(s: State<T>, id: usize)
    requires
        s.inv(),
        s.receivers.contains_key(id),
    ensures
        s.receivers[id].outstanding <= s.receivers[id].high_water,
        s.receivers[id].data.len() + s.owed_to(id) <= s.receivers[id].outstanding,
        s.terminal_open && !s.receivers[id].closing ==> s.receivers[id].outstanding
            == s.receivers[id].data.len() + s.owed_to(id),
{
    assert(s.receiver_ok(s.receivers[id]));
    assert(s.owed_to(id) == s.recorded_owed(id));
}

/// A new receiver requests as many items as its high water mark says, in one command.
pub proof fn law_registration_requests_high<T>(s: State<T>, low: usize, high: usize)
    requires
        s.inv(),
        s.receiver_refusal(low, high) is None,
    ensures
        ({
            let t = s.receiver_requested(low, high);
            &&& t.demand == s.demand.push(DemandCommand { receiver: s.next_id, count: high })
            &&& t.receivers[s.next_id].outstanding == high
            &&& t.receivers[s.next_id].owed == high
            &&& t.receivers[s.next_id].data.len() == 0
            &&& t.receivers.remove(s.next_id) == s.receivers
            &&& t.events == s.events.push(
                StatusEvent::ReceiverRegistered { receiver_id: ReceiverId(s.next_id) },
            )
        }),
{
    let t = s.receiver_requested(low, high);
    assert(t.receivers.remove(s.next_id) =~= s.receivers);
}

/// A receiver that takes `got` items and is left below its low water mark requests exactly what
/// it lacks to its high water mark, in one command. One that is not below requests nothing.
pub proof fn law_refill<T>(s: State<T>, id: usize, max: usize)
    requires
        s.inv(),
        s.connected(),
        s.receivers.contains_key(id),
        s.receivers[id].tx_open,
        s.available(id, max) > 0,
    ensures
        ({
            let r = s.receivers[id];
            let t = s.consumed(id, max);
            let left = r.outstanding - s.available(id, max);
            &&& left >= 0
            &&& t.receivers[id].outstanding == if left < r.low_water {
                r.high_water as int
            } else {
                left
            }
            &&& t.demand == if left < r.low_water {
                s.demand.push(
                    DemandCommand { receiver: id, count: (r.high_water - left) as usize },
                )
            } else {
                s.demand
            }
        }),
{
    let r = s.receivers[id];
    assert(s.receiver_ok(r));
    let got = s.available(id, max);
    let counted = s.with_receiver(
        id,
        ReceiverState { data: r.data.skip(got), ..r },
    ).consumption_counted(id, got as usize);
    let refilled = counted.refilled(id);
    let reported = refilled.lag_updated(id, max, got as usize);
    lemma_completion(reported);
    assert(reported.receivers[id].outstanding == refilled.receivers[id].outstanding);
    assert(s.consumed(id, max).receivers[id].outstanding == reported.receivers[id].outstanding);
}

/// In service, a read that gives items is reported where the receiver starts to get less than it
/// asks for, and where it gets enough again. A read that changes neither is not reported.
pub proof fn law_lag_told_once<T>(s: State<T>, id: usize, max: usize)
    requires
        s.inv(),
        s.lifecycle == RUNNING,
        s.receivers.contains_key(id),
        s.available(id, max) > 0,
    ensures
        ({
            let got = s.available(id, max) as usize;
            let t = s.consumed(id, max);
            &&& t.receivers[id].lagging == (got < max)
            &&& t.events == if got < max && !s.receivers[id].lagging {
                s.events.push(
                    StatusEvent::Lagging {
                        receiver_id: ReceiverId(id),
                        requested: max,
                        received: got,
                    },
                )
            } else if got == max && s.receivers[id].lagging {
                s.events.push(StatusEvent::Recovered { receiver_id: ReceiverId(id) })
            } else {
                s.events
            }
        }),
{
}

/// What was taken back from a receiver is delivered before what was newly sent.
pub proof fn law_recovered_items_first<T>(s: State<T>)
    requires
        s.recovered.len() > 0,
    ensures
        s.next_item() == Some(s.recovered[0]),
        s.item_taken().recovered == s.recovered.drop_first(),
        s.item_taken().ingress == s.ingress,
{
}

/// A receiver that is dropped while the feeder is in service loses nothing: what it had buffered
/// goes, in order, to the end of what was taken back, and can no longer be read from it.
pub proof fn law_drop_recovers_all<T>(s: State<T>, id: usize)
    requires
        s.inv(),
        s.terminal_open,
        s.drop_can_finish(id),
    ensures
        s.drop_finished(id).recovered == s.recovered + s.receivers[id].data,
        s.drop_finished(id).ingress == s.ingress,
        s.drop_finished(id).workers == s.workers,
        !s.drop_finished(id).readable(id),
        forall|other: usize|
            other != id && #[trigger] s.receivers.contains_key(other) ==> s.drop_finished(
                id,
            ).receivers.contains_key(other) && s.drop_finished(id).receivers[other].data
                == s.receivers[other].data,
{
    let receiver = s.receivers[id];
    assert(s.receiver_ok(receiver));
    let emptied = State {
        delivered_inflight: s.delivered_inflight.wrapping_sub(receiver.data.len() as usize),
        ..s
    };
    lemma_all_recovered(emptied, receiver.data);
}

/// A worker waits only where it has no request and none is queued, or where no item is queued for
/// the request that it has. It then holds no item, keeps no receiver from being dropped, and has
/// changed nothing.
pub proof fn law_waiting_worker_holds_nothing<T>(s: State<T>, worker: int)
    requires
        s.inv(),
        0 <= worker < s.workers.len(),
        s.worker_step(worker).1 is Wait,
    ensures
        s.worker_step(worker).0 == s,
        s.terminal_open,
        s.workers[worker] is Idle || s.workers[worker] is Serving,
        s.workers[worker] is Idle ==> s.demand.len() == 0,
        s.workers[worker] is Serving ==> s.ingress.len() == 0 && s.recovered.len() == 0,
        forall|id: usize| sending_to::<T>(id)(#[trigger] s.workers[worker]) == 0,
{
    if let WorkerState::Serving { receiver, count } = s.workers[worker] {
        assert(State::worker_ok(s.workers[worker]));
        lemma_served_known(s, worker, receiver);
        assert(s.receiver_ok(s.receivers[receiver]));
    }
}

/// Once a feeder has stopped, its workers never wait: they give up what they have and end.
pub proof fn law_stopped_workers_never_wait<T>(s: State<T>, worker: int)
    requires
        s.inv(),
        0 <= worker < s.workers.len(),
        !s.terminal_open,
    ensures
        s.worker_step(worker).1 !is Wait,
{
    if let WorkerState::Serving { receiver, count } = s.workers[worker] {
        assert(State::worker_ok(s.workers[worker]));
        lemma_served_known(s, worker, receiver);
        assert(s.receiver_ok(s.receivers[receiver]));
    }
}

/// How many steps a worker has left at most with what it has in its hands.
pub open spec fn steps_in_hand<T>() -> spec_fn(WorkerState<T>) -> int {
    |worker: WorkerState<T>|
        match worker {
            WorkerState::Exited => 0int,
            WorkerState::Idle => 1int,
            WorkerState::Serving { receiver, count } => 4int,
            WorkerState::Holding { receiver, count, item } => 7int,
            WorkerState::Sending { receiver, count, item, fulfilled } => 6int,
        }
}

impl<T> State<T> {
    /// How many steps the workers have left at most, unless others act.
    pub open spec fn steps_left(self) -> int {
        4 * self.ingress.len() + 4 * self.recovered.len() + 4 * self.demand.len() + seq_sum(
            self.workers,
            steps_in_hand(),
        ) + if self.lifecycle == SHUTTING_DOWN {
            1int
        } else {
            0int
        }
    }
}

/// Workers come to rest: each step of a worker that has not ended, and does not wait, leaves them
/// fewer steps to do. So, unless others act, there is a moment when every worker waits or has
/// ended; and once the feeder has stopped, where no worker waits, they all end.
pub proof fn law_workers_come_to_rest<T>(s: State<T>, worker: int)
    requires
        s.inv(),
        0 <= worker < s.workers.len(),
        s.workers[worker] !is Exited,
        s.worker_step(worker).1 !is Wait,
    ensures
        0 <= s.worker_step(worker).0.steps_left() < s.steps_left(),
{
    let t = s.worker_step(worker).0;
    assert(State::worker_ok(s.workers[worker]));
    match s.workers[worker] {
        WorkerState::Serving { receiver, count } => {
            lemma_served_known(s, worker, receiver);
        },
        WorkerState::Holding { receiver, count, item } => {
            lemma_served_known(s, worker, receiver);
        },
        WorkerState::Sending { receiver, count, item, fulfilled } => {
            lemma_served_known(s, worker, receiver);
        },
        _ => {},
    }
    let next = t.workers[worker];
    lemma_seq_sum_update(s.workers, worker, next, steps_in_hand());
    assert(t.workers =~= s.workers.update(worker, next));
    lemma_seq_sum_bounds(t.workers, steps_in_hand());
}

/// A worker that is sending always finds the receiver there, still able to take what is sent.
pub proof fn law_sends_arrive<T>(s: State<T>, worker: int)
    requires
        s.inv(),
        0 <= worker < s.workers.len(),
    ensures
        s.workers[worker] matches WorkerState::Sending {
            receiver,
            count,
            item,
            fulfilled,
        } ==> s.receivers.contains_key(receiver) && s.receivers[receiver].rx_open
            && s.receivers[receiver].tx_open && count <= s.receivers[receiver].owed
            && s.receivers[receiver].active_sends > 0,
{
    if let WorkerState::Sending { receiver, count, item, fulfilled } = s.workers[worker] {
        assert(State::worker_ok(s.workers[worker]));
        lemma_served_known(s, worker, receiver);
    }
}

/// Dropping a receiver is never held up for long: where a worker keeps it from finishing, that
/// worker is sending, does not wait, and stops sending with its next step.
pub proof fn law_drop_not_held_up<T>(s: State<T>, id: usize)
    requires
        s.inv(),
        s.receivers.contains_key(id),
        s.receivers[id].draining,
        !s.drop_can_finish(id),
    ensures
        exists|worker: int|
            0 <= worker < s.workers.len() && #[trigger] sending_to::<T>(id)(s.workers[worker]) == 1,
        forall|worker: int|
            0 <= worker < s.workers.len() && #[trigger] sending_to::<T>(id)(s.workers[worker]) == 1
                ==> s.worker_step(worker).1 is Progress && sending_to::<T>(id)(
                s.worker_step(worker).0.workers[worker],
            ) == 0,
{
    assert(s.receiver_ok(s.receivers[id]));
    assert(s.sends_to(id) == s.recorded_sends(id));
    if forall|worker: int|
        0 <= worker < s.workers.len() ==> #[trigger] sending_to::<T>(id)(s.workers[worker]) == 0 {
        assert forall|i: int| 0 <= i < s.workers.len() implies sending_to::<T>(id)(
            #[trigger] s.workers[i],
        ) == 0 by {}
        lemma_seq_sum_zero(s.workers, sending_to(id));
    }
    assert forall|worker: int|
        0 <= worker < s.workers.len() && #[trigger] sending_to::<T>(id)(s.workers[worker])
            == 1 implies s.worker_step(worker).1 is Progress && sending_to::<T>(id)(
        s.worker_step(worker).0.workers[worker],
    ) == 0 by {
        assert(State::worker_ok(s.workers[worker]));
        lemma_served_known(s, worker, id);
    }
}

/// A shutdown stands still only for its consumers: where every worker waits or has ended, no
/// producer is sending and nothing is buffered, there are items and nobody requests them.
pub proof fn law_shutdown_waits_for_consumers_only<T>(s: State<T>)
    requires
        s.inv(),
        s.fits(),
        s.lifecycle == SHUTTING_DOWN,
        s.active_producer_sends == 0,
        forall|worker: int|
            0 <= worker < s.workers.len() ==> (#[trigger] s.worker_step(worker)).1 !is Progress,
        forall|id: usize| #[trigger]
            s.receivers.contains_key(id) ==> s.receivers[id].data.len() == 0,
    ensures
        s.demand.len() == 0,
        forall|id: usize| #[trigger]
            s.receivers.contains_key(id) ==> s.receivers[id].owed == 0,
        s.ingress.len() + s.recovered.len() > 0,
{
    assert forall|i: int| 0 <= i < s.workers.len() implies in_hand::<T>()(#[trigger] s.workers[i])
        == 0 by {
        assert(s.worker_step(i).1 !is Progress);
    }
    lemma_seq_sum_zero(s.workers, in_hand());
    lemma_counts_exact(s.active_worker_items, 0);
    lemma_counts_exact(s.ingress_pending, s.ingress.len() as int);
    lemma_counts_exact(s.recovered_pending, s.recovered.len() as int);
    assert forall|i: int| 0 <= i < s.workers.len() implies State::at_rest(
        #[trigger] s.workers[i],
    ) by {
        assert(s.worker_step(i).1 !is Progress);
    }
    if s.demand.len() > 0 {
        assert forall|i: int| 0 <= i < s.workers.len() implies running::<T>()(
            #[trigger] s.workers[i],
        ) == 0 by {
            assert(s.worker_step(i).1 !is Progress);
        }
        lemma_seq_sum_zero(s.workers, running());
        assert(false);
    }
    assert forall|id: usize| #[trigger] s.receivers.contains_key(id) implies s.receivers[id].owed
        == 0 by {
        assert(s.owed_to(id) == s.recorded_owed(id));
        lemma_seq_sum_zero(s.workers, owed_by_worker(id));
    }
    if s.ingress.len() + s.recovered.len() == 0 {
        assert(s.drained());
        law_completion_means_drained(s);
        assert(s.completion_due());
        let worker = choose|i: int| 0 <= i < s.workers.len() && s.workers[i] is Idle;
        if forall|i: int| 0 <= i < s.workers.len() ==> #[trigger] s.workers[i] is Exited {
            lemma_seq_sum_zero(s.workers, running());
        }
        assert(s.worker_step(worker).1 is Progress);
    }
}

/// Where all workers have ended, a receiver that was not given up gets what it has buffered and is
/// then told the reason: it does not wait.
pub proof fn law_nobody_waits_after_the_end<T>(s: State<T>, id: usize)
    requires
        s.inv(),
        !s.connected(),
    ensures
        s.more_to_come(id) ==> s.receivers[id].dropped,
{
    if s.receivers.contains_key(id) {
        assert(s.receiver_ok(s.receivers[id]));
        assert(s.owed_to(id) == s.recorded_owed(id));
        lemma_seq_sum_bounds(s.workers, running());
        assert forall|i: int| 0 <= i < s.workers.len() implies owed_by_worker::<T>(id)(
            #[trigger] s.workers[i],
        ) == 0 by {
            assert(running::<T>()(s.workers[i]) <= 0);
        }
        lemma_seq_sum_zero(s.workers, owed_by_worker(id));
    }
}

/// What is requested for a receiver that has left the registry is given up: a worker that takes
/// such a request abandons all of it and delivers nothing.
pub proof fn law_closing_demand_abandoned<T>(s: State<T>, worker: int, id: usize, count: usize)
    requires
        s.inv(),
        0 <= worker < s.workers.len(),
        s.workers[worker] == (WorkerState::<T>::Serving { receiver: id, count }),
        s.receivers[id].closing,
    ensures
        ({
            let t = s.worker_step(worker).0;
            &&& t.workers[worker] is Idle
            &&& t.demand_pending == s.demand_pending.wrapping_sub(count)
            &&& t.scheduler_stats.demand_abandoned
                == s.scheduler_stats.demand_abandoned.wrapping_add(count as u64)
            &&& t.ingress == s.ingress
            &&& t.recovered == s.recovered
            &&& t.receivers.contains_key(id) ==> t.receivers[id].data == s.receivers[id].data
            &&& t.owed_to(id) == s.owed_to(id) - count
        }),
{
    assert(State::worker_ok(s.workers[worker]));
    lemma_worker_changed(s, worker, WorkerState::Idle);
    assert(seq_sum(
        s.workers.update(worker, WorkerState::Idle),
        owed_by_worker::<T>(id),
    ) == seq_sum(s.workers, owed_by_worker(id)) - count);
}

/// Identifiers are given out in ascending order, each once, as long as the counter does not wrap
/// around.
pub proof fn law_identifiers_ascend<T>(s: State<T>, action: Action<T>)
    requires
        s.inv(),
        s.allows(action),
        s.next_id < usize::MAX,
    ensures
        s.after(action).next_id == s.next_id || s.after(action).next_id == s.next_id + 1,
        action is AllocateId ==> s.after(action).next_id == s.next_id + 1,
        action matches Action::Register { low, high } ==> (s.receiver_refusal(low, high) is None
            ==> s.after(action).next_id == s.next_id + 1),
{
    match action {
        Action::FinishDrop { id } => {
            if s.drop_can_finish(id) {
                let receiver = s.receivers[id];
                assert(s.receiver_ok(receiver));
                let emptied = State {
                    delivered_inflight: s.delivered_inflight.wrapping_sub(
                        receiver.data.len() as usize,
                    ),
                    ..s
                };
                lemma_all_recovered(emptied, receiver.data);
            }
        },
        _ => {},
    }
}

/// Resetting sets every counter of the statistics to zero, but for the number of workers, and
/// touches nothing else.
pub proof fn law_reset_clears<T>(s: State<T>)
    ensures
        s.stats_cleared().stats().scheduler == s.scheduler_stats.cleared().with_pending(
            s.ingress_pending,
            s.demand_pending,
            s.recovered_pending,
            s.active_worker_items,
            s.delivered_inflight,
        ),
        s.stats_cleared().stats().consumers == ConsumerStats::zero().copied(),
        s.stats_cleared() == (State {
            scheduler_stats: s.stats_cleared().scheduler_stats,
            consumer_stats: s.stats_cleared().consumer_stats,
            ..s
        }),
        s.stats_cleared().same_items(s),
{
    lemma_total_of_zeros(s.consumer_stats.len());
}

proof fn lemma_total_of_zeros(n: nat)
    ensures
        ConsumerStatsSnapshot::total(Seq::new(n, |i: int| ConsumerStats::zero()))
            == (ConsumerStatsSnapshot { get_calls: 0, items_consumed: 0, refill_messages: 0 }),
    decreases n,
{
    if n > 0 {
        let all = Seq::new(n, |i: int| ConsumerStats::zero());
        lemma_total_of_zeros((n - 1) as nat);
        assert(all.drop_last() =~= Seq::new((n - 1) as nat, |i: int| ConsumerStats::zero()));
    }
}

/// A feeder keeps its workers: none is added, and one that has ended is still counted as ended.
#[verifier::rlimit(40)]
pub proof fn law_workers_stay<T>(s: State<T>, action: Action<T>)
    requires
        s.inv(),
        s.allows(action),
    ensures
        s.after(action).workers.len() == s.workers.len(),
        forall|i: int|
            0 <= i < s.workers.len() && #[trigger] s.workers[i] is Exited ==> s.after(
                action,
            ).workers[i] is Exited,
{
    match action {
        Action::FinishDrop { id } => {
            if s.drop_can_finish(id) {
                let receiver = s.receivers[id];
                assert(s.receiver_ok(receiver));
                let emptied = State {
                    delivered_inflight: s.delivered_inflight.wrapping_sub(
                        receiver.data.len() as usize,
                    ),
                    ..s
                };
                lemma_all_recovered(emptied, receiver.data);
            }
        },
        _ => {},
    }
}

/// While a feeder accepts items, what is sent to it joins the end of its ingress queue, in order,
/// and nothing else happens to any item. Where it does not, sending changes nothing.
pub proof fn law_sent_items_are_queued<T>(s: State<T>, items: Seq<T>)
    requires
        s.inv(),
        s.active_producer_sends < usize::MAX,
    ensures
        s.accepting() ==> s.send_begun().send_can_finish(),
        s.accepting() ==> s.sent(items).ingress == s.ingress + items,
        s.sent(items).recovered == s.recovered,
        s.sent(items).workers == s.workers,
        s.sent(items).receivers == s.receivers,
        s.sent(items).active_producer_sends == s.active_producer_sends,
        !s.accepting() ==> s.sent(items) == s,
{
}

} // verus!
