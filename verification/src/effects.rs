//! What each operation of producers, receivers and owners of a feeder does, told by what is there
//! before it and after it.

use vstd::prelude::*;
use crate::history::Action;
use crate::laws::law_stopped_workers_never_wait;
use crate::model::{DemandCommand, ReceiverState, State, WorkerState};
use crate::preserve::lemma_served_known;
use crate::stats::{ConsumerStats, ConsumerStatsSnapshot, SchedulerStats};
use crate::status::StatusEvent;
use crate::tally::seq_sum;
use crate::types::{
    send_error, AccessError, ReceiverId, SendError, CANCELLED, NO_MORE_WORK, RUNNING, SHUTTING_DOWN,
};

verus! {

/// Every receiver of `before` is still there, has left the registry and is otherwise as it was. Its
/// sending end is kept only where something is still owed to it or has to be taken back from it.
pub open spec fn all_unregistered<T>(
    before: Map<usize, ReceiverState<T>>,
    after: Map<usize, ReceiverState<T>>,
) -> bool {
    &&& after.dom() == before.dom()
    &&& forall|id: usize| #[trigger]
        before.contains_key(id) ==> {
            &&& after[id].closing
            &&& after[id].tx_open <==> before[id].tx_open && (before[id].owed > 0
                || before[id].draining)
            &&& after[id] == (ReceiverState {
                closing: after[id].closing,
                tx_open: after[id].tx_open,
                ..before[id]
            })
        }
}

/// A new feeder is in service: it accepts items, has nothing queued, no receiver and no request,
/// and all its workers are idle. All counters are at zero, and nothing was told yet.
pub proof fn law_new_feeder<T>(worker_count: usize)
    ensures
        ({
            let s = State::<T>::initial(worker_count);
            &&& s.lifecycle == RUNNING
            &&& s.accepting_ingress
            &&& s.terminal_open
            &&& s.next_id == 1
            &&& s.ingress.len() == 0 && s.recovered.len() == 0 && s.demand.len() == 0
            &&& s.receivers.dom() == Set::<usize>::empty()
            &&& s.workers.len() == worker_count
            &&& forall|i: int|
                0 <= i < worker_count ==> #[trigger] s.workers[i] is Idle
            &&& s.active_workers == worker_count
            &&& s.nothing_pending()
            &&& !s.cancelled_emitted && !s.no_more_work_emitted
            &&& s.scheduler_stats.worker_count == worker_count
            &&& s.scheduler_stats.ingress_accepted == 0
            &&& s.scheduler_stats.ingress_consumed == 0
            &&& s.scheduler_stats.demand_commands == 0
            &&& s.scheduler_stats.demand_requested == 0
            &&& s.scheduler_stats.demand_fulfilled == 0
            &&& s.scheduler_stats.demand_abandoned == 0
            &&& s.scheduler_stats.recovered_enqueued == 0
            &&& s.scheduler_stats.recovered_routed == 0
            &&& s.scheduler_stats.output_routed == 0
            &&& s.scheduler_stats.receiver_drop_recovered == 0
            &&& s.consumer_stats.len() == 0
            &&& s.discarded == 0 && s.unheard == 0
            &&& s.events.len() == 0
        }),
{
    assert(State::<T>::initial(worker_count).receivers.dom() =~= Set::<usize>::empty());
}

/// An identifier is given out: the next one is greater by one, or zero after the greatest. Nothing
/// else changes.
pub proof fn law_identifier_given_out<T>(s: State<T>)
    ensures
        ({
            let t = s.after(Action::AllocateId);
            &&& t.next_id == if s.next_id == usize::MAX {
                0
            } else {
                s.next_id + 1
            }
            &&& t == (State { next_id: t.next_id, ..s })
        }),
{
}

// ---- producers ----

/// A producer can start to send exactly where the feeder is in service and ingress is not sealed.
/// It is then counted, and nothing else changes.
pub proof fn law_send_starts<T>(s: State<T>)
    ensures
        s.accepting() <==> s.lifecycle == RUNNING && s.accepting_ingress,
        ({
            let t = s.after(Action::BeginSend);
            &&& t == (State { active_producer_sends: t.active_producer_sends, ..s })
            &&& t.active_producer_sends == if s.lifecycle != RUNNING || !s.accepting_ingress {
                s.active_producer_sends as int
            } else if s.active_producer_sends == usize::MAX {
                0
            } else {
                s.active_producer_sends + 1
            }
        }),
{
}

/// A producer that has started to send, and finishes while a worker is left, puts its items at the
/// end of ingress, in order. They are counted as accepted and as pending. Where no worker is left,
/// the producer only stops being counted. Where no producer has started, nothing happens.
pub proof fn law_send_finishes<T>(s: State<T>, items: Seq<T>)
    requires
        items.len() <= usize::MAX,
    ensures
        s.send_can_finish() <==> s.active_producer_sends > 0 && s.active_workers > 0,
        ({
            let t = s.after(Action::FinishSend { items });
            &&& s.active_producer_sends == 0 ==> t == s
            &&& s.active_producer_sends > 0 ==> t.active_producer_sends
                == s.active_producer_sends - 1
            &&& s.active_producer_sends > 0 && s.active_workers == 0 ==> t == (State {
                active_producer_sends: t.active_producer_sends,
                ..s
            })
            &&& s.active_producer_sends > 0 && s.active_workers > 0 ==> {
                &&& t.ingress == s.ingress + items
                &&& t.ingress_pending == s.ingress_pending.wrapping_add(items.len() as usize)
                &&& t.scheduler_stats == (SchedulerStats {
                    ingress_accepted: s.scheduler_stats.ingress_accepted.wrapping_add(
                        items.len() as u64,
                    ),
                    ..s.scheduler_stats
                })
                &&& t == (State {
                    active_producer_sends: t.active_producer_sends,
                    ingress: t.ingress,
                    ingress_pending: t.ingress_pending,
                    scheduler_stats: t.scheduler_stats,
                    ..s
                })
            }
        }),
{
}

/// What is sent without anyone acting in between is accepted exactly where the feeder is in
/// service, ingress is not sealed and a worker is left: starting and finishing come to the same as
/// sending. Where the feeder is not in service, or ingress is sealed, nothing happens.
pub proof fn law_send_is_start_and_finish<T>(s: State<T>, items: Seq<T>)
    requires
        s.active_producer_sends < usize::MAX,
        items.len() <= usize::MAX,
    ensures
        s.lifecycle == RUNNING && s.accepting_ingress ==> {
            &&& s.send_begun().send_can_finish() <==> s.active_workers > 0
            &&& s.sent(items) == s.after(Action::BeginSend).after(Action::FinishSend { items })
            &&& s.sent(items).active_producer_sends == s.active_producer_sends
            &&& s.active_workers > 0 ==> s.sent(items).ingress == s.ingress + items
            &&& s.active_workers == 0 ==> s.sent(items) == s
        },
        s.lifecycle != RUNNING || !s.accepting_ingress ==> s.sent(items) == s,
{
}

/// Who is refused an item gets it back, with the reason: the feeder was cancelled, has no more
/// work, or accepts nothing any more.
pub proof fn law_refused_item_comes_back<T>(state: u8, accepting: bool, item: T)
    ensures
        ({
            let error = send_error(state, accepting, item);
            &&& error is Cancelled <==> state == CANCELLED
            &&& error is NoMoreWork <==> state == NO_MORE_WORK
            &&& error is IngressSealed <==> state == SHUTTING_DOWN || (state == RUNNING
                && !accepting)
            &&& match error {
                SendError::Cancelled(back) => back == item,
                SendError::NoMoreWork(back) => back == item,
                SendError::IngressSealed(back) => back == item,
                SendError::SchedulerStopped(back) => back == item,
            }
        }),
{
}

// ---- handles ----

/// A handle is given out exactly while the feeder is in service or shuts down. Else the reason is
/// the one that fits the lifecycle.
pub proof fn law_handle_refused<T>(s: State<T>)
    ensures
        s.refusal() is None <==> s.lifecycle == RUNNING || s.lifecycle == SHUTTING_DOWN,
        s.refusal() == Some(AccessError::Cancelled) <==> s.lifecycle == CANCELLED,
        s.refusal() == Some(AccessError::NoMoreWork) <==> s.lifecycle == NO_MORE_WORK,
        s.refusal() is Some && s.lifecycle != CANCELLED && s.lifecycle != NO_MORE_WORK
            ==> s.refusal() == Some(AccessError::SchedulerStopped),
{
}

/// A receiver is refused for its water marks exactly where the low one is not less than the high
/// one. Every other pair of marks is taken, while the feeder is in service or shuts down and the
/// next identifier is free.
pub proof fn law_receiver_refused<T>(s: State<T>, low: usize, high: usize)
    ensures
        s.receiver_refusal(low, high) == Some(AccessError::InvalidWaterMarks) <==> low >= high,
        s.receiver_refusal(low, high) is None <==> low < high && (s.lifecycle == RUNNING
            || s.lifecycle == SHUTTING_DOWN) && !s.receivers.contains_key(s.next_id),
        low < high ==> {
            &&& s.receiver_refusal(low, high) == Some(AccessError::Cancelled) <==> s.lifecycle
                == CANCELLED
            &&& s.receiver_refusal(low, high) == Some(AccessError::NoMoreWork) <==> s.lifecycle
                == NO_MORE_WORK
            &&& s.receiver_refusal(low, high) is Some && s.lifecycle != CANCELLED && s.lifecycle
                != NO_MORE_WORK ==> s.receiver_refusal(low, high) == Some(
                AccessError::SchedulerStopped,
            )
        },
{
}

/// A receiver that is asked for with a low mark below its high mark, while the feeder is in service
/// or shuts down, is registered under the next identifier. It is empty, both its ends are there,
/// and `high` items are requested for it by one command. Nothing happens to anything else.
pub proof fn law_receiver_registered<T>(s: State<T>, low: usize, high: usize)
    requires
        s.inv(),
        low < high,
        s.lifecycle == RUNNING || s.lifecycle == SHUTTING_DOWN,
        !s.receivers.contains_key(s.next_id),
        s.consumer_stats.len() < usize::MAX,
    ensures
        ({
            let id = s.next_id;
            let t = s.after(Action::Register { low, high });
            let r = t.receivers[id];
            &&& t.receivers == s.receivers.insert(id, r)
            &&& r.data.len() == 0
            &&& r.rx_open && r.tx_open
            &&& !r.closing && !r.draining && !r.dropped && !r.lagging
            &&& r.active_sends == 0
            &&& r.outstanding == high && r.owed == high
            &&& r.low_water == low && r.high_water == high
            &&& r.stats == s.consumer_stats.len()
            &&& t.consumer_stats == s.consumer_stats.push(t.consumer_stats.last())
            &&& t.consumer_stats.last() == (ConsumerStats {
                get_calls: 0,
                items_consumed: 0,
                refill_messages: 0,
            })
            &&& t.demand == s.demand.push(DemandCommand { receiver: id, count: high })
            &&& t.demand_pending == s.demand_pending.wrapping_add(high)
            &&& t.scheduler_stats == (SchedulerStats {
                demand_commands: s.scheduler_stats.demand_commands.wrapping_add(1),
                demand_requested: s.scheduler_stats.demand_requested.wrapping_add(high as u64),
                ..s.scheduler_stats
            })
            &&& t.next_id == s.next_id.wrapping_add(1)
            &&& t.events == s.events.push(
                StatusEvent::ReceiverRegistered { receiver_id: ReceiverId(id) },
            )
            &&& t == (State {
                next_id: t.next_id,
                receivers: t.receivers,
                consumer_stats: t.consumer_stats,
                demand: t.demand,
                demand_pending: t.demand_pending,
                scheduler_stats: t.scheduler_stats,
                events: t.events,
                ..s
            })
        }),
{
    let t = s.after(Action::Register { low, high });
    assert(t.receivers =~= s.receivers.insert(s.next_id, t.receivers[s.next_id]));
    assert(t.consumer_stats =~= s.consumer_stats.push(t.consumer_stats.last()));
}

/// Who is refused a receiver has changed nothing.
pub proof fn law_refused_receiver_changes_nothing<T>(s: State<T>, low: usize, high: usize)
    requires
        low >= high || (s.lifecycle != RUNNING && s.lifecycle != SHUTTING_DOWN)
            || s.receivers.contains_key(s.next_id),
    ensures
        s.after(Action::Register { low, high }) == s,
{
}

// ---- the end ----

/// A shutdown is completed exactly where nothing is pending any more. Then every receiver leaves
/// the registry, the end is told once, and workers are told to end. Where something is pending, or
/// no shutdown is going on, nothing happens.
pub proof fn law_completion<T>(s: State<T>)
    requires
        s.lifecycle == SHUTTING_DOWN ==> !s.no_more_work_emitted,
    ensures
        ({
            let t = s.try_complete();
            &&& s.lifecycle != SHUTTING_DOWN || !s.nothing_pending() ==> t == s
            &&& s.lifecycle == SHUTTING_DOWN && s.nothing_pending() ==> {
                &&& t.lifecycle == NO_MORE_WORK
                &&& !t.terminal_open
                &&& t.no_more_work_emitted
                &&& t.events == s.events.push(StatusEvent::NoMoreWork)
                &&& all_unregistered(s.receivers, t.receivers)
                &&& t == (State {
                    lifecycle: t.lifecycle,
                    terminal_open: t.terminal_open,
                    no_more_work_emitted: t.no_more_work_emitted,
                    events: t.events,
                    receivers: t.receivers,
                    ..s
                })
            }
        }),
{
    assert(s.try_complete().receivers.dom() =~= s.receivers.dom());
}

/// Asking for a graceful shutdown seals ingress, always. In service, and while no producer is
/// sending, the shutdown starts and is told of; it is completed at once exactly where nothing is
/// pending. No item, no request and no counter of theirs changes. Where a producer is sending, or
/// the feeder is not in service, ingress is sealed and nothing else happens.
pub proof fn law_shutdown_starts<T>(s: State<T>)
    requires
        s.lifecycle == RUNNING ==> !s.no_more_work_emitted,
    ensures
        ({
            let t = s.after(Action::ShutDown);
            let starts = s.lifecycle == RUNNING && s.active_producer_sends == 0;
            &&& !t.accepting_ingress
            &&& !starts ==> t == (State { accepting_ingress: false, ..s })
            &&& starts && !s.nothing_pending() ==> {
                &&& t.lifecycle == SHUTTING_DOWN
                &&& t.events == s.events.push(StatusEvent::GracefulShutdownStarted)
                &&& t == (State {
                    accepting_ingress: false,
                    lifecycle: t.lifecycle,
                    events: t.events,
                    ..s
                })
            }
            &&& starts && s.nothing_pending() ==> {
                &&& t.lifecycle == NO_MORE_WORK
                &&& !t.terminal_open
                &&& t.no_more_work_emitted
                &&& t.events == s.events.push(StatusEvent::GracefulShutdownStarted).push(
                    StatusEvent::NoMoreWork,
                )
                &&& all_unregistered(s.receivers, t.receivers)
                &&& t == (State {
                    accepting_ingress: false,
                    lifecycle: t.lifecycle,
                    terminal_open: t.terminal_open,
                    no_more_work_emitted: t.no_more_work_emitted,
                    events: t.events,
                    receivers: t.receivers,
                    ..s
                })
            }
        }),
{
    let t = s.after(Action::ShutDown);
    if t.receivers != s.receivers {
        assert(t.receivers.dom() =~= s.receivers.dom());
    }
}

/// Cancelling always stops the feeder, whatever it was doing: ingress is sealed, every receiver
/// leaves the registry, and workers are told to end. It is told of where the feeder had not ended
/// yet. No item moves and no counter changes.
pub proof fn law_cancel_stops<T>(s: State<T>)
    ensures
        ({
            let t = s.after(Action::Cancel);
            let told = (s.lifecycle != CANCELLED && s.lifecycle != NO_MORE_WORK)
                && !s.cancelled_emitted;
            &&& t.lifecycle == CANCELLED
            &&& !t.accepting_ingress
            &&& !t.terminal_open
            &&& all_unregistered(s.receivers, t.receivers)
            &&& t.cancelled_emitted == (s.cancelled_emitted || told)
            &&& t.events == if told {
                s.events.push(StatusEvent::Cancelled)
            } else {
                s.events
            }
            &&& t == (State {
                lifecycle: t.lifecycle,
                accepting_ingress: t.accepting_ingress,
                terminal_open: t.terminal_open,
                receivers: t.receivers,
                cancelled_emitted: t.cancelled_emitted,
                events: t.events,
                ..s
            })
        }),
{
    assert(s.after(Action::Cancel).receivers.dom() =~= s.receivers.dom());
}

/// Once a feeder was cancelled, nothing is accepted, no handle is given out, no shutdown starts,
/// and cancelling again changes nothing.
pub proof fn law_cancelled_for_good<T>(s: State<T>, low: usize, high: usize)
    ensures
        ({
            let t = s.after(Action::Cancel);
            &&& t.after(Action::BeginSend) == t
            &&& t.after(Action::Register { low, high }) == t
            &&& t.after(Action::ShutDown) == t
            &&& t.after(Action::Cancel) == t
            &&& t.refusal() == Some(AccessError::Cancelled)
            &&& t.receiver_refusal(low, high) is Some
        }),
{
    let t = s.after(Action::Cancel);
    assert(t.after(Action::Cancel).receivers =~= t.receivers);
}

/// Cancelled workers end: one without a request ends with its next step, and one with a request
/// gives it up or delivers what it is sending, but takes no further item.
pub proof fn law_cancelled_workers_end<T>(s: State<T>, worker: int)
    requires
        s.inv(),
        s.lifecycle == CANCELLED,
        0 <= worker < s.workers.len(),
    ensures
        ({
            let t = s.worker_step(worker).0;
            &&& s.workers[worker] is Idle || s.workers[worker] is Exited ==> s.worker_step(
                worker,
            ).1 is Exit && t.workers[worker] is Exited
            &&& s.worker_step(worker).1 !is Wait
            &&& t.workers[worker] !is Holding
            &&& t.workers[worker] !is Sending
            &&& t.active_workers > 0 ==> t.ingress == s.ingress && t.recovered == s.recovered
        }),
{
    law_stopped_workers_never_wait(s, worker);
    assert(State::worker_ok(s.workers[worker]));
    match s.workers[worker] {
        WorkerState::Serving { receiver, count } => {
            lemma_served_known(s, worker, receiver);
        },
        WorkerState::Holding { receiver, count, item } => {
            lemma_served_known(s, worker, receiver);
            assert(s.receiver_ok(s.receivers[receiver]));
        },
        WorkerState::Sending { receiver, count, item, fulfilled } => {
            lemma_served_known(s, worker, receiver);
        },
        _ => {},
    }
}

/// Asking for a shutdown again, once no producer is sending, changes nothing.
pub proof fn law_shutdown_once<T>(s: State<T>)
    requires
        s.active_producer_sends == 0,
        s.lifecycle == RUNNING ==> !s.no_more_work_emitted,
    ensures
        s.after(Action::ShutDown).after(Action::ShutDown) == s.after(Action::ShutDown),
        s.lifecycle == RUNNING ==> s.after(Action::ShutDown).refusal() is None
            || s.after(Action::ShutDown).refusal() == Some(AccessError::NoMoreWork),
{
    law_shutdown_starts(s);
    let t = s.after(Action::ShutDown);
    law_shutdown_starts(t);
}

/// Who asks how the feeder is gets this: whether it shuts down or has done so, whether no item is
/// on its way, and whether a worker is left.
pub proof fn law_how_the_feeder_is<T>(s: State<T>)
    ensures
        s.shutting_down() <==> s.lifecycle == SHUTTING_DOWN || s.lifecycle == NO_MORE_WORK,
        s.shutdown_idle() <==> s.ingress_pending == 0 && s.recovered_pending == 0
            && s.active_worker_items == 0,
        s.connected() <==> s.active_workers > 0,
        s.completion_due() <==> s.lifecycle == SHUTTING_DOWN && s.nothing_pending(),
{
}

// ---- statistics ----

/// A copy of the counters shows each counter of the scheduler as it is, and of the receivers the
/// sums, counter by counter, up to the wrap-around of the counters.
pub proof fn law_snapshot_shows_counters<T>(s: State<T>)
    ensures
        ({
            let shown = s.stats().scheduler;
            let stats = s.scheduler_stats;
            &&& shown.worker_count == stats.worker_count
            &&& shown.ingress_accepted == stats.ingress_accepted
            &&& shown.ingress_consumed == stats.ingress_consumed
            &&& shown.demand_commands == stats.demand_commands
            &&& shown.demand_requested == stats.demand_requested
            &&& shown.demand_fulfilled == stats.demand_fulfilled
            &&& shown.demand_abandoned == stats.demand_abandoned
            &&& shown.recovered_enqueued == stats.recovered_enqueued
            &&& shown.recovered_routed == stats.recovered_routed
            &&& shown.output_routed == stats.output_routed
            &&& shown.receiver_drop_recovered == stats.receiver_drop_recovered
            &&& shown.ingress_pending == s.ingress_pending
            &&& shown.demand_pending == s.demand_pending
            &&& shown.recovered_pending == s.recovered_pending
            &&& shown.active_worker_items == s.active_worker_items
            &&& shown.delivered_inflight == s.delivered_inflight
        }),
        ({
            let shown = s.stats().consumers;
            let all = s.consumer_stats;
            &&& (shown.get_calls - seq_sum(all, |one: ConsumerStats| one.get_calls as int))
                % 0x1_0000_0000_0000_0000 == 0
            &&& (shown.items_consumed - seq_sum(
                all,
                |one: ConsumerStats| one.items_consumed as int,
            )) % 0x1_0000_0000_0000_0000 == 0
            &&& (shown.refill_messages - seq_sum(
                all,
                |one: ConsumerStats| one.refill_messages as int,
            )) % 0x1_0000_0000_0000_0000 == 0
        }),
{
    lemma_totals(s.consumer_stats);
}

proof fn lemma_totals(all: Seq<ConsumerStats>)
    ensures
        ({
            let shown = ConsumerStatsSnapshot::total(all);
            &&& (shown.get_calls - seq_sum(all, |one: ConsumerStats| one.get_calls as int))
                % 0x1_0000_0000_0000_0000 == 0
            &&& (shown.items_consumed - seq_sum(
                all,
                |one: ConsumerStats| one.items_consumed as int,
            )) % 0x1_0000_0000_0000_0000 == 0
            &&& (shown.refill_messages - seq_sum(
                all,
                |one: ConsumerStats| one.refill_messages as int,
            )) % 0x1_0000_0000_0000_0000 == 0
        }),
    decreases all.len(),
{
    if all.len() > 0 {
        lemma_totals(all.drop_last());
    }
}

/// Resetting sets every counter of the scheduler and of each receiver to zero, but for the number
/// of workers. What is pending is still counted, and nothing else changes.
pub proof fn law_reset_zeroes<T>(s: State<T>)
    ensures
        ({
            let t = s.after(Action::ResetStats);
            let stats = t.scheduler_stats;
            &&& stats.worker_count == s.scheduler_stats.worker_count
            &&& stats.ingress_accepted == 0
            &&& stats.ingress_consumed == 0
            &&& stats.demand_commands == 0
            &&& stats.demand_requested == 0
            &&& stats.demand_fulfilled == 0
            &&& stats.demand_abandoned == 0
            &&& stats.recovered_enqueued == 0
            &&& stats.recovered_routed == 0
            &&& stats.output_routed == 0
            &&& stats.receiver_drop_recovered == 0
            &&& t.consumer_stats.len() == s.consumer_stats.len()
            &&& forall|i: int|
                0 <= i < t.consumer_stats.len() ==> (#[trigger] t.consumer_stats[i]) == (
                ConsumerStats { get_calls: 0, items_consumed: 0, refill_messages: 0 })
            &&& t == (State {
                scheduler_stats: t.scheduler_stats,
                consumer_stats: t.consumer_stats,
                ..s
            })
        }),
{
}

} // verus!
