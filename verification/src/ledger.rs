//! That the statistics add up: what was requested, accepted, routed and consumed agrees with what
//! the feeder still holds.

use vstd::prelude::*;
use crate::history::Action;
use crate::history_laws::law_always_in_order;
use crate::integrity::{buffered, requested, running, unsettled};
use crate::model::{DemandCommand, ReceiverState, State, WorkerState};
use crate::preserve::lemma_served_known;
use crate::stats::{ConsumerStats, ConsumerStatsSnapshot, SchedulerStats};
use crate::status::StatusEvent;
use crate::tally::{
    counts, lemma_counts_exact, lemma_map_sum_insert, lemma_map_sum_remove, lemma_map_sum_restrict,
    lemma_map_sum_same, lemma_seq_sum_bounds, lemma_seq_sum_drop_first, lemma_seq_sum_push,
    lemma_seq_sum_update, lemma_seq_sum_zero, seq_sum, word,
};
use crate::types::{ReceiverId, CANCELLED, SHUTTING_DOWN};

verus! {

/// Two sums of counters agree, up to the wrap-around of the counters.
pub open spec fn agree(a: int, b: int) -> bool {
    (a - b) % 0x1_0000_0000_0000_0000 == 0
}

/// The items that a worker has delivered in its present burst.
pub open spec fn in_burst<T>() -> spec_fn(WorkerState<T>) -> int {
    |worker: WorkerState<T>|
        match worker {
            WorkerState::Sending { receiver, count, item, fulfilled } => fulfilled as int,
            _ => 0,
        }
}

impl<T> State<T> {
    /// What was requested, without what was fulfilled, given up or is still to be done.
    pub open spec fn demand_balance(self) -> int {
        self.scheduler_stats.demand_requested - self.scheduler_stats.demand_fulfilled
            - self.scheduler_stats.demand_abandoned - self.total_demand()
    }

    /// What was accepted, without what workers took and what is still queued.
    pub open spec fn ingress_balance(self) -> int {
        self.scheduler_stats.ingress_accepted - self.scheduler_stats.ingress_consumed
            - self.ingress.len()
    }

    /// What was taken back, without what was routed again and what is still queued.
    pub open spec fn recovered_balance(self) -> int {
        self.scheduler_stats.recovered_enqueued - self.scheduler_stats.recovered_routed
            - self.recovered.len()
    }

    /// What was routed to receivers, without what they consumed, what was taken back from them,
    /// what they have buffered and what went with one of them.
    pub open spec fn routing_balance(self) -> int {
        self.scheduler_stats.output_routed + seq_sum(self.workers, in_burst())
            - ConsumerStatsSnapshot::total(self.consumer_stats).items_consumed
            - self.scheduler_stats.receiver_drop_recovered - self.total_buffered() - self.discarded
    }
}

proof fn lemma_agree_add(c: u64, k: u64)
    ensures
        agree(c.wrapping_add(k) as int, c + k),
{
}

proof fn lemma_total_updated(all: Seq<ConsumerStats>, i: int, one: ConsumerStats)
    requires
        0 <= i < all.len(),
    ensures
        agree(
            ConsumerStatsSnapshot::total(all.update(i, one)).items_consumed as int,
            ConsumerStatsSnapshot::total(all).items_consumed - all[i].items_consumed
                + one.items_consumed,
        ),
    decreases all.len(),
{
    let next = all.update(i, one);
    if i == all.len() - 1 {
        assert(next.drop_last() =~= all.drop_last());
    } else {
        assert(next.drop_last() =~= all.drop_last().update(i, one));
        assert(next.last() == all.last());
        lemma_total_updated(all.drop_last(), i, one);
    }
}

impl<T> State<T> {
    /// The statistics of both states balance alike.
    pub open spec fn balances_like(self, other: State<T>) -> bool {
        &&& agree(self.demand_balance(), other.demand_balance())
        &&& agree(self.ingress_balance(), other.ingress_balance())
        &&& agree(self.recovered_balance(), other.recovered_balance())
    }

    /// The statistics of both states account for routed items alike.
    pub open spec fn routes_like(self, other: State<T>) -> bool {
        &&& agree(self.routing_balance(), other.routing_balance())
        &&& agree(
            self.scheduler_stats.output_routed - self.scheduler_stats.demand_fulfilled,
            other.scheduler_stats.output_routed - other.scheduler_stats.demand_fulfilled,
        )
    }

    /// Nothing that the statistics count differs between the two states.
    spec fn counts_like(self, other: State<T>) -> bool {
        &&& self.scheduler_stats == other.scheduler_stats
        &&& self.consumer_stats == other.consumer_stats
        &&& self.ingress == other.ingress
        &&& self.recovered == other.recovered
        &&& self.demand == other.demand
        &&& self.workers == other.workers
        &&& self.discarded == other.discarded
        &&& self.total_buffered() == other.total_buffered()
    }
}

proof fn lemma_try_complete_counts<T>(s: State<T>)
    requires
        s.receivers.dom().finite(),
    ensures
        s.try_complete().counts_like(s),
        s.completion_progress().counts_like(s),
        s.all_closed().counts_like(s),
{
    assert(s.all_closed().receivers.dom() =~= s.receivers.dom());
    lemma_map_sum_same(s.receivers, s.all_closed().receivers, buffered());
}

proof fn lemma_put_counts<T>(s: State<T>, id: usize, receiver: ReceiverState<T>)
    requires
        s.receivers.dom().finite(),
        s.receivers.contains_key(id),
        !receiver.settled().held() ==> receiver.data.len() == 0,
    ensures
        s.put_receiver(id, receiver).total_buffered() == s.total_buffered()
            - s.receivers[id].data.len() + receiver.data.len(),
        s.with_receiver(id, receiver).total_buffered() == s.total_buffered()
            - s.receivers[id].data.len() + receiver.data.len(),
{
    lemma_map_sum_insert(s.receivers, id, receiver.settled(), buffered());
    lemma_map_sum_insert(s.receivers, id, receiver, buffered());
    lemma_map_sum_remove(s.receivers, id, buffered());
}

proof fn lemma_reserve_balances<T>(s: State<T>, id: usize, count: usize)
    requires
        s.receivers.dom().finite(),
        s.receivers.contains_key(id),
    ensures
        s.connected() ==> s.reserve_demand(id, count).balances_like(s),
        s.reserve_demand(id, count).routes_like(s),
        s.reserve_demand(id, count).receivers.dom() == s.receivers.dom(),
        s.reserve_demand(id, count).total_buffered() == s.total_buffered(),
{
    let t = s.reserve_demand(id, count);
    lemma_seq_sum_push(s.demand, DemandCommand { receiver: id, count }, requested());
    lemma_agree_add(s.scheduler_stats.demand_requested, count as u64);
    if count != 0 && s.connected() {
        lemma_map_sum_insert(s.receivers, id, t.receivers[id], buffered());
        assert(t.receivers =~= s.receivers.insert(id, t.receivers[id]));
    }
    assert(t.receivers.dom() =~= s.receivers.dom());
}

proof fn lemma_register_balances<T>(s: State<T>, low: usize, high: usize)
    requires
        s.inv(),
        s.receiver_refusal(low, high) is None,
    ensures
        s.connected() ==> s.registered(low, high).balances_like(s),
        s.registered(low, high).routes_like(s),
{
    let fresh = s.fresh_receiver(low, high);
    let known = State {
        consumer_stats: s.consumer_stats.push(ConsumerStats::zero()),
        ..s.id_taken()
    }.with_receiver(s.next_id, fresh);
    lemma_map_sum_insert(s.receivers, s.next_id, fresh, buffered());
    assert(s.consumer_stats.push(ConsumerStats::zero()).drop_last() =~= s.consumer_stats);
    lemma_reserve_balances(known, s.next_id, high);
}

proof fn lemma_counted_balances<T>(s: State<T>, id: usize, got: usize)
    requires
        s.inv(),
        s.receivers.contains_key(id),
        got <= s.receivers[id].data.len(),
    ensures
        ({
            let receiver = s.receivers[id];
            let t = s.with_receiver(
                id,
                ReceiverState { data: receiver.data.skip(got as int), ..receiver },
            ).consumption_counted(id, got);
            &&& t.balances_like(s)
            &&& t.routes_like(s)
            &&& t.receivers.dom() == s.receivers.dom()
            &&& t.receivers[id].stats < t.consumer_stats.len()
        }),
{
    let before = s.receivers[id];
    assert(s.receiver_ok(before));
    let shorter = s.with_receiver(
        id,
        ReceiverState { data: before.data.skip(got as int), ..before },
    );
    let counted = shorter.consumption_counted(id, got);
    let after = counted.receivers[id];
    lemma_put_counts(s, id, after);
    assert(counted.receivers =~= s.receivers.insert(id, after));
    assert(counted.receivers.dom() =~= s.receivers.dom());
    let place = before.stats as int;
    let stats = s.consumer_stats[place];
    lemma_total_updated(
        s.consumer_stats,
        place,
        ConsumerStats {
            get_calls: stats.get_calls.wrapping_add(1),
            items_consumed: stats.items_consumed.wrapping_add(got as u64),
            ..stats
        },
    );
    lemma_agree_add(stats.items_consumed, got as u64);
}

proof fn lemma_lag_counts<T>(s: State<T>, id: usize, requested: usize, got: usize)
    requires
        s.receivers.dom().finite(),
        s.receivers.contains_key(id),
    ensures
        s.lag_updated(id, requested, got).counts_like(s),
        s.lag_updated(id, requested, got).receivers.dom() == s.receivers.dom(),
{
    let t = s.lag_updated(id, requested, got);
    assert(t.receivers.dom() =~= s.receivers.dom());
    lemma_map_sum_same(s.receivers, t.receivers, buffered());
}

proof fn lemma_like_trans<T>(s: State<T>, t: State<T>, u: State<T>)
    ensures
        u.balances_like(t) && t.balances_like(s) ==> u.balances_like(s),
        u.routes_like(t) && t.routes_like(s) ==> u.routes_like(s),
        u.counts_like(s) ==> u.balances_like(s) && u.routes_like(s),
        u.counts_like(t) && t.counts_like(s) ==> u.counts_like(s),
{
}

proof fn lemma_consumed_balances<T>(s: State<T>, id: usize, max: usize)
    requires
        s.inv(),
    ensures
        s.connected() ==> s.consumed(id, max).balances_like(s),
        s.consumed(id, max).routes_like(s),
{
    let got = s.available(id, max);
    if got == 0 {
        lemma_like_trans(s, s, s);
    } else {
        let before = s.receivers[id];
        let counted = s.with_receiver(
            id,
            ReceiverState { data: before.data.skip(got), ..before },
        ).consumption_counted(id, got as usize);
        lemma_counted_balances(s, id, got as usize);
        let refilled = counted.refilled(id);
        lemma_refilled_balances(counted, id);
        let reported = refilled.lag_updated(id, max, got as usize);
        lemma_lag_counts(refilled, id, max, got as usize);
        lemma_try_complete_counts(reported);
        let done = reported.completion_progress();
        assert(done == s.consumed(id, max));
        lemma_like_trans(refilled, reported, done);
        lemma_like_trans(refilled, refilled, done);
        lemma_like_trans(s, counted, refilled);
        lemma_like_trans(s, refilled, done);
    }
}

proof fn lemma_refilled_balances<T>(s: State<T>, id: usize)
    requires
        s.receivers.dom().finite(),
        s.receivers.contains_key(id),
        s.receivers[id].stats < s.consumer_stats.len(),
    ensures
        s.connected() ==> s.refilled(id).balances_like(s),
        s.refilled(id).routes_like(s),
        s.refilled(id).receivers.dom() == s.receivers.dom(),
{
    let receiver = s.receivers[id];
    let place = receiver.stats as int;
    let stats = s.consumer_stats[place];
    let one = ConsumerStats { refill_messages: stats.refill_messages.wrapping_add(1), ..stats };
    lemma_total_updated(s.consumer_stats, place, one);
    let noted = State { consumer_stats: s.consumer_stats.update(place, one), ..s };
    lemma_reserve_balances(noted, id, (receiver.high_water - receiver.outstanding) as usize);
}

proof fn lemma_recovered_balance<T>(s: State<T>, items: Seq<T>)
    ensures
        s.connected() ==> agree(s.all_recovered(items).recovered_balance(), s.recovered_balance()),
        s.all_recovered(items) == (State {
            recovered: s.all_recovered(items).recovered,
            recovered_pending: s.all_recovered(items).recovered_pending,
            scheduler_stats: SchedulerStats {
                recovered_enqueued: s.all_recovered(items).scheduler_stats.recovered_enqueued,
                ..s.scheduler_stats
            },
            ..s
        }),
    decreases items.len(),
{
    if items.len() > 0 {
        lemma_recovered_balance(s, items.drop_last());
        lemma_agree_add(
            s.all_recovered(items.drop_last()).scheduler_stats.recovered_enqueued,
            1,
        );
    }
}

proof fn lemma_drop_balances<T>(s: State<T>, id: usize)
    requires
        s.inv(),
        s.drop_can_finish(id),
    ensures
        s.connected() ==> s.drop_finished(id).balances_like(s),
        s.drop_finished(id).routes_like(s),
{
    let before = s.receivers[id];
    assert(s.receiver_ok(before));
    let items = before.data;
    let emptied = State {
        delivered_inflight: s.delivered_inflight.wrapping_sub(items.len() as usize),
        ..s
    };
    lemma_recovered_balance(emptied, items);
    let recovered = emptied.all_recovered(items);
    let gone = ReceiverState {
        data: Seq::<T>::empty(),
        rx_open: false,
        draining: false,
        outstanding: (before.outstanding - items.len()) as usize,
        ..before
    };
    lemma_put_counts(recovered, id, gone);
    lemma_agree_add(s.scheduler_stats.receiver_drop_recovered, items.len() as u64);
    let done = s.drop_finished(id);
    let put = State {
        scheduler_stats: SchedulerStats {
            receiver_drop_recovered:
                recovered.scheduler_stats.receiver_drop_recovered.wrapping_add(items.len() as u64),
            ..recovered.scheduler_stats
        },
        ..recovered
    }.emit(
        StatusEvent::ReceiverDropped {
            receiver_id: ReceiverId(id),
            recovered: items.len() as usize,
        },
    ).put_receiver(id, gone);
    assert(put.receivers == recovered.put_receiver(id, gone).receivers);
    lemma_try_complete_counts(put);
}

/// What the statistics count of the workers, after one of them changed.
proof fn lemma_worker_sums<T>(s: State<T>, worker: int, next: WorkerState<T>)
    requires
        0 <= worker < s.workers.len(),
    ensures
        seq_sum(s.workers.update(worker, next), unsettled()) == seq_sum(s.workers, unsettled())
            - unsettled::<T>()(s.workers[worker]) + unsettled::<T>()(next),
        seq_sum(s.workers.update(worker, next), in_burst()) == seq_sum(s.workers, in_burst())
            - in_burst::<T>()(s.workers[worker]) + in_burst::<T>()(next),
{
    lemma_seq_sum_update(s.workers, worker, next, unsettled());
    lemma_seq_sum_update(s.workers, worker, next, in_burst());
}

proof fn lemma_exit_balances<T>(s: State<T>, worker: int)
    requires
        s.inv(),
        0 <= worker < s.workers.len(),
        s.workers[worker] is Idle,
    ensures
        s.worker_exited(worker).connected() ==> s.worker_exited(worker).balances_like(s),
        s.worker_exited(worker).routes_like(s),
{
    let t = s.worker_exited(worker);
    lemma_worker_sums(s, worker, WorkerState::Exited);
    if s.active_workers == 1 {
        assert forall|id: usize|
            s.receivers.contains_key(id) && !t.receivers.contains_key(id) implies buffered::<T>()(
            #[trigger] s.receivers[id],
        ) == 0 by {
            assert(s.receiver_ok(s.receivers[id]));
        }
        assert(t.receivers.dom().subset_of(s.receivers.dom()));
        lemma_map_sum_restrict(s.receivers, t.receivers, buffered());
    }
}

proof fn lemma_idle_balances<T>(s: State<T>, worker: int)
    requires
        s.inv(),
        0 <= worker < s.workers.len(),
        s.workers[worker] is Idle,
    ensures
        s.worker_step(worker).0.connected() ==> s.worker_step(worker).0.balances_like(s),
        s.worker_step(worker).0.routes_like(s),
{
    if s.lifecycle != CANCELLED && s.demand.len() > 0 {
        let command = s.demand[0];
        lemma_worker_sums(
            s,
            worker,
            WorkerState::Serving { receiver: command.receiver, count: command.count },
        );
        lemma_seq_sum_drop_first(s.demand, requested());
    } else if s.lifecycle == CANCELLED || !s.terminal_open {
        lemma_exit_balances(s, worker);
    } else {
        lemma_try_complete_counts(s);
    }
}

proof fn lemma_abandon_counts<T>(s: State<T>, id: usize, count: usize)
    requires
        s.inv(),
        s.receivers.contains_key(id),
        count > 0,
    ensures
        s.abandon_demand(id, count).total_buffered() == s.total_buffered(),
        s.abandon_demand(id, count).receivers.dom().finite(),
        agree(
            s.abandon_demand(id, count).scheduler_stats.demand_abandoned as int,
            s.scheduler_stats.demand_abandoned + count,
        ),
{
    let receiver = s.receivers[id];
    assert(s.receiver_ok(receiver));
    lemma_agree_add(s.scheduler_stats.demand_abandoned, count as u64);
    lemma_put_counts(
        s,
        id,
        ReceiverState {
            outstanding: (receiver.outstanding - count) as usize,
            owed: (receiver.owed - count) as usize,
            ..receiver
        },
    );
}

proof fn lemma_taken_balances<T>(s: State<T>)
    requires
        s.next_item() is Some,
    ensures
        s.item_taken().balances_like(s),
        s.item_taken().routes_like(s),
        s.item_taken().workers == s.workers,
        s.item_taken().demand == s.demand,
{
    lemma_agree_add(s.scheduler_stats.recovered_routed, 1);
    lemma_agree_add(s.scheduler_stats.ingress_consumed, 1);
}

proof fn lemma_serving_balances<T>(s: State<T>, worker: int, id: usize, count: usize)
    requires
        s.inv(),
        0 <= worker < s.workers.len(),
        s.workers[worker] == (WorkerState::<T>::Serving { receiver: id, count }),
    ensures
        s.worker_step(worker).0.balances_like(s),
        s.worker_step(worker).0.routes_like(s),
{
    assert(State::worker_ok(s.workers[worker]));
    lemma_served_known(s, worker, id);
    if s.demand_is_void(id) {
        let abandoned = s.abandon_demand(id, count);
        lemma_abandon_counts(s, id, count);
        lemma_try_complete_counts(abandoned);
        lemma_worker_sums(s, worker, WorkerState::Idle);
        let voided = s.demand_voided(id, count);
        assert(voided.counts_like(abandoned));
        assert(s.worker_step(worker).0 == voided.with_worker(worker, WorkerState::Idle));
    } else if s.next_item() is Some {
        let next = WorkerState::Holding { receiver: id, count, item: s.next_item()->Some_0 };
        lemma_taken_balances(s);
        lemma_worker_sums(s, worker, next);
    } else {
        lemma_try_complete_counts(s);
    }
}

proof fn lemma_holding_balances<T>(s: State<T>, worker: int, id: usize, count: usize, item: T)
    requires
        s.inv(),
        0 <= worker < s.workers.len(),
        s.workers[worker] == (WorkerState::<T>::Holding { receiver: id, count, item }),
    ensures
        s.worker_step(worker).0.balances_like(s),
        s.worker_step(worker).0.routes_like(s),
{
    assert(State::worker_ok(s.workers[worker]));
    lemma_served_known(s, worker, id);
    let receiver = s.receivers[id];
    if receiver.closing {
        lemma_abandon_counts(s, id, count);
        let freed = State { active_worker_items: s.active_worker_items.wrapping_sub(1), ..s };
        let abandoned = freed.abandon_demand(id, count);
        assert(abandoned.receivers == s.abandon_demand(id, count).receivers);
        assert(abandoned.scheduler_stats == s.abandon_demand(id, count).scheduler_stats);
        lemma_agree_add(s.scheduler_stats.recovered_enqueued, 1);
        lemma_worker_sums(s, worker, WorkerState::Idle);
    } else {
        let more = ReceiverState {
            active_sends: receiver.active_sends.wrapping_add(1),
            ..receiver
        };
        lemma_put_counts(s, id, more);
        lemma_worker_sums(
            s,
            worker,
            WorkerState::Sending { receiver: id, count, item, fulfilled: 0 },
        );
    }
}

#[verifier::rlimit(40)]
proof fn lemma_sending_balances<T>(
    s: State<T>,
    worker: int,
    id: usize,
    count: usize,
    item: T,
    fulfilled: usize,
)
    requires
        s.inv(),
        0 <= worker < s.workers.len(),
        s.workers[worker] == (WorkerState::<T>::Sending { receiver: id, count, item, fulfilled }),
    ensures
        s.worker_step(worker).0.balances_like(s),
        s.worker_step(worker).0.routes_like(s),
{
    assert(State::worker_ok(s.workers[worker]));
    lemma_served_known(s, worker, id);
    let receiver = s.receivers[id];
    let longer = ReceiverState {
        data: receiver.data.push(item),
        owed: (receiver.owed - 1) as usize,
        ..receiver
    };
    lemma_put_counts(s, id, longer);
    let after = s.delivered(id, item);
    assert(after.receivers == s.with_receiver(id, longer).receivers);
    let left = (count - 1) as usize;
    let done = (fulfilled + 1) as usize;
    if left > 0 && after.item_for(id) is Some {
        let next = WorkerState::Sending {
            receiver: id,
            count: left,
            item: after.item_for(id)->Some_0,
            fulfilled: done,
        };
        lemma_taken_balances(after);
        lemma_worker_sums(s, worker, next);
    } else {
        let less = ReceiverState {
            active_sends: after.receivers[id].active_sends.wrapping_sub(1),
            ..after.receivers[id]
        };
        lemma_put_counts(after, id, less);
        let put = after.put_receiver(id, less);
        lemma_agree_add(s.scheduler_stats.demand_fulfilled, done as u64);
        lemma_agree_add(s.scheduler_stats.output_routed, done as u64);
        let finished = after.burst_finished(id, done);
        let counted = State {
            demand_pending: put.demand_pending.wrapping_sub(done),
            active_worker_items: put.active_worker_items.wrapping_sub(done),
            scheduler_stats: finished.scheduler_stats,
            ..put
        };
        lemma_try_complete_counts(counted);
        assert(finished == counted.completion_progress());
        lemma_worker_sums(s, worker, State::serving(id, left));
    }
}

/// The statistics add up, whatever an operation does, unless it resets them. What was requested is
/// what was fulfilled, given up or is still to be done. What was accepted, or taken back, is what
/// workers took and what is still queued. What was routed is what was fulfilled; it was consumed,
/// taken back, or is buffered. All this is up to the wrap-around of the counters.
pub proof fn law_statistics_add_up<T>(s: State<T>, action: Action<T>)
    requires
        s.inv(),
        s.allows(action),
        action !is ResetStats,
    ensures
        s.after(action).connected() ==> s.after(action).balances_like(s),
        s.after(action).routes_like(s),
{
    lemma_like_trans(s, s, s);
    lemma_workers_only_leave(s, action);
    match action {
        Action::FinishSend { items } => {
            let count = items.len() as usize;
            lemma_agree_add(s.scheduler_stats.ingress_accepted, count as u64);
        },
        Action::Register { low, high } => {
            if s.receiver_refusal(low, high) is None {
                lemma_register_balances(s, low, high);
            }
        },
        Action::ShutDown => {
            let told = State { lifecycle: SHUTTING_DOWN, ..s.sealed() }.emit(
                StatusEvent::GracefulShutdownStarted,
            );
            lemma_try_complete_counts(told);
        },
        Action::Cancel => {
            lemma_try_complete_counts(s);
        },
        Action::Consume { id, max } => {
            lemma_consumed_balances(s, id, max);
        },
        Action::BeginDrop { id } => {
            let t = s.drop_begun(id);
            assert(s.receivers.dom() =~= t.receivers.dom());
            lemma_map_sum_same(s.receivers, t.receivers, buffered());
        },
        Action::FinishDrop { id } => {
            if s.drop_can_finish(id) {
                lemma_drop_balances(s, id);
            }
        },
        Action::Release { id } => {
            if s.releasable(id) {
                lemma_map_sum_remove(s.receivers, id, buffered());
            }
        },
        Action::Work { worker } => {
            match s.workers[worker] {
                WorkerState::Idle => lemma_idle_balances(s, worker),
                WorkerState::Serving { receiver, count } => {
                    lemma_serving_balances(s, worker, receiver, count);
                },
                WorkerState::Holding { receiver, count, item } => {
                    lemma_holding_balances(s, worker, receiver, count, item);
                },
                WorkerState::Sending { receiver, count, item, fulfilled } => {
                    lemma_sending_balances(s, worker, receiver, count, item, fulfilled);
                },
                WorkerState::Exited => {},
            }
        },
        _ => {},
    }
}

proof fn lemma_always_balanced<T>(worker_count: usize, actions: Seq<Action<T>>)
    requires
        worker_count > 0,
        State::<T>::initial(worker_count).allows_all(actions),
        forall|i: int| 0 <= i < actions.len() ==> (#[trigger] actions[i]) !is ResetStats,
    ensures
        ({
            let start = State::<T>::initial(worker_count);
            let s = start.after_all(actions);
            &&& s.connected() ==> s.balances_like(start)
            &&& s.routes_like(start)
        }),
    decreases actions.len(),
{
    let start = State::<T>::initial(worker_count);
    if actions.len() == 0 {
        lemma_like_trans(start, start, start);
    } else {
        let sofar = actions.drop_last();
        let s = start.after_all(sofar);
        assert forall|i: int| 0 <= i < sofar.len() implies (#[trigger] sofar[i]) !is ResetStats by {
            assert(sofar[i] == actions[i]);
        }
        law_always_in_order(worker_count, sofar);
        lemma_always_balanced(worker_count, sofar);
        law_statistics_add_up(s, actions.last());
        lemma_workers_only_leave(s, actions.last());
        lemma_like_trans(start, s, s.after(actions.last()));
    }
}

/// The statistics of a feeder add up at every moment, whatever was done with it, as long as they
/// were not reset. While workers run, what was requested is what was fulfilled, given up or is
/// still to be done, and what was accepted is what workers took and what is still queued. What was
/// routed was consumed, taken back from a dropped receiver, or is buffered.
pub proof fn law_statistics_always_add_up<T>(worker_count: usize, actions: Seq<Action<T>>)
    requires
        worker_count > 0,
        State::<T>::initial(worker_count).allows_all(actions),
        forall|i: int| 0 <= i < actions.len() ==> (#[trigger] actions[i]) !is ResetStats,
    ensures
        ({
            let s = State::<T>::initial(worker_count).after_all(actions);
            &&& s.connected() ==> {
                &&& agree(
                    s.scheduler_stats.demand_requested as int,
                    s.scheduler_stats.demand_fulfilled + s.scheduler_stats.demand_abandoned
                        + s.total_demand(),
                )
                &&& agree(
                    s.scheduler_stats.ingress_accepted as int,
                    s.scheduler_stats.ingress_consumed + s.ingress.len(),
                )
                &&& agree(
                    s.scheduler_stats.recovered_enqueued as int,
                    s.scheduler_stats.recovered_routed + s.recovered.len(),
                )
            }
            &&& agree(
                s.scheduler_stats.output_routed + seq_sum(s.workers, in_burst()),
                ConsumerStatsSnapshot::total(s.consumer_stats).items_consumed
                    + s.scheduler_stats.receiver_drop_recovered + s.total_buffered() + s.discarded,
            )
            &&& s.scheduler_stats.output_routed == s.scheduler_stats.demand_fulfilled
        }),
{
    lemma_initial_balances::<T>(worker_count);
    lemma_always_balanced(worker_count, actions);
}

proof fn lemma_workers_only_leave<T>(s: State<T>, action: Action<T>)
    requires
        s.inv(),
        s.allows(action),
    ensures
        s.after(action).connected() ==> s.connected(),
{
    match action {
        Action::FinishDrop { id } => {
            if s.drop_can_finish(id) {
                let emptied = State {
                    delivered_inflight: s.delivered_inflight.wrapping_sub(
                        s.receivers[id].data.len() as usize,
                    ),
                    ..s
                };
                lemma_recovered_balance(emptied, s.receivers[id].data);
            }
        },
        Action::Work { worker } => {
            if s.workers[worker] is Idle {
                lemma_seq_sum_bounds(s.workers, running());
                assert(running::<T>()(s.workers[worker]) == 1);
            }
        },
        _ => {},
    }
}

/// A counter of one machine word holds every number that agrees with the one that it holds.
proof fn lemma_agree_counts(counter: usize, n: int, m: int)
    requires
        counts(counter, n),
        agree(m, n),
    ensures
        counts(counter, m),
{
    if usize::MAX == 0xffff_ffff {
        assert(word() == 0x1_0000_0000);
        assert(m % 0x1_0000_0000 == n % 0x1_0000_0000);
    } else {
        assert(word() == 0x1_0000_0000_0000_0000);
        assert(m % 0x1_0000_0000_0000_0000 == n % 0x1_0000_0000_0000_0000);
    }
}

/// Where the last worker has ended, nothing that is counted of queues changes, nor of requests
/// but for those that nobody hears.
#[verifier::rlimit(40)]
proof fn lemma_frozen<T>(s: State<T>, action: Action<T>)
    requires
        s.inv(),
        s.allows(action),
        action !is ResetStats,
        !s.after(action).connected(),
    ensures
        ({
            let t = s.after(action);
            &&& t.ingress_pending == s.ingress_pending
            &&& t.demand_pending == s.demand_pending
            &&& t.recovered_pending == s.recovered_pending
            &&& t.scheduler_stats.ingress_accepted == s.scheduler_stats.ingress_accepted
            &&& t.scheduler_stats.ingress_consumed == s.scheduler_stats.ingress_consumed
            &&& agree(
                t.scheduler_stats.demand_requested - t.unheard,
                s.scheduler_stats.demand_requested - s.unheard,
            )
            &&& t.scheduler_stats.demand_fulfilled == s.scheduler_stats.demand_fulfilled
            &&& t.scheduler_stats.demand_abandoned == s.scheduler_stats.demand_abandoned
            &&& t.scheduler_stats.recovered_enqueued == s.scheduler_stats.recovered_enqueued
            &&& t.scheduler_stats.recovered_routed == s.scheduler_stats.recovered_routed
        }),
{
    match action {
        Action::FinishDrop { id } => {
            if s.drop_can_finish(id) {
                let items = s.receivers[id].data;
                let emptied = State {
                    delivered_inflight: s.delivered_inflight.wrapping_sub(items.len() as usize),
                    ..s
                };
                lemma_recovered_balance(emptied, items);
                lemma_not_recovered(emptied, items);
            }
        },
        Action::Work { worker } => {
            assert(State::worker_ok(s.workers[worker]));
            if s.workers[worker] !is Exited {
                lemma_seq_sum_bounds(s.workers, running());
                assert(running::<T>()(s.workers[worker]) == 1);
            }
            if s.workers[worker] is Idle {
                lemma_idle_frozen(s, worker);
            }
        },
        _ => {},
    }
}

proof fn lemma_not_recovered<T>(s: State<T>, items: Seq<T>)
    requires
        !s.connected(),
    ensures
        s.all_recovered(items) == s,
    decreases items.len(),
{
    if items.len() > 0 {
        lemma_not_recovered(s, items.drop_last());
    }
}

proof fn lemma_idle_frozen<T>(s: State<T>, worker: int)
    requires
        s.workers[worker] is Idle,
        s.connected(),
        !s.worker_step(worker).0.connected(),
    ensures
        s.worker_step(worker).0 == s.worker_exited(worker),
{
}

impl<T> State<T> {
    /// The counters of what is pending hold what the statistics leave.
    pub open spec fn pending_as_counted(self) -> bool {
        &&& counts(
            self.demand_pending,
            self.scheduler_stats.demand_requested - self.unheard
                - self.scheduler_stats.demand_fulfilled - self.scheduler_stats.demand_abandoned,
        )
        &&& counts(
            self.ingress_pending,
            self.scheduler_stats.ingress_accepted - self.scheduler_stats.ingress_consumed,
        )
        &&& counts(
            self.recovered_pending,
            self.scheduler_stats.recovered_enqueued - self.scheduler_stats.recovered_routed,
        )
    }
}

proof fn lemma_pending_while_connected<T>(s: State<T>)
    requires
        s.inv(),
        s.connected(),
        agree(s.demand_balance(), 0),
        agree(s.ingress_balance(), 0),
        agree(s.recovered_balance(), 0),
    ensures
        s.pending_as_counted(),
{
    let stats = s.scheduler_stats;
    lemma_agree_counts(
        s.demand_pending,
        s.total_demand(),
        stats.demand_requested - stats.demand_fulfilled - stats.demand_abandoned,
    );
    lemma_agree_counts(
        s.ingress_pending,
        s.ingress.len() as int,
        stats.ingress_accepted - stats.ingress_consumed,
    );
    lemma_agree_counts(
        s.recovered_pending,
        s.recovered.len() as int,
        stats.recovered_enqueued - stats.recovered_routed,
    );
}

proof fn lemma_initial_balances<T>(worker_count: usize)
    ensures
        State::<T>::initial(worker_count).demand_balance() == 0,
        State::<T>::initial(worker_count).ingress_balance() == 0,
        State::<T>::initial(worker_count).recovered_balance() == 0,
        State::<T>::initial(worker_count).routing_balance() == 0,
{
    let start = State::<T>::initial(worker_count);
    lemma_seq_sum_zero(start.workers, unsettled());
    lemma_seq_sum_zero(start.workers, in_burst());
}

proof fn lemma_pending_stays<T>(s: State<T>, action: Action<T>)
    requires
        s.inv(),
        s.allows(action),
        action !is ResetStats,
        !s.after(action).connected(),
        s.pending_as_counted(),
    ensures
        s.after(action).pending_as_counted(),
{
    let t = s.after(action);
    lemma_frozen(s, action);
    lemma_agree_counts(
        t.demand_pending,
        s.scheduler_stats.demand_requested - s.unheard - s.scheduler_stats.demand_fulfilled
            - s.scheduler_stats.demand_abandoned,
        t.scheduler_stats.demand_requested - t.unheard - t.scheduler_stats.demand_fulfilled
            - t.scheduler_stats.demand_abandoned,
    );
}

proof fn lemma_pending_as_counted<T>(worker_count: usize, actions: Seq<Action<T>>)
    requires
        worker_count > 0,
        State::<T>::initial(worker_count).allows_all(actions),
        forall|i: int| 0 <= i < actions.len() ==> (#[trigger] actions[i]) !is ResetStats,
    ensures
        State::<T>::initial(worker_count).after_all(actions).pending_as_counted(),
    decreases actions.len(),
{
    let start = State::<T>::initial(worker_count);
    let t = start.after_all(actions);
    law_always_in_order(worker_count, actions);
    if t.connected() {
        lemma_initial_balances::<T>(worker_count);
        lemma_always_balanced(worker_count, actions);
        lemma_pending_while_connected(t);
    } else {
        let sofar = actions.drop_last();
        let s = start.after_all(sofar);
        assert forall|i: int| 0 <= i < sofar.len() implies (#[trigger] sofar[i]) !is ResetStats by {
            assert(sofar[i] == actions[i]);
        }
        assert(actions[actions.len() - 1] !is ResetStats);
        law_always_in_order(worker_count, sofar);
        lemma_pending_as_counted(worker_count, sofar);
        lemma_pending_stays(s, actions.last());
    }
}

/// The statistics agree with the counters of what is pending at every moment, also after the last
/// worker has ended, as long as they were not reset. Every item that was requested was fulfilled,
/// given up or is pending, unless the last worker had ended before the request; what was accepted,
/// or taken back, was taken by a worker or is pending; what was routed, and what workers deliver in
/// their present bursts, was consumed, taken back from a dropped receiver or is in flight. Each
/// holds exactly where the difference fits a machine word, and up to the wrap-around of the
/// counters elsewhere.
pub proof fn law_statistics_agree_with_pending<T>(worker_count: usize, actions: Seq<Action<T>>)
    requires
        worker_count > 0,
        State::<T>::initial(worker_count).allows_all(actions),
        forall|i: int| 0 <= i < actions.len() ==> (#[trigger] actions[i]) !is ResetStats,
    ensures
        ({
            let s = State::<T>::initial(worker_count).after_all(actions);
            let stats = s.scheduler_stats;
            let demand = stats.demand_requested - s.unheard - stats.demand_fulfilled
                - stats.demand_abandoned;
            let ingress = stats.ingress_accepted - stats.ingress_consumed;
            let recovered = stats.recovered_enqueued - stats.recovered_routed;
            let routed = stats.output_routed + seq_sum(s.workers, in_burst())
                - s.stats().consumers.items_consumed - stats.receiver_drop_recovered;
            &&& counts(s.demand_pending, demand)
            &&& counts(s.ingress_pending, ingress)
            &&& counts(s.recovered_pending, recovered)
            &&& counts(s.delivered_inflight, routed)
            &&& 0 <= demand <= usize::MAX ==> demand == s.demand_pending
            &&& 0 <= ingress <= usize::MAX ==> ingress == s.ingress_pending
            &&& 0 <= recovered <= usize::MAX ==> recovered == s.recovered_pending
            &&& 0 <= routed <= usize::MAX ==> routed == s.delivered_inflight
            &&& stats.output_routed == stats.demand_fulfilled
            &&& s.connected() ==> s.unheard == 0
            &&& (forall|i: int|
                0 <= i < s.workers.len() ==> (#[trigger] s.workers[i]) !is Sending) ==> seq_sum(
                s.workers,
                in_burst(),
            ) == 0
        }),
{
    let s = State::<T>::initial(worker_count).after_all(actions);
    let stats = s.scheduler_stats;
    let demand = stats.demand_requested - s.unheard - stats.demand_fulfilled
        - stats.demand_abandoned;
    let ingress = stats.ingress_accepted - stats.ingress_consumed;
    let recovered = stats.recovered_enqueued - stats.recovered_routed;
    let routed = stats.output_routed + seq_sum(s.workers, in_burst())
        - s.stats().consumers.items_consumed - stats.receiver_drop_recovered;
    law_always_in_order(worker_count, actions);
    lemma_pending_as_counted(worker_count, actions);
    law_statistics_always_add_up(worker_count, actions);
    lemma_agree_counts(s.delivered_inflight, s.total_buffered() + s.discarded, routed);
    if 0 <= demand <= usize::MAX {
        lemma_counts_exact(s.demand_pending, demand);
    }
    if 0 <= ingress <= usize::MAX {
        lemma_counts_exact(s.ingress_pending, ingress);
    }
    if 0 <= recovered <= usize::MAX {
        lemma_counts_exact(s.recovered_pending, recovered);
    }
    if 0 <= routed <= usize::MAX {
        lemma_counts_exact(s.delivered_inflight, routed);
    }
    if forall|i: int| 0 <= i < s.workers.len() ==> (#[trigger] s.workers[i]) !is Sending {
        lemma_seq_sum_zero(s.workers, in_burst());
    }
}

} // verus!
