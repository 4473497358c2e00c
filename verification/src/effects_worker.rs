//! What each step of a worker does, told by what is there before it and after it.

use vstd::prelude::*;
use crate::effects::{all_unregistered, law_completion};
use crate::history::Action;
use crate::integrity::{owed_by_worker, requested_for, running};
use crate::laws::law_kept_in_order;
use crate::model::{ReceiverState, State, WorkerState, WorkerStep};
use crate::order::worked;
use crate::preserve::lemma_served_known;
use crate::stats::SchedulerStats;
use crate::status::StatusEvent;
use crate::tally::{lemma_seq_sum_bounds, lemma_seq_sum_drop_first, lemma_seq_sum_update};
use crate::types::{CANCELLED, NO_MORE_WORK, RUNNING, SHUTTING_DOWN};

verus! {

/// One state is the other, but that a shutdown was completed in between where nothing was pending
/// any more: then every receiver left the registry and the end was told.
pub open spec fn completed_if_due<T>(before: State<T>, after: State<T>) -> bool {
    if before.lifecycle == SHUTTING_DOWN && before.nothing_pending() {
        &&& after.lifecycle == NO_MORE_WORK
        &&& !after.terminal_open
        &&& after.no_more_work_emitted
        &&& after.events == before.events.push(StatusEvent::NoMoreWork)
        &&& all_unregistered(before.receivers, after.receivers)
        &&& after == (State {
            lifecycle: after.lifecycle,
            terminal_open: after.terminal_open,
            no_more_work_emitted: after.no_more_work_emitted,
            events: after.events,
            receivers: after.receivers,
            ..before
        })
    } else {
        after == before
    }
}

/// The receiver `id` is now `receiver`, or is forgotten where neither of its ends is left.
pub open spec fn receiver_replaced<T>(
    before: Map<usize, ReceiverState<T>>,
    id: usize,
    receiver: ReceiverState<T>,
) -> Map<usize, ReceiverState<T>> {
    if receiver.rx_open || receiver.tx_open {
        before.insert(id, receiver)
    } else {
        before.remove(id)
    }
}

/// A receiver for which `count` items less are requested. Its sending end goes where the receiver
/// has left the registry and nothing is owed to it or has to be taken back from it any more.
pub open spec fn demand_lowered<T>(r: ReceiverState<T>, count: usize) -> ReceiverState<T> {
    ReceiverState {
        outstanding: (r.outstanding - count) as usize,
        owed: (r.owed - count) as usize,
        tx_open: r.tx_open && (!r.closing || r.owed > count || r.draining),
        ..r
    }
}

/// A worker without a request ends where the feeder was cancelled, or has ended and has no request
/// queued. It takes the first queued request, whole, where there is one. Else it completes a
/// shutdown that has nothing to wait for, or waits and changes nothing.
pub proof fn law_idle_worker<T>(s: State<T>, worker: int)
    requires
        s.inv(),
        0 <= worker < s.workers.len(),
        s.workers[worker] is Idle,
    ensures
        ({
            let t = s.worker_step(worker).0;
            let step = s.worker_step(worker).1;
            let ends = s.lifecycle == CANCELLED || (s.demand.len() == 0 && !s.terminal_open);
            &&& step is Exit <==> ends
            &&& ends ==> t.workers[worker] is Exited
            &&& !ends && s.demand.len() > 0 ==> {
                &&& step is Progress
                &&& t.workers[worker] == (WorkerState::<T>::Serving {
                    receiver: s.demand.first().receiver,
                    count: s.demand.first().count,
                })
                &&& seq![s.demand.first()] + t.demand == s.demand
                &&& t.workers == s.workers.update(worker, t.workers[worker])
                &&& t == (State { demand: t.demand, workers: t.workers, ..s })
            }
            &&& !ends && s.demand.len() == 0 ==> {
                &&& completed_if_due(s, t)
                &&& step is Wait <==> !(s.lifecycle == SHUTTING_DOWN && s.nothing_pending())
            }
        }),
{
    let t = s.worker_step(worker).0;
    law_completion(s);
    if s.lifecycle != CANCELLED && s.demand.len() > 0 {
        assert(seq![s.demand.first()] + t.demand =~= s.demand);
        assert(t.workers =~= s.workers.update(worker, t.workers[worker]));
    }
}

/// A worker that ends is no longer counted. While others are left, nothing else changes. The last
/// one takes the queues with it and tells of the end: nothing is owed to any receiver any more, and
/// the receivers keep what they have buffered.
pub proof fn law_worker_ends<T>(s: State<T>, worker: int)
    requires
        s.inv(),
        0 <= worker < s.workers.len(),
        s.workers[worker] is Idle,
        s.lifecycle == CANCELLED || (s.demand.len() == 0 && !s.terminal_open),
    ensures
        ({
            let t = s.worker_step(worker).0;
            &&& t.workers[worker] is Exited
            &&& t.workers == s.workers.update(worker, t.workers[worker])
            &&& t.active_workers == s.active_workers - 1
            &&& s.active_workers > 1 ==> t == (State {
                workers: t.workers,
                active_workers: t.active_workers,
                ..s
            })
            &&& s.active_workers == 1 ==> {
                &&& t.ingress.len() == 0 && t.recovered.len() == 0 && t.demand.len() == 0
                &&& t.events == s.events.push(StatusEvent::SchedulerExited)
                &&& forall|id: usize| #[trigger]
                    t.receivers.contains_key(id) <==> s.receivers.contains_key(id) && (
                    s.receivers[id].rx_open || (s.receivers[id].tx_open && (
                    !s.receivers[id].closing || s.receivers[id].draining)))
                &&& forall|id: usize| #[trigger]
                    t.receivers.contains_key(id) ==> t.receivers[id] == (ReceiverState {
                        owed: 0,
                        tx_open: s.receivers[id].tx_open && (!s.receivers[id].closing
                            || s.receivers[id].draining),
                        ..s.receivers[id]
                    })
                &&& t == (State {
                    workers: t.workers,
                    active_workers: t.active_workers,
                    ingress: t.ingress,
                    recovered: t.recovered,
                    demand: t.demand,
                    receivers: t.receivers,
                    events: t.events,
                    ..s
                })
            }
        }),
{
    let t = s.worker_step(worker).0;
    lemma_seq_sum_bounds(s.workers, running());
    assert(running::<T>()(s.workers[worker]) == 1);
    assert(t.workers =~= s.workers.update(worker, t.workers[worker]));
}

/// A worker that has ended stays so, and changes nothing.
pub proof fn law_ended_worker<T>(s: State<T>, worker: int)
    requires
        s.workers[worker] is Exited,
    ensures
        s.worker_step(worker) == (s, WorkerStep::Exit),
{
}

/// A worker gives up a request exactly where the feeder was cancelled, the receiver has left the
/// registry, or a shutdown has no item left that is on its way. It then gives up all of it: what is
/// requested for the receiver, and pending, goes down by the count, which is counted as abandoned.
/// A shutdown that has nothing to wait for any more is then completed, unless the feeder was
/// cancelled or the receiver has left.
pub proof fn law_request_given_up<T>(s: State<T>, worker: int, id: usize, count: usize)
    requires
        s.inv(),
        0 <= worker < s.workers.len(),
        s.workers[worker] == (WorkerState::<T>::Serving { receiver: id, count }),
        s.lifecycle == CANCELLED || s.receivers[id].closing || ((s.lifecycle == SHUTTING_DOWN
            || s.lifecycle == NO_MORE_WORK) && s.ingress_pending == 0 && s.recovered_pending == 0
            && s.active_worker_items == 0),
    ensures
        ({
            let t = s.worker_step(worker).0;
            let r = s.receivers[id];
            let given_up = State {
                workers: s.workers.update(worker, WorkerState::Idle),
                demand_pending: s.demand_pending.wrapping_sub(count),
                scheduler_stats: SchedulerStats {
                    demand_abandoned: s.scheduler_stats.demand_abandoned.wrapping_add(count as u64),
                    ..s.scheduler_stats
                },
                receivers: receiver_replaced(s.receivers, id, demand_lowered(r, count)),
                ..s
            };
            &&& s.worker_step(worker).1 is Progress
            &&& s.receivers.contains_key(id)
            &&& 0 < count <= r.owed <= r.outstanding
            &&& if s.lifecycle == CANCELLED || r.closing {
                t == given_up
            } else {
                completed_if_due(given_up, t)
            }
        }),
{
    assert(State::worker_ok(s.workers[worker]));
    lemma_served_known(s, worker, id);
    assert(s.receiver_ok(s.receivers[id]));
    let abandoned = s.abandon_demand(id, count);
    law_completion(abandoned);
    let idle = abandoned.with_worker(worker, WorkerState::Idle);
    assert(idle.receivers =~= receiver_replaced(
        s.receivers,
        id,
        demand_lowered(s.receivers[id], count),
    ));
}

/// A worker keeps its request otherwise. Where an item is queued it takes one: the first of those
/// that were taken back, or else the first that was sent. Where none is queued it waits, and
/// changes nothing.
pub proof fn law_request_served<T>(s: State<T>, worker: int, id: usize, count: usize)
    requires
        s.inv(),
        0 <= worker < s.workers.len(),
        s.workers[worker] == (WorkerState::<T>::Serving { receiver: id, count }),
        s.lifecycle != CANCELLED,
        !s.receivers[id].closing,
        s.lifecycle == RUNNING || s.ingress_pending > 0 || s.recovered_pending > 0
            || s.active_worker_items > 0,
    ensures
        ({
            let t = s.worker_step(worker).0;
            let step = s.worker_step(worker).1;
            let from_recovered = s.recovered.len() > 0;
            &&& from_recovered || s.ingress.len() > 0 ==> {
                let item = if from_recovered {
                    s.recovered.first()
                } else {
                    s.ingress.first()
                };
                let taken = State {
                    workers: s.workers.update(
                        worker,
                        WorkerState::Holding { receiver: id, count, item },
                    ),
                    active_worker_items: s.active_worker_items.wrapping_add(1),
                    ..s
                };
                &&& step is Progress
                &&& from_recovered ==> {
                    &&& seq![item] + t.recovered == s.recovered
                    &&& t == (State {
                        recovered: t.recovered,
                        recovered_pending: s.recovered_pending.wrapping_sub(1),
                        scheduler_stats: SchedulerStats {
                            recovered_routed: s.scheduler_stats.recovered_routed.wrapping_add(1),
                            ..s.scheduler_stats
                        },
                        ..taken
                    })
                }
                &&& !from_recovered ==> {
                    &&& seq![item] + t.ingress == s.ingress
                    &&& t == (State {
                        ingress: t.ingress,
                        ingress_pending: s.ingress_pending.wrapping_sub(1),
                        scheduler_stats: SchedulerStats {
                            ingress_consumed: s.scheduler_stats.ingress_consumed.wrapping_add(1),
                            ..s.scheduler_stats
                        },
                        ..taken
                    })
                }
            }
            &&& !from_recovered && s.ingress.len() == 0 ==> step is Wait && t == s
        }),
{
    let t = s.worker_step(worker).0;
    assert(State::worker_ok(s.workers[worker]));
    lemma_served_known(s, worker, id);
    assert(s.receiver_ok(s.receivers[id]));
    if s.recovered.len() > 0 {
        assert(seq![s.recovered.first()] + t.recovered =~= s.recovered);
    } else if s.ingress.len() > 0 {
        assert(seq![s.ingress.first()] + t.ingress =~= s.ingress);
    }
}

/// A worker that holds an item for a registered receiver starts to send to it. Where the receiver
/// has left the registry, the request is given up, and the item is taken back, behind those that
/// were, unless the feeder has ended.
pub proof fn law_item_in_hand<T>(s: State<T>, worker: int, id: usize, count: usize, item: T)
    requires
        s.inv(),
        0 <= worker < s.workers.len(),
        s.workers[worker] == (WorkerState::Holding { receiver: id, count, item }),
    ensures
        ({
            let t = s.worker_step(worker).0;
            let r = s.receivers[id];
            let back = s.lifecycle != CANCELLED && s.lifecycle != NO_MORE_WORK;
            &&& s.worker_step(worker).1 is Progress
            &&& s.receivers.contains_key(id)
            &&& 0 < count <= r.owed <= r.outstanding
            &&& !r.closing ==> t == (State {
                workers: s.workers.update(
                    worker,
                    WorkerState::Sending { receiver: id, count, item, fulfilled: 0 },
                ),
                receivers: s.receivers.insert(
                    id,
                    ReceiverState { active_sends: (r.active_sends + 1) as usize, ..r },
                ),
                ..s
            })
            &&& r.closing ==> t == (State {
                workers: s.workers.update(worker, WorkerState::Idle),
                active_worker_items: s.active_worker_items.wrapping_sub(1),
                demand_pending: s.demand_pending.wrapping_sub(count),
                receivers: receiver_replaced(s.receivers, id, demand_lowered(r, count)),
                recovered: if back {
                    s.recovered.push(item)
                } else {
                    s.recovered
                },
                recovered_pending: if back {
                    s.recovered_pending.wrapping_add(1)
                } else {
                    s.recovered_pending
                },
                scheduler_stats: SchedulerStats {
                    demand_abandoned: s.scheduler_stats.demand_abandoned.wrapping_add(count as u64),
                    recovered_enqueued: if back {
                        s.scheduler_stats.recovered_enqueued.wrapping_add(1)
                    } else {
                        s.scheduler_stats.recovered_enqueued
                    },
                    ..s.scheduler_stats
                },
                ..s
            })
        }),
{
    let t = s.worker_step(worker).0;
    assert(State::worker_ok(s.workers[worker]));
    lemma_served_known(s, worker, id);
    assert(s.receiver_ok(s.receivers[id]));
    if s.receivers[id].closing {
        assert(t.receivers =~= receiver_replaced(
            s.receivers,
            id,
            demand_lowered(s.receivers[id], count),
        ));
    }
}

/// A worker that is sending puts its item at the end of what the receiver has buffered, and owes it
/// one less. It goes on with the next item, taken as ever, where it owes more, the receiver is
/// registered, the feeder was not cancelled and an item is queued.
pub proof fn law_burst_goes_on<T>(
    s: State<T>,
    worker: int,
    id: usize,
    count: usize,
    item: T,
    fulfilled: usize,
)
    requires
        s.inv(),
        0 <= worker < s.workers.len(),
        s.workers[worker] == (WorkerState::Sending { receiver: id, count, item, fulfilled }),
        count > 1,
        s.lifecycle != CANCELLED,
        !s.receivers[id].closing,
        s.recovered.len() + s.ingress.len() > 0,
    ensures
        ({
            let t = s.worker_step(worker).0;
            let r = s.receivers[id];
            let from_recovered = s.recovered.len() > 0;
            let next = if from_recovered {
                s.recovered.first()
            } else {
                s.ingress.first()
            };
            let sent = State {
                workers: s.workers.update(
                    worker,
                    WorkerState::Sending {
                        receiver: id,
                        count: (count - 1) as usize,
                        item: next,
                        fulfilled: (fulfilled + 1) as usize,
                    },
                ),
                receivers: s.receivers.insert(
                    id,
                    ReceiverState {
                        data: r.data.push(item),
                        owed: (r.owed - 1) as usize,
                        ..r
                    },
                ),
                delivered_inflight: s.delivered_inflight.wrapping_add(1),
                active_worker_items: s.active_worker_items.wrapping_add(1),
                ..s
            };
            &&& s.worker_step(worker).1 is Progress
            &&& s.receivers.contains_key(id)
            &&& count <= r.owed
            &&& fulfilled < usize::MAX
            &&& from_recovered ==> {
                &&& seq![next] + t.recovered == s.recovered
                &&& t == (State {
                    recovered: t.recovered,
                    recovered_pending: s.recovered_pending.wrapping_sub(1),
                    scheduler_stats: SchedulerStats {
                        recovered_routed: s.scheduler_stats.recovered_routed.wrapping_add(1),
                        ..s.scheduler_stats
                    },
                    ..sent
                })
            }
            &&& !from_recovered ==> {
                &&& seq![next] + t.ingress == s.ingress
                &&& t == (State {
                    ingress: t.ingress,
                    ingress_pending: s.ingress_pending.wrapping_sub(1),
                    scheduler_stats: SchedulerStats {
                        ingress_consumed: s.scheduler_stats.ingress_consumed.wrapping_add(1),
                        ..s.scheduler_stats
                    },
                    ..sent
                })
            }
        }),
{
    let t = s.worker_step(worker).0;
    assert(State::worker_ok(s.workers[worker]));
    lemma_served_known(s, worker, id);
    assert(s.receiver_ok(s.receivers[id]));
    if s.recovered.len() > 0 {
        assert(seq![s.recovered.first()] + t.recovered =~= s.recovered);
    } else {
        assert(seq![s.ingress.first()] + t.ingress =~= s.ingress);
    }
}

/// A worker that is sending and does not go on puts its item at the end of what the receiver has
/// buffered and ends the burst. All that was delivered in it is counted as fulfilled and routed,
/// and is no longer pending. The worker keeps what is left of the request. A shutdown that has
/// nothing to wait for any more is completed.
pub proof fn law_burst_ends<T>(
    s: State<T>,
    worker: int,
    id: usize,
    count: usize,
    item: T,
    fulfilled: usize,
)
    requires
        s.inv(),
        0 <= worker < s.workers.len(),
        s.workers[worker] == (WorkerState::Sending { receiver: id, count, item, fulfilled }),
        count == 1 || s.lifecycle == CANCELLED || s.receivers[id].closing || s.recovered.len()
            + s.ingress.len() == 0,
    ensures
        ({
            let t = s.worker_step(worker).0;
            let r = s.receivers[id];
            let total = (fulfilled + 1) as usize;
            let sent = ReceiverState {
                data: r.data.push(item),
                owed: (r.owed - 1) as usize,
                active_sends: (r.active_sends - 1) as usize,
                tx_open: r.tx_open && (!r.closing || r.owed > 1 || r.draining),
                ..r
            };
            let ended = State {
                workers: s.workers.update(
                    worker,
                    if count == 1 {
                        WorkerState::Idle
                    } else {
                        WorkerState::Serving { receiver: id, count: (count - 1) as usize }
                    },
                ),
                receivers: s.receivers.insert(id, sent),
                delivered_inflight: s.delivered_inflight.wrapping_add(1),
                demand_pending: s.demand_pending.wrapping_sub(total),
                active_worker_items: s.active_worker_items.wrapping_sub(total),
                scheduler_stats: SchedulerStats {
                    demand_fulfilled: s.scheduler_stats.demand_fulfilled.wrapping_add(total as u64),
                    output_routed: s.scheduler_stats.output_routed.wrapping_add(total as u64),
                    ..s.scheduler_stats
                },
                ..s
            };
            &&& s.worker_step(worker).1 is Progress
            &&& s.receivers.contains_key(id)
            &&& 0 < count <= r.owed
            &&& r.active_sends > 0
            &&& fulfilled < usize::MAX
            &&& completed_if_due(ended, t)
        }),
{
    assert(State::worker_ok(s.workers[worker]));
    lemma_served_known(s, worker, id);
    assert(s.receiver_ok(s.receivers[id]));
    let r = s.receivers[id];
    let t = s.worker_step(worker).0;
    let total = (fulfilled + 1) as usize;
    let after = s.delivered(id, item);
    assert(after.item_for(id) is None || count == 1);
    let freed = after.put_receiver(
        id,
        ReceiverState {
            active_sends: after.receivers[id].active_sends.wrapping_sub(1),
            ..after.receivers[id]
        },
    );
    let sent = ReceiverState {
        data: r.data.push(item),
        owed: (r.owed - 1) as usize,
        active_sends: (r.active_sends - 1) as usize,
        tx_open: r.tx_open && (!r.closing || r.owed > 1 || r.draining),
        ..r
    };
    assert(freed.receivers =~= s.receivers.insert(id, sent));
    let counted = State {
        demand_pending: freed.demand_pending.wrapping_sub(total),
        active_worker_items: freed.active_worker_items.wrapping_sub(total),
        scheduler_stats: SchedulerStats {
            demand_fulfilled: freed.scheduler_stats.demand_fulfilled.wrapping_add(total as u64),
            output_routed: freed.scheduler_stats.output_routed.wrapping_add(total as u64),
            ..freed.scheduler_stats
        },
        ..freed
    };
    law_completion(counted);
}

/// In service a worker never gives up what a registered receiver has requested: what is owed to the
/// receiver goes down only by what is delivered to it, one for one. So it is during a shutdown, as
/// long as an item is on its way. Nothing is abandoned on its account.
#[verifier::rlimit(30)]
pub proof fn law_requests_are_kept<T>(s: State<T>, worker: int, id: usize)
    requires
        s.inv(),
        0 <= worker < s.workers.len(),
        s.receivers.contains_key(id),
        !s.receivers[id].closing,
        s.lifecycle == RUNNING || (s.lifecycle == SHUTTING_DOWN && (s.ingress_pending > 0
            || s.recovered_pending > 0 || s.active_worker_items > 0)),
    ensures
        ({
            let t = s.worker_step(worker).0;
            &&& t.receivers.contains_key(id)
            &&& t.owed_to(id) + t.receivers[id].data.len() == s.owed_to(id)
                + s.receivers[id].data.len()
            &&& t.receivers[id].outstanding == s.receivers[id].outstanding
            &&& t.owed_to(id) <= s.owed_to(id)
            &&& s.receivers[id].data.is_prefix_of(t.receivers[id].data)
        }),
{
    let t = s.worker_step(worker).0;
    let next = t.workers[worker];
    assert(State::worker_ok(s.workers[worker]));
    assert(s.receiver_ok(s.receivers[id]));
    lemma_seq_sum_update(s.workers, worker, next, owed_by_worker(id));
    match s.workers[worker] {
        WorkerState::Idle => {
            law_idle_worker(s, worker);
            if s.demand.len() > 0 {
                lemma_seq_sum_drop_first(s.demand, requested_for(id));
                assert(t.demand =~= s.demand.drop_first());
            }
        },
        WorkerState::Serving { receiver, count } => {
            lemma_served_known(s, worker, receiver);
            lemma_kept_while_serving(s, worker, receiver, count, id);
        },
        WorkerState::Holding { receiver, count, item } => {
            law_item_in_hand(s, worker, receiver, count, item);
            assert(receiver == id ==> !s.receivers[receiver].closing);
        },
        WorkerState::Sending { receiver, count, item, fulfilled } => {
            lemma_served_known(s, worker, receiver);
            if count > 1 && !s.receivers[receiver].closing && s.recovered.len() + s.ingress.len()
                > 0 {
                law_burst_goes_on(s, worker, receiver, count, item, fulfilled);
            } else {
                law_burst_ends(s, worker, receiver, count, item, fulfilled);
            }
        },
        WorkerState::Exited => {},
    }
    assert(t.workers =~= s.workers.update(worker, next));
}

proof fn lemma_kept_while_serving<T>(
    s: State<T>,
    worker: int,
    receiver: usize,
    count: usize,
    id: usize,
)
    requires
        s.inv(),
        0 <= worker < s.workers.len(),
        s.workers[worker] == (WorkerState::<T>::Serving { receiver, count }),
        s.receivers.contains_key(id),
        !s.receivers[id].closing,
        s.lifecycle == RUNNING || (s.lifecycle == SHUTTING_DOWN && (s.ingress_pending > 0
            || s.recovered_pending > 0 || s.active_worker_items > 0)),
    ensures
        ({
            let t = s.worker_step(worker).0;
            &&& t.receivers.contains_key(id)
            &&& t.receivers[id] == s.receivers[id]
            &&& t.demand == s.demand
            &&& t.workers == s.workers.update(worker, t.workers[worker])
            &&& owed_by_worker::<T>(id)(t.workers[worker]) == owed_by_worker::<T>(id)(
                s.workers[worker],
            )
        }),
{
    let t = s.worker_step(worker).0;
    if s.receivers[receiver].closing {
        law_request_given_up(s, worker, receiver, count);
    } else {
        law_request_served(s, worker, receiver, count);
    }
    assert(t.workers =~= s.workers.update(worker, t.workers[worker]));
}

/// Nothing is abandoned in service, as long as the receiver that a worker has a request of is
/// registered.
pub proof fn law_nothing_abandoned_in_service<T>(s: State<T>, worker: int)
    requires
        s.inv(),
        0 <= worker < s.workers.len(),
        s.lifecycle == RUNNING,
        match s.workers[worker] {
            WorkerState::Serving { receiver, count } => !s.receivers[receiver].closing,
            WorkerState::Holding { receiver, count, item } => !s.receivers[receiver].closing,
            _ => true,
        },
    ensures
        s.worker_step(worker).0.scheduler_stats.demand_abandoned
            == s.scheduler_stats.demand_abandoned,
        s.worker_step(worker).0.lifecycle == RUNNING,
{
    assert(State::worker_ok(s.workers[worker]));
    match s.workers[worker] {
        WorkerState::Idle => {
            law_idle_worker(s, worker);
        },
        WorkerState::Serving { receiver, count } => {
            law_request_served(s, worker, receiver, count);
        },
        WorkerState::Holding { receiver, count, item } => {
            law_item_in_hand(s, worker, receiver, count, item);
        },
        WorkerState::Sending { receiver, count, item, fulfilled } => {
            if count > 1 && !s.receivers[receiver].closing && s.recovered.len() + s.ingress.len()
                > 0 {
                law_burst_goes_on(s, worker, receiver, count, item, fulfilled);
            } else {
                law_burst_ends(s, worker, receiver, count, item, fulfilled);
            }
        },
        WorkerState::Exited => {},
    }
}

/// A worker that waits with a request of a registered receiver serves it as soon as something is
/// sent: three steps after an item was sent, the item stands at the end of what the receiver has
/// buffered, unless others act in between.
pub proof fn law_waiting_request_is_served<T>(
    s: State<T>,
    worker: int,
    id: usize,
    count: usize,
    item: T,
)
    requires
        s.inv(),
        s.lifecycle == RUNNING,
        s.accepting_ingress,
        s.active_producer_sends < usize::MAX,
        0 <= worker < s.workers.len(),
        s.workers[worker] == (WorkerState::<T>::Serving { receiver: id, count }),
        !s.receivers[id].closing,
        s.ingress.len() == 0,
        s.recovered.len() == 0,
    ensures
        s.worker_step(worker) == (s, WorkerStep::Wait),
        ({
            let sent = s.after(Action::BeginSend).after(Action::FinishSend { items: seq![item] });
            let t = worked(sent, worker, 3);
            &&& t.receivers.contains_key(id)
            &&& t.receivers[id].data == s.receivers[id].data.push(item)
            &&& t.ingress.len() == 0
        }),
{
    reveal_with_fuel(worked, 4);
    law_request_served(s, worker, id, count);
    let begun = s.after(Action::BeginSend);
    let sent = begun.after(Action::FinishSend { items: seq![item] });
    law_kept_in_order(s, Action::BeginSend);
    law_kept_in_order(begun, Action::FinishSend { items: seq![item] });
    assert(sent.ingress =~= seq![item]);
    law_request_served(sent, worker, id, count);
    let holding = worked(sent, worker, 1);
    law_kept_in_order(sent, Action::Work { worker });
    assert(holding.ingress.len() == 0);
    law_item_in_hand(holding, worker, id, count, item);
    let sending = worked(sent, worker, 2);
    law_kept_in_order(holding, Action::Work { worker });
    law_burst_ends(sending, worker, id, count, item, 0);
}

} // verus!
