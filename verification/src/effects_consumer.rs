//! What each operation of a receiver does, told by what is there before it and after it.

use vstd::prelude::*;
use crate::effects::{all_unregistered, law_completion};
use crate::history::Action;
use crate::laws::law_kept_in_order;
use crate::model::{DemandCommand, ReceiverState, State};
use crate::preserve::lemma_all_recovered;
use crate::stats::{ConsumerStats, SchedulerStats};
use crate::status::StatusEvent;
use crate::types::{
    Attempt, GetError, ReceiverId, TryGet, TryGetOne, CANCELLED, NO_MORE_WORK, RUNNING,
    SHUTTING_DOWN,
};

verus! {

/// The receiver `id` still has its receiving end.
pub open spec fn in_use<T>(s: State<T>, id: usize) -> bool {
    s.receivers.contains_key(id) && s.receivers[id].rx_open
}

/// The receiver `id` has something to read.
pub open spec fn has_items<T>(s: State<T>, id: usize) -> bool {
    in_use(s, id) && s.receivers[id].data.len() > 0
}

/// The receiver `id` has nothing to read, and someone may still deliver to it.
pub open spec fn may_get_some<T>(s: State<T>, id: usize) -> bool {
    in_use(s, id) && s.receivers[id].data.len() == 0 && s.receivers[id].tx_open
}

// ---- what a receiver is told ----

/// A receiver that waits for items gets them from the front of what it has buffered, as many as it
/// asks for or as there are. Without any it waits exactly where someone may still deliver to it,
/// and else is told that the feeder was cancelled or that there is no more work.
pub proof fn law_get_tells<T>(
    s: State<T>,
    id: usize,
    max: usize,
    outcome: Attempt<Result<Vec<T>, GetError>>,
)
    requires
        max > 0,
    ensures
        s.gives(id, max, outcome) <==> match outcome {
            Attempt::Ready(Ok(items)) => {
                &&& has_items(s, id)
                &&& items@.is_prefix_of(s.receivers[id].data)
                &&& 0 < items@.len() <= max
                &&& items@.len() == max || items@.len() == s.receivers[id].data.len()
            },
            Attempt::Ready(Err(error)) => {
                &&& !has_items(s, id)
                &&& !may_get_some(s, id)
                &&& error is Cancelled <==> s.lifecycle == CANCELLED
            },
            Attempt::Wait => may_get_some(s, id),
        },
{
    if let Attempt::Ready(Ok(items)) = outcome {
        if has_items(s, id) {
            let data = s.receivers[id].data;
            let n = s.available(id, max);
            if s.gives(id, max, outcome) {
                assert(items@ == data.take(n));
                assert(items@ =~= data.subrange(0, n));
            }
            if items@.is_prefix_of(data) && 0 < items@.len() <= max && (items@.len() == max
                || items@.len() == data.len()) {
                assert(items@.len() == n);
                assert(items@ =~= data.take(n));
            }
        }
    }
}

/// A receiver that waits for one item gets the first that it has buffered. Without any it waits
/// exactly where someone may still deliver to it.
pub proof fn law_get_one_tells<T>(s: State<T>, id: usize, outcome: Attempt<Result<T, GetError>>)
    ensures
        s.gives_one(id, outcome) <==> match outcome {
            Attempt::Ready(Ok(item)) => has_items(s, id) && item == s.receivers[id].data.first(),
            Attempt::Ready(Err(error)) => {
                &&& !has_items(s, id)
                &&& !may_get_some(s, id)
                &&& error is Cancelled <==> s.lifecycle == CANCELLED
            },
            Attempt::Wait => may_get_some(s, id),
        },
{
}

/// A receiver that does not wait gets items from the front of what it has buffered, as many as it
/// asks for or as there are. Without any it is told how the feeder is, and that there is no more
/// work where nobody can deliver to it any more.
pub proof fn law_try_get_tells<T>(s: State<T>, id: usize, max: usize, outcome: TryGet<T>)
    requires
        max > 0,
    ensures
        s.offers(id, max, outcome) <==> match outcome {
            TryGet::Items(items) => {
                &&& has_items(s, id)
                &&& items@.is_prefix_of(s.receivers[id].data)
                &&& 0 < items@.len() <= max
                &&& items@.len() == max || items@.len() == s.receivers[id].data.len()
            },
            TryGet::Empty => may_get_some(s, id) && s.lifecycle == RUNNING,
            TryGet::InShutdown => may_get_some(s, id) && s.lifecycle == SHUTTING_DOWN,
            TryGet::Cancelled => !has_items(s, id) && s.lifecycle == CANCELLED,
            TryGet::NoMoreWork => !has_items(s, id) && s.lifecycle != CANCELLED && (may_get_some(
                s,
                id,
            ) ==> s.lifecycle == NO_MORE_WORK),
        },
{
    if let TryGet::Items(items) = outcome {
        if has_items(s, id) {
            let data = s.receivers[id].data;
            let n = s.available(id, max);
            if s.offers(id, max, outcome) {
                assert(items@ == data.take(n));
                assert(items@ =~= data.subrange(0, n));
            }
            if items@.is_prefix_of(data) && 0 < items@.len() <= max && (items@.len() == max
                || items@.len() == data.len()) {
                assert(items@.len() == n);
                assert(items@ =~= data.take(n));
            }
        }
    }
}

/// A receiver that does not wait and asks for one item gets the first that it has buffered. Without
/// any it is told how the feeder is.
pub proof fn law_try_get_one_tells<T>(s: State<T>, id: usize, outcome: TryGetOne<T>)
    ensures
        s.offers_one(id, outcome) <==> match outcome {
            TryGetOne::Item(item) => has_items(s, id) && item == s.receivers[id].data.first(),
            TryGetOne::Empty => may_get_some(s, id) && s.lifecycle == RUNNING,
            TryGetOne::InShutdown => may_get_some(s, id) && s.lifecycle == SHUTTING_DOWN,
            TryGetOne::Cancelled => !has_items(s, id) && s.lifecycle == CANCELLED,
            TryGetOne::NoMoreWork => !has_items(s, id) && s.lifecycle != CANCELLED && (may_get_some(
                s,
                id,
            ) ==> s.lifecycle == NO_MORE_WORK),
        },
{
}

// ---- what a read does ----

/// Reading splits what a receiver has buffered: what it is given, and after that what it keeps.
/// Nobody else's items are touched. A receiver that has nothing, is gone, or asks for nothing, is
/// given nothing, and nothing changes.
pub proof fn law_read_splits_the_buffer<T>(s: State<T>, id: usize, max: usize)
    requires
        s.inv(),
    ensures
        ({
            let t = s.after(Action::Consume { id, max });
            let given = s.consumed_by(Action::Consume { id, max });
            &&& given == s.taken(id, max)
            &&& has_items(s, id) && max > 0 ==> {
                &&& 0 < given.len() <= max
                &&& given.len() == max || given.len() == s.receivers[id].data.len()
                &&& t.receivers.contains_key(id)
                &&& given + t.receivers[id].data == s.receivers[id].data
            }
            &&& !has_items(s, id) || max == 0 ==> given.len() == 0 && t == s
            &&& t.receivers.dom() == s.receivers.dom()
            &&& forall|other: usize|
                other != id && #[trigger] s.receivers.contains_key(other)
                    ==> t.receivers[other].data == s.receivers[other].data
            &&& t.ingress == s.ingress && t.recovered == s.recovered && t.workers == s.workers
        }),
{
    let t = s.after(Action::Consume { id, max });
    let given = s.consumed_by(Action::Consume { id, max });
    if has_items(s, id) && max > 0 {
        lemma_read_keeps_the_rest(s, id, max);
        assert(given + t.receivers[id].data =~= s.receivers[id].data);
        law_read_reports_and_completes(s, id, max);
        assert(t.receivers.dom() =~= s.receivers.dom());
        let read = t.receivers[id];
        assert forall|other: usize|
            other != id && #[trigger] s.receivers.contains_key(
                other,
            ) implies t.receivers[other].data == s.receivers[other].data by {
            assert(s.receivers.insert(id, read).contains_key(other));
        }
    } else {
        assert(s.available(id, max) == 0);
    }
}

proof fn lemma_read_keeps_the_rest<T>(s: State<T>, id: usize, max: usize)
    requires
        s.inv(),
        max > 0,
        has_items(s, id),
    ensures
        ({
            let t = s.consumed(id, max);
            let got = s.available(id, max);
            &&& t.receivers.contains_key(id)
            &&& t.receivers[id].data == s.receivers[id].data.skip(got)
            &&& t.ingress == s.ingress && t.recovered == s.recovered && t.workers == s.workers
        }),
{
}

/// A read that gives `got` items takes them off what was requested and not consumed. Where that
/// leaves the receiver below its low mark, it requests what it lacks to its high mark, by one
/// command, as long as a worker is left to hear it. Where it is not below, it requests nothing. The
/// counters follow.
pub proof fn law_read_requests_what_is_lacking<T>(s: State<T>, id: usize, max: usize)
    requires
        s.inv(),
        max > 0,
        has_items(s, id),
    ensures
        ({
            let t = s.after(Action::Consume { id, max });
            let got = s.consumed_by(Action::Consume { id, max }).len();
            let r = s.receivers[id];
            let after = t.receivers[id];
            let left = r.outstanding - got;
            let lacking = (r.high_water - left) as usize;
            let asks = r.tx_open && left < r.low_water;
            let heard = asks && s.active_workers > 0;
            let stats = s.consumer_stats[r.stats as int];
            &&& r.tx_open ==> left >= 0
            &&& after.outstanding == if !r.tx_open {
                r.outstanding as int
            } else if heard {
                r.high_water as int
            } else {
                left
            }
            &&& after.owed == if heard {
                r.owed + lacking
            } else {
                r.owed as int
            }
            &&& t.demand == if heard {
                s.demand.push(DemandCommand { receiver: id, count: lacking })
            } else {
                s.demand
            }
            &&& t.demand_pending == if heard {
                s.demand_pending.wrapping_add(lacking)
            } else {
                s.demand_pending
            }
            &&& t.unheard == s.unheard + if asks && !heard {
                lacking as nat
            } else {
                0
            }
            &&& t.delivered_inflight == s.delivered_inflight.wrapping_sub(got as usize)
            &&& t.scheduler_stats == (SchedulerStats {
                demand_commands: if heard {
                    s.scheduler_stats.demand_commands.wrapping_add(1)
                } else {
                    s.scheduler_stats.demand_commands
                },
                demand_requested: if asks {
                    s.scheduler_stats.demand_requested.wrapping_add(lacking as u64)
                } else {
                    s.scheduler_stats.demand_requested
                },
                ..s.scheduler_stats
            })
            &&& t.consumer_stats == s.consumer_stats.update(
                r.stats as int,
                ConsumerStats {
                    get_calls: stats.get_calls.wrapping_add(1),
                    items_consumed: stats.items_consumed.wrapping_add(got as u64),
                    refill_messages: if asks {
                        stats.refill_messages.wrapping_add(1)
                    } else {
                        stats.refill_messages
                    },
                },
            )
        }),
{
    let t = s.after(Action::Consume { id, max });
    let r = s.receivers[id];
    assert(s.receiver_ok(r));
    let got = s.consumed_by(Action::Consume { id, max }).len();
    assert(got == s.available(id, max));
    assert(t.consumer_stats =~= s.consumer_stats.update(
        r.stats as int,
        t.consumer_stats[r.stats as int],
    ));
}

/// A read in service reports the receiver where it starts to get less than it asks for, or gets
/// enough again. A read during a shutdown completes it exactly where nothing is pending after it.
/// Beyond that, and beyond the buffer and the requests of the receiver, a read changes nothing.
pub proof fn law_read_reports_and_completes<T>(s: State<T>, id: usize, max: usize)
    requires
        s.inv(),
        max > 0,
        has_items(s, id),
    ensures
        ({
            let t = s.after(Action::Consume { id, max });
            let got = s.consumed_by(Action::Consume { id, max }).len();
            let r = s.receivers[id];
            let completes = s.lifecycle == SHUTTING_DOWN && t.nothing_pending();
            let read = ReceiverState {
                data: t.receivers[id].data,
                outstanding: t.receivers[id].outstanding,
                owed: t.receivers[id].owed,
                lagging: if s.lifecycle == RUNNING {
                    got < max
                } else {
                    r.lagging
                },
                ..r
            };
            &&& t.lifecycle == if completes {
                NO_MORE_WORK
            } else {
                s.lifecycle
            }
            &&& t.terminal_open == (s.terminal_open && !completes)
            &&& t.no_more_work_emitted == (s.no_more_work_emitted || completes)
            &&& t.events == if completes {
                s.events.push(StatusEvent::NoMoreWork)
            } else if s.lifecycle == RUNNING && got < max && !r.lagging {
                s.events.push(
                    StatusEvent::Lagging {
                        receiver_id: ReceiverId(id),
                        requested: max,
                        received: got as usize,
                    },
                )
            } else if s.lifecycle == RUNNING && got == max && r.lagging {
                s.events.push(StatusEvent::Recovered { receiver_id: ReceiverId(id) })
            } else {
                s.events
            }
            &&& if completes {
                all_unregistered(s.receivers.insert(id, read), t.receivers)
            } else {
                t.receivers == s.receivers.insert(id, read)
            }
            &&& t == (State {
                lifecycle: t.lifecycle,
                terminal_open: t.terminal_open,
                no_more_work_emitted: t.no_more_work_emitted,
                events: t.events,
                receivers: t.receivers,
                demand: t.demand,
                demand_pending: t.demand_pending,
                unheard: t.unheard,
                delivered_inflight: t.delivered_inflight,
                scheduler_stats: t.scheduler_stats,
                consumer_stats: t.consumer_stats,
                ..s
            })
        }),
{
    let t = s.after(Action::Consume { id, max });
    let r = s.receivers[id];
    assert(s.receiver_ok(r));
    let got = s.consumed_by(Action::Consume { id, max }).len();
    assert(got == s.available(id, max));
    let counted = s.with_receiver(
        id,
        ReceiverState { data: r.data.skip(got as int), ..r },
    ).consumption_counted(id, got as usize);
    let reported = counted.refilled(id).lag_updated(id, max, got as usize);
    let read = ReceiverState {
        data: t.receivers[id].data,
        outstanding: t.receivers[id].outstanding,
        owed: t.receivers[id].owed,
        lagging: if s.lifecycle == RUNNING {
            got < max
        } else {
            r.lagging
        },
        ..r
    };
    assert(reported.receivers[id] =~= read);
    assert(reported.receivers =~= s.receivers.insert(id, read));
    law_completion(reported);
}

// ---- giving a receiver up ----

/// Giving up a receiver that was not given up, and that someone may still deliver to, always takes
/// effect, however the feeder is: it leaves the registry, and what it has buffered has to be taken
/// back. Giving up one that nobody delivers to any more is only noted. Giving up a receiver again,
/// or one that is not there, changes nothing. Nothing else is touched.
pub proof fn law_giving_up_takes_effect<T>(s: State<T>, id: usize)
    ensures
        ({
            let t = s.after(Action::BeginDrop { id });
            let r = s.receivers[id];
            let after = t.receivers[id];
            let first = s.receivers.contains_key(id) && !r.dropped;
            &&& s.drop_begins(id) <==> first && r.tx_open
            &&& !first ==> t == s
            &&& first ==> {
                &&& after.dropped
                &&& after.closing == (r.closing || r.tx_open)
                &&& after.draining == (r.draining || r.tx_open)
                &&& after == (ReceiverState {
                    dropped: after.dropped,
                    closing: after.closing,
                    draining: after.draining,
                    ..r
                })
                &&& t.receivers == s.receivers.insert(id, after)
                &&& t == (State { receivers: t.receivers, ..s })
            }
        }),
{
    let t = s.after(Action::BeginDrop { id });
    if s.receivers.contains_key(id) {
        assert(t.receivers =~= s.receivers.insert(id, t.receivers[id]));
    }
}

/// The drop of a receiver that was given up is finished exactly where no worker is sending to it,
/// and is held up exactly where one is.
pub proof fn law_drop_finishes<T>(s: State<T>, id: usize)
    ensures
        s.drop_pending(id) <==> s.receivers.contains_key(id) && s.receivers[id].draining,
        s.drop_can_finish(id) <==> s.receivers.contains_key(id) && s.receivers[id].draining
            && s.receivers[id].active_sends == 0,
        s.drop_held_up(id) <==> s.receivers.contains_key(id) && s.receivers[id].draining
            && s.receivers[id].active_sends > 0,
        !(s.receivers.contains_key(id) && s.receivers[id].draining
            && s.receivers[id].active_sends == 0) ==> s.after(Action::FinishDrop { id }) == s,
{
}

/// Finishing a drop takes everything back that the receiver had buffered, in order, behind what was
/// taken back before, unless the feeder has ended. Their number is told and counted. The receiver
/// is left without its receiving end, and is forgotten once nothing is owed to it. A shutdown that
/// has nothing to wait for any more is completed. Nothing else changes.
pub proof fn law_drop_takes_back<T>(s: State<T>, id: usize)
    requires
        s.inv(),
        s.receivers.contains_key(id),
        s.receivers[id].draining,
        s.receivers[id].active_sends == 0,
    ensures
        ({
            let t = s.after(Action::FinishDrop { id });
            let r = s.receivers[id];
            let n = r.data.len();
            let back = s.lifecycle != CANCELLED && s.lifecycle != NO_MORE_WORK && s.active_workers
                > 0;
            let completes = s.lifecycle == SHUTTING_DOWN && t.nothing_pending();
            let gone = ReceiverState {
                data: Seq::<T>::empty(),
                rx_open: false,
                tx_open: r.tx_open && r.owed > 0,
                draining: false,
                outstanding: (r.outstanding - n) as usize,
                ..r
            };
            let receivers = if gone.tx_open {
                s.receivers.insert(id, gone)
            } else {
                s.receivers.remove(id)
            };
            let told = s.events.push(
                StatusEvent::ReceiverDropped {
                    receiver_id: ReceiverId(id),
                    recovered: n as usize,
                },
            );
            &&& r.outstanding >= n
            &&& t.recovered == if back {
                s.recovered + r.data
            } else {
                s.recovered
            }
            &&& t.delivered_inflight == s.delivered_inflight.wrapping_sub(n as usize)
            &&& t.recovered_pending == if back {
                s.recovered_pending.wrapping_add(n as usize)
            } else {
                s.recovered_pending
            }
            &&& t.scheduler_stats == (SchedulerStats {
                receiver_drop_recovered:
                    s.scheduler_stats.receiver_drop_recovered.wrapping_add(n as u64),
                recovered_enqueued: if back {
                    s.scheduler_stats.recovered_enqueued.wrapping_add(n as u64)
                } else {
                    s.scheduler_stats.recovered_enqueued
                },
                ..s.scheduler_stats
            })
            &&& t.events == if completes {
                told.push(StatusEvent::NoMoreWork)
            } else {
                told
            }
            &&& t.lifecycle == if completes {
                NO_MORE_WORK
            } else {
                s.lifecycle
            }
            &&& t.terminal_open == (s.terminal_open && !completes)
            &&& t.no_more_work_emitted == (s.no_more_work_emitted || completes)
            &&& if completes {
                all_unregistered(receivers, t.receivers)
            } else {
                t.receivers == receivers
            }
            &&& t == (State {
                recovered: t.recovered,
                recovered_pending: t.recovered_pending,
                delivered_inflight: t.delivered_inflight,
                scheduler_stats: t.scheduler_stats,
                lifecycle: t.lifecycle,
                terminal_open: t.terminal_open,
                no_more_work_emitted: t.no_more_work_emitted,
                events: t.events,
                receivers: t.receivers,
                ..s
            })
        }),
{
    let r = s.receivers[id];
    assert(s.receiver_ok(r));
    let n = r.data.len();
    let emptied = State {
        delivered_inflight: s.delivered_inflight.wrapping_sub(n as usize),
        ..s
    };
    lemma_all_recovered(emptied, r.data);
    lemma_each_enqueued(emptied, r.data);
    let recovered = emptied.all_recovered(r.data);
    let told = State {
        scheduler_stats: SchedulerStats {
            receiver_drop_recovered: recovered.scheduler_stats.receiver_drop_recovered.wrapping_add(
                n as u64,
            ),
            ..recovered.scheduler_stats
        },
        ..recovered
    }.emit(
        StatusEvent::ReceiverDropped { receiver_id: ReceiverId(id), recovered: n as usize },
    ).put_receiver(
        id,
        ReceiverState {
            data: Seq::empty(),
            rx_open: false,
            draining: false,
            outstanding: (r.outstanding - n) as usize,
            ..r
        },
    );
    law_completion(told);
}

proof fn lemma_each_enqueued<T>(s: State<T>, items: Seq<T>)
    requires
        items.len() <= usize::MAX,
    ensures
        ({
            let t = s.all_recovered(items);
            let back = s.lifecycle != CANCELLED && s.lifecycle != NO_MORE_WORK && s.active_workers
                > 0;
            &&& t.lifecycle == s.lifecycle && t.active_workers == s.active_workers
            &&& !back ==> t == s
            &&& back ==> t.recovered_pending == s.recovered_pending.wrapping_add(
                items.len() as usize,
            )
            &&& back ==> t.scheduler_stats == (SchedulerStats {
                recovered_enqueued: s.scheduler_stats.recovered_enqueued.wrapping_add(
                    items.len() as u64,
                ),
                ..s.scheduler_stats
            })
        }),
    decreases items.len(),
{
    if items.len() > 0 {
        lemma_each_enqueued(s, items.drop_last());
    }
}

/// The last end of a receiver goes exactly where the receiver was given up, still has its receiving
/// end and lacks its sending end. The receiver is then forgotten, with what it had buffered, and
/// nothing else changes. Otherwise nothing happens.
pub proof fn law_release_forgets<T>(s: State<T>, id: usize)
    ensures
        ({
            let t = s.after(Action::Release { id });
            let r = s.receivers[id];
            let last = s.receivers.contains_key(id) && r.dropped && r.rx_open && !r.tx_open;
            &&& s.releasable(id) <==> last
            &&& !last ==> t == s
            &&& last ==> {
                &&& t.receivers == s.receivers.remove(id)
                &&& t.discarded == s.discarded + r.data.len()
                &&& t == (State { receivers: t.receivers, discarded: t.discarded, ..s })
            }
        }),
{
}

/// A receiver that is given up loses nothing, in service and during a shutdown: where no worker is
/// sending to it, giving it up and finishing that puts all that it had buffered, in order, behind
/// what was taken back before, and tells how much it was.
pub proof fn law_given_up_items_come_back<T>(s: State<T>, id: usize)
    requires
        s.inv(),
        s.lifecycle == RUNNING || s.lifecycle == SHUTTING_DOWN,
        s.receivers.contains_key(id),
        !s.receivers[id].dropped,
        s.receivers[id].active_sends == 0,
    ensures
        ({
            let t = s.after(Action::BeginDrop { id }).after(Action::FinishDrop { id });
            &&& t.recovered == s.recovered + s.receivers[id].data
            &&& t.ingress == s.ingress
            &&& s.events.push(
                StatusEvent::ReceiverDropped {
                    receiver_id: ReceiverId(id),
                    recovered: s.receivers[id].data.len() as usize,
                },
            ).is_prefix_of(t.events)
            &&& t.receivers.contains_key(id) ==> !t.receivers[id].rx_open
            &&& t.after(Action::BeginDrop { id }).after(Action::FinishDrop { id }) == t
        }),
{
    let begun = s.after(Action::BeginDrop { id });
    assert(s.receiver_ok(s.receivers[id]));
    law_kept_in_order(s, Action::BeginDrop { id });
    law_giving_up_takes_effect(s, id);
    law_drop_takes_back(begun, id);
    let t = begun.after(Action::FinishDrop { id });
    let told = s.events.push(
        StatusEvent::ReceiverDropped {
            receiver_id: ReceiverId(id),
            recovered: s.receivers[id].data.len() as usize,
        },
    );
    assert(told =~= t.events.take(told.len() as int));
}

/// What a receiver that has nothing is told depends on this: whether someone may still deliver to
/// it, and whether the feeder was cancelled.
pub proof fn law_end_of_items<T>(s: State<T>, id: usize)
    ensures
        s.more_to_come(id) <==> s.receivers.contains_key(id) && s.receivers[id].rx_open
            && s.receivers[id].tx_open,
        s.end_of_items() is Cancelled <==> s.lifecycle == CANCELLED,
{
}

} // verus!
