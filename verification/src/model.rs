//! The state of a feeder as a mathematical value, and its transitions.
//!
//! Each function on [`State`] says what one operation makes of a state. The operations themselves
//! stand in `shared` and `worker`; their contracts refer to these functions.

use vstd::prelude::*;
use crate::stats::{ConsumerStats, ConsumerStatsSnapshot, FeederStatsSnapshot, SchedulerStats};
use crate::status::StatusEvent;
use crate::types::{
    AccessError, GetError, ReceiverId, CANCELLED, NO_MORE_WORK, RUNNING, SHUTTING_DOWN,
};

verus! {

/// A request for `count` items for one receiver.
#[derive(Debug, Clone, Copy, PartialEq, Eq, Structural)]
pub struct DemandCommand {
    pub receiver: usize,
    pub count: usize,
}

/// What a scheduler worker is doing.
pub enum WorkerState<T> {
    /// It holds no demand.
    Idle,
    /// It has to deliver `count` more items to `receiver`.
    Serving { receiver: usize, count: usize },
    /// It has taken an item for `receiver`.
    Holding { receiver: usize, count: usize, item: T },
    /// It is sending to `receiver`, has delivered `fulfilled` items in this burst and holds the
    /// next one.
    Sending { receiver: usize, count: usize, item: T, fulfilled: usize },
    /// It has ended.
    Exited,
}

/// What came of one step of a worker.
#[derive(Debug, Clone, Copy, PartialEq, Eq, Structural)]
pub enum WorkerStep {
    /// The worker did something and can go on.
    Progress,
    /// There is nothing to do until the state changes.
    Wait,
    /// The worker has ended.
    Exit,
}

/// One receiver, as the scheduler sees it.
#[verifier::ext_equal]
pub struct ReceiverState<T> {
    /// The items that were delivered and not yet consumed.
    pub data: Seq<T>,
    /// The consumer still holds its end of the data channel.
    pub rx_open: bool,
    /// Someone may still deliver into the data channel.
    pub tx_open: bool,
    /// The receiver is no longer registered.
    pub closing: bool,
    /// The receiver was dropped and what it buffered has not been taken back yet.
    pub draining: bool,
    /// The receiver was dropped.
    pub dropped: bool,
    /// The number of workers that are sending to the receiver.
    pub active_sends: usize,
    /// The number of items that were requested and not yet consumed.
    pub outstanding: usize,
    /// The number of items that were requested and not yet delivered.
    pub owed: usize,
    pub low_water: usize,
    pub high_water: usize,
    /// The receiver got less than it asked for, and was reported for it.
    pub lagging: bool,
    /// The place of its counters among those of all receivers.
    pub stats: usize,
}

impl<T> ReceiverState<T> {
    /// The sending end of the data channel goes when nobody can need it any more.
    pub open spec fn settled(self) -> ReceiverState<T> {
        ReceiverState {
            tx_open: self.tx_open && (!self.closing || self.owed > 0 || self.draining),
            ..self
        }
    }

    /// One of the two ends of the data channel is still held.
    pub open spec fn held(self) -> bool {
        self.rx_open || self.tx_open
    }

    /// The receiver leaves the registry.
    pub open spec fn closed(self) -> ReceiverState<T> {
        ReceiverState { closing: true, ..self }.settled()
    }

    /// The demand that was queued for the receiver is gone with the last worker.
    pub open spec fn forsaken(self) -> ReceiverState<T> {
        ReceiverState { owed: 0, ..self }.settled()
    }
}

/// The state of a feeder.
#[verifier::ext_equal]
pub struct State<T> {
    pub next_id: usize,
    pub lifecycle: u8,
    pub accepting_ingress: bool,
    pub ingress: Seq<T>,
    pub demand: Seq<DemandCommand>,
    pub recovered: Seq<T>,
    pub receivers: Map<usize, ReceiverState<T>>,
    pub workers: Seq<WorkerState<T>>,
    pub terminal_open: bool,
    pub ingress_pending: usize,
    pub demand_pending: usize,
    pub recovered_pending: usize,
    pub active_worker_items: usize,
    pub delivered_inflight: usize,
    pub active_producer_sends: usize,
    pub active_workers: usize,
    pub cancelled_emitted: bool,
    pub no_more_work_emitted: bool,
    pub scheduler_stats: SchedulerStats,
    pub consumer_stats: Seq<ConsumerStats>,
    /// The number of items that went with a receiver after the feeder had stopped.
    pub discarded: nat,
    /// The number of items that were requested after the last worker had ended.
    pub unheard: nat,
    /// Every event that the status sink was told of, in order.
    pub events: Seq<StatusEvent>,
}

impl<T> State<T> {
    /// The state of a new feeder with `worker_count` workers.
    pub open spec fn initial(worker_count: usize) -> State<T> {
        State {
            next_id: 1,
            lifecycle: RUNNING,
            accepting_ingress: true,
            ingress: Seq::empty(),
            demand: Seq::empty(),
            recovered: Seq::empty(),
            receivers: Map::empty(),
            workers: Seq::new(worker_count as nat, |i: int| WorkerState::Idle),
            terminal_open: true,
            ingress_pending: 0,
            demand_pending: 0,
            recovered_pending: 0,
            active_worker_items: 0,
            delivered_inflight: 0,
            active_producer_sends: 0,
            active_workers: worker_count,
            cancelled_emitted: false,
            no_more_work_emitted: false,
            scheduler_stats: SchedulerStats { worker_count, ..SchedulerStats::zero() },
            consumer_stats: Seq::empty(),
            discarded: 0,
            unheard: 0,
            events: Seq::empty(),
        }
    }

    /// The status sink is told of `event`.
    pub open spec fn emit(self, event: StatusEvent) -> State<T> {
        State { events: self.events.push(event), ..self }
    }

    /// A fresh identifier was given out.
    pub open spec fn id_taken(self) -> State<T> {
        State { next_id: self.next_id.wrapping_add(1), ..self }
    }

    /// The receiver `id` is now `receiver`.
    pub open spec fn with_receiver(self, id: usize, receiver: ReceiverState<T>) -> State<T> {
        State { receivers: self.receivers.insert(id, receiver), ..self }
    }

    /// The receiver `id` is now `receiver`, once the ends that nobody needs are gone. It is
    /// forgotten where both are.
    pub open spec fn put_receiver(self, id: usize, receiver: ReceiverState<T>) -> State<T> {
        State {
            receivers: if receiver.settled().held() {
                self.receivers.insert(id, receiver.settled())
            } else {
                self.receivers.remove(id)
            },
            ..self
        }
    }

    pub open spec fn with_worker(self, worker: int, state: WorkerState<T>) -> State<T> {
        State { workers: self.workers.update(worker, state), ..self }
    }

    /// Workers can still take what is sent to them.
    pub open spec fn connected(self) -> bool {
        self.active_workers > 0
    }

    pub open spec fn shutting_down(self) -> bool {
        self.lifecycle == SHUTTING_DOWN || self.lifecycle == NO_MORE_WORK
    }

    /// No item is on its way to a receiver.
    pub open spec fn shutdown_idle(self) -> bool {
        &&& self.ingress_pending == 0
        &&& self.recovered_pending == 0
        &&& self.active_worker_items == 0
    }

    /// A graceful shutdown has nothing to wait for any more.
    pub open spec fn completion_due(self) -> bool {
        &&& self.lifecycle == SHUTTING_DOWN
        &&& self.ingress_pending == 0
        &&& self.demand_pending == 0
        &&& self.recovered_pending == 0
        &&& self.active_worker_items == 0
        &&& self.delivered_inflight == 0
        &&& self.active_producer_sends == 0
    }

    /// All receivers leave the registry.
    pub open spec fn all_closed(self) -> State<T> {
        State {
            receivers: self.receivers.map_values(|receiver: ReceiverState<T>| receiver.closed()),
            ..self
        }
    }

    /// A graceful shutdown ends as soon as it has nothing to wait for.
    pub open spec fn try_complete(self) -> State<T> {
        if self.completion_due() {
            let done = State { lifecycle: NO_MORE_WORK, ..self };
            if self.no_more_work_emitted {
                done
            } else {
                let closed = State { terminal_open: false, ..done.all_closed() };
                State { no_more_work_emitted: true, ..closed }.emit(StatusEvent::NoMoreWork)
            }
        } else {
            self
        }
    }

    /// After something was finished, a shutdown may be complete.
    pub open spec fn completion_progress(self) -> State<T> {
        if self.lifecycle != RUNNING {
            self.try_complete()
        } else {
            self
        }
    }

    /// Everything stops at once.
    pub open spec fn cancel(self) -> State<T> {
        let stopped = State {
            lifecycle: CANCELLED,
            accepting_ingress: false,
            terminal_open: false,
            ..self.all_closed()
        };
        if self.lifecycle != CANCELLED && self.lifecycle != NO_MORE_WORK
            && !self.cancelled_emitted {
            State { cancelled_emitted: true, ..stopped }.emit(StatusEvent::Cancelled)
        } else {
            stopped
        }
    }

    /// `count` more items are requested for the receiver `id`. A command is submitted where there
    /// is someone to take it.
    pub open spec fn reserve_demand(self, id: usize, count: usize) -> State<T> {
        if count == 0 {
            self
        } else {
            let stats = SchedulerStats {
                demand_requested: self.scheduler_stats.demand_requested.wrapping_add(count as u64),
                ..self.scheduler_stats
            };
            if self.connected() {
                let receiver = self.receivers[id];
                State {
                    demand_pending: self.demand_pending.wrapping_add(count),
                    demand: self.demand.push(DemandCommand { receiver: id, count }),
                    scheduler_stats: SchedulerStats {
                        demand_commands: stats.demand_commands.wrapping_add(1),
                        ..stats
                    },
                    ..self
                }.with_receiver(
                    id,
                    ReceiverState {
                        outstanding: (receiver.outstanding + count) as usize,
                        owed: (receiver.owed + count) as usize,
                        ..receiver
                    },
                )
            } else {
                State { scheduler_stats: stats, unheard: self.unheard + count as nat, ..self }
            }
        }
    }

    /// `count` of the items requested for the receiver `id` will not be delivered.
    pub open spec fn abandon_demand(self, id: usize, count: usize) -> State<T> {
        if count == 0 {
            self
        } else {
            let receiver = self.receivers[id];
            State {
                demand_pending: self.demand_pending.wrapping_sub(count),
                scheduler_stats: SchedulerStats {
                    demand_abandoned: self.scheduler_stats.demand_abandoned.wrapping_add(
                        count as u64,
                    ),
                    ..self.scheduler_stats
                },
                ..self
            }.put_receiver(
                id,
                ReceiverState {
                    outstanding: (receiver.outstanding - count) as usize,
                    owed: (receiver.owed - count) as usize,
                    ..receiver
                },
            )
        }
    }

    /// An item that was on its way to a receiver is taken back, to be delivered to another. It is
    /// dropped where nothing will be delivered any more.
    pub open spec fn enqueue_recovered(self, item: T) -> State<T> {
        if self.lifecycle == CANCELLED || self.lifecycle == NO_MORE_WORK || !self.connected() {
            self
        } else {
            State {
                recovered: self.recovered.push(item),
                recovered_pending: self.recovered_pending.wrapping_add(1),
                scheduler_stats: SchedulerStats {
                    recovered_enqueued: self.scheduler_stats.recovered_enqueued.wrapping_add(1),
                    ..self.scheduler_stats
                },
                ..self
            }
        }
    }

    // ---- producers ----

    /// Items are accepted.
    pub open spec fn accepting(self) -> bool {
        self.lifecycle == RUNNING && self.accepting_ingress
    }

    /// A producer starts to send, where items are accepted.
    pub open spec fn send_begun(self) -> State<T> {
        if self.accepting() {
            State { active_producer_sends: self.active_producer_sends.wrapping_add(1), ..self }
        } else {
            self
        }
    }

    /// The items join the ingress queue, where there is someone to take them from it. Only then
    /// they count as accepted.
    pub open spec fn pushed(self, items: Seq<T>) -> State<T> {
        if self.connected() {
            State {
                ingress: self.ingress + items,
                ingress_pending: self.ingress_pending.wrapping_add(items.len() as usize),
                scheduler_stats: SchedulerStats {
                    ingress_accepted: self.scheduler_stats.ingress_accepted.wrapping_add(
                        items.len() as u64,
                    ),
                    ..self.scheduler_stats
                },
                ..self
            }
        } else {
            self
        }
    }

    /// A producer is sending, and there is someone to take what it sends.
    pub open spec fn send_can_finish(self) -> bool {
        self.active_producer_sends > 0 && self.connected()
    }

    /// A producer that started to send finishes with one item, or with those of one batch.
    pub open spec fn send_finished(self, items: Seq<T>) -> State<T> {
        if self.active_producer_sends == 0 {
            self
        } else {
            State {
                active_producer_sends: (self.active_producer_sends - 1) as usize,
                ..self.pushed(items)
            }
        }
    }

    /// A producer sends one item, or those of one batch, without anyone acting in between.
    pub open spec fn sent(self, items: Seq<T>) -> State<T> {
        if self.accepting() {
            self.send_begun().send_finished(items)
        } else {
            self
        }
    }

    // ---- handles ----

    /// Why a handle is refused in this state.
    pub open spec fn refusal(self) -> Option<AccessError> {
        if self.lifecycle == CANCELLED {
            Some(AccessError::Cancelled)
        } else if self.lifecycle == NO_MORE_WORK {
            Some(AccessError::NoMoreWork)
        } else if self.lifecycle == RUNNING || self.lifecycle == SHUTTING_DOWN {
            None
        } else {
            Some(AccessError::SchedulerStopped)
        }
    }

    /// Why a receiver is refused in this state.
    pub open spec fn receiver_refusal(self, low: usize, high: usize) -> Option<AccessError> {
        if low >= high {
            Some(AccessError::InvalidWaterMarks)
        } else if self.refusal() is Some {
            self.refusal()
        } else if self.receivers.contains_key(self.next_id) {
            Some(AccessError::SchedulerStopped)
        } else {
            None
        }
    }

    /// A receiver as it is when it is created.
    pub open spec fn fresh_receiver(self, low: usize, high: usize) -> ReceiverState<T> {
        ReceiverState {
            data: Seq::empty(),
            rx_open: true,
            tx_open: true,
            closing: false,
            draining: false,
            dropped: false,
            active_sends: 0,
            outstanding: 0,
            owed: 0,
            low_water: low,
            high_water: high,
            lagging: false,
            stats: self.consumer_stats.len() as usize,
        }
    }

    /// A receiver with the identifier `next_id` was created.
    pub open spec fn registered(self, low: usize, high: usize) -> State<T> {
        State {
            consumer_stats: self.consumer_stats.push(ConsumerStats::zero()),
            ..self.id_taken()
        }.with_receiver(self.next_id, self.fresh_receiver(low, high)).reserve_demand(
            self.next_id,
            high,
        ).emit(StatusEvent::ReceiverRegistered { receiver_id: ReceiverId(self.next_id) })
    }

    /// A receiver was asked for.
    pub open spec fn receiver_requested(self, low: usize, high: usize) -> State<T> {
        if self.receiver_refusal(low, high) is None {
            self.registered(low, high)
        } else {
            self
        }
    }

    /// Ingress is sealed.
    pub open spec fn sealed(self) -> State<T> {
        State { accepting_ingress: false, ..self }
    }

    /// A graceful shutdown was asked for: it starts once no producer is sending any more.
    pub open spec fn shut_down(self) -> State<T> {
        if self.active_producer_sends == 0 && self.lifecycle == RUNNING {
            State { lifecycle: SHUTTING_DOWN, ..self.sealed() }.emit(
                StatusEvent::GracefulShutdownStarted,
            ).try_complete()
        } else {
            self.sealed()
        }
    }

    /// All counters.
    pub open spec fn stats(self) -> FeederStatsSnapshot {
        FeederStatsSnapshot {
            scheduler: self.scheduler_stats.with_pending(
                self.ingress_pending,
                self.demand_pending,
                self.recovered_pending,
                self.active_worker_items,
                self.delivered_inflight,
            ),
            consumers: ConsumerStatsSnapshot::total(self.consumer_stats),
        }
    }

    /// All counters are at zero, but for the number of workers.
    pub open spec fn stats_cleared(self) -> State<T> {
        State {
            scheduler_stats: self.scheduler_stats.cleared(),
            consumer_stats: Seq::new(
                self.consumer_stats.len(),
                |i: int| ConsumerStats::zero(),
            ),
            ..self
        }
    }

    // ---- consumers ----

    /// What a receiver is told that will get nothing more.
    pub open spec fn end_of_items(self) -> GetError {
        if self.lifecycle == CANCELLED {
            GetError::Cancelled
        } else {
            GetError::NoMoreWork
        }
    }

    /// The receiver `id` can still be read.
    pub open spec fn readable(self, id: usize) -> bool {
        self.receivers.contains_key(id) && self.receivers[id].rx_open
    }

    /// How many items the receiver `id` gets that asks for at most `max`.
    pub open spec fn available(self, id: usize, max: usize) -> int {
        if !self.readable(id) {
            0
        } else if self.receivers[id].data.len() < max {
            self.receivers[id].data.len() as int
        } else {
            max as int
        }
    }

    /// The items that the receiver `id` gets that asks for at most `max`.
    pub open spec fn taken(self, id: usize, max: usize) -> Seq<T> {
        if self.readable(id) {
            self.receivers[id].data.take(self.available(id, max))
        } else {
            Seq::empty()
        }
    }

    /// The receiver `id`, which has nothing now, may still get something.
    pub open spec fn more_to_come(self, id: usize) -> bool {
        self.readable(id) && self.receivers[id].tx_open
    }

    /// A receiver below its low water mark requests what it lacks to its high water mark.
    pub open spec fn refilled(self, id: usize) -> State<T> {
        let receiver = self.receivers[id];
        if !receiver.tx_open || receiver.outstanding >= receiver.low_water {
            self
        } else {
            let place = receiver.stats as int;
            let stats = self.consumer_stats[place];
            State {
                consumer_stats: self.consumer_stats.update(
                    place,
                    ConsumerStats {
                        refill_messages: stats.refill_messages.wrapping_add(1),
                        ..stats
                    },
                ),
                ..self
            }.reserve_demand(id, (receiver.high_water - receiver.outstanding) as usize)
        }
    }

    /// A receiver that starts or stops getting less than it asks for is reported.
    pub open spec fn lag_updated(self, id: usize, requested: usize, got: usize) -> State<T> {
        let receiver = self.receivers[id];
        if self.lifecycle != RUNNING {
            self
        } else if got < requested && !receiver.lagging {
            self.with_receiver(id, ReceiverState { lagging: true, ..receiver }).emit(
                StatusEvent::Lagging { receiver_id: ReceiverId(id), requested, received: got },
            )
        } else if got >= requested && receiver.lagging {
            self.with_receiver(id, ReceiverState { lagging: false, ..receiver }).emit(
                StatusEvent::Recovered { receiver_id: ReceiverId(id) },
            )
        } else {
            self
        }
    }

    /// The accounts of the receiver `id`, after it took `got` items of the `requested` ones.
    pub open spec fn consumption_counted(self, id: usize, got: usize) -> State<T> {
        let receiver = self.receivers[id];
        let place = receiver.stats as int;
        let stats = self.consumer_stats[place];
        State {
            delivered_inflight: self.delivered_inflight.wrapping_sub(got),
            consumer_stats: self.consumer_stats.update(
                place,
                ConsumerStats {
                    get_calls: stats.get_calls.wrapping_add(1),
                    items_consumed: stats.items_consumed.wrapping_add(got as u64),
                    ..stats
                },
            ),
            ..self
        }.with_receiver(
            id,
            ReceiverState {
                outstanding: if receiver.tx_open {
                    (receiver.outstanding - got) as usize
                } else {
                    receiver.outstanding
                },
                ..receiver
            },
        )
    }

    /// The receiver `id` took `got` of the `requested` items.
    pub open spec fn consumption_finished(self, id: usize, requested: usize, got: usize) -> State<
        T,
    > {
        self.consumption_counted(id, got).refilled(id).lag_updated(
            id,
            requested,
            got,
        ).completion_progress()
    }

    /// The receiver `id` asked for at most `max` items and took those that were there.
    pub open spec fn consumed(self, id: usize, max: usize) -> State<T> {
        let got = self.available(id, max);
        if got == 0 {
            self
        } else {
            let receiver = self.receivers[id];
            self.with_receiver(
                id,
                ReceiverState { data: receiver.data.skip(got), ..receiver },
            ).consumption_finished(id, max, got as usize)
        }
    }

    /// The drop of the receiver `id` has to take back what the receiver buffered.
    pub open spec fn drop_begins(self, id: usize) -> bool {
        &&& self.receivers.contains_key(id)
        &&& !self.receivers[id].dropped
        &&& self.receivers[id].tx_open
    }

    /// The receiver `id` was dropped, or its consumer gave it up.
    pub open spec fn drop_begun(self, id: usize) -> State<T> {
        if !self.receivers.contains_key(id) || self.receivers[id].dropped {
            self
        } else {
            let receiver = self.receivers[id];
            if receiver.tx_open {
                self.with_receiver(
                    id,
                    ReceiverState { dropped: true, closing: true, draining: true, ..receiver },
                )
            } else {
                self.with_receiver(id, ReceiverState { dropped: true, ..receiver })
            }
        }
    }

    /// Items that a receiver buffered are taken back, in order.
    pub open spec fn all_recovered(self, items: Seq<T>) -> State<T>
        decreases items.len(),
    {
        if items.len() == 0 {
            self
        } else {
            self.all_recovered(items.drop_last()).enqueue_recovered(items.last())
        }
    }

    /// The drop of the receiver `id` has begun and not finished.
    pub open spec fn drop_pending(self, id: usize) -> bool {
        self.receivers.contains_key(id) && self.receivers[id].draining
    }

    /// The drop of the receiver `id` can finish.
    pub open spec fn drop_can_finish(self, id: usize) -> bool {
        &&& self.receivers.contains_key(id)
        &&& self.receivers[id].draining
        &&& self.receivers[id].active_sends == 0
    }

    /// A worker that is sending keeps the drop of the receiver `id` from finishing.
    pub open spec fn drop_held_up(self, id: usize) -> bool {
        self.drop_pending(id) && !self.drop_can_finish(id)
    }

    /// What the receiver `id` buffered was taken back and the receiver is gone.
    pub open spec fn drop_finished(self, id: usize) -> State<T> {
        let receiver = self.receivers[id];
        let items = receiver.data;
        let emptied = State {
            delivered_inflight: self.delivered_inflight.wrapping_sub(items.len() as usize),
            ..self
        };
        let recovered = emptied.all_recovered(items);
        State {
            scheduler_stats: SchedulerStats {
                receiver_drop_recovered:
                    recovered.scheduler_stats.receiver_drop_recovered.wrapping_add(
                    items.len() as u64,
                ),
                ..recovered.scheduler_stats
            },
            ..recovered
        }.emit(
            StatusEvent::ReceiverDropped {
                receiver_id: ReceiverId(id),
                recovered: items.len() as usize,
            },
        ).put_receiver(
            id,
            ReceiverState {
                data: Seq::empty(),
                rx_open: false,
                draining: false,
                outstanding: (receiver.outstanding - items.len()) as usize,
                ..receiver
            },
        ).try_complete()
    }

    /// The receiver `id` was given up, and only its receiving end is left.
    pub open spec fn releasable(self, id: usize) -> bool {
        &&& self.receivers.contains_key(id)
        &&& self.receivers[id].dropped
        &&& self.receivers[id].rx_open
        &&& !self.receivers[id].tx_open
    }

    /// The last end of the receiver `id` is gone, and with it what the receiver had buffered.
    pub open spec fn released(self, id: usize) -> State<T> {
        if self.releasable(id) {
            State {
                receivers: self.receivers.remove(id),
                discarded: self.discarded + self.receivers[id].data.len(),
                ..self
            }
        } else {
            self
        }
    }

    // ---- workers ----

    /// The next item for a receiver: what was taken back goes before what was newly sent.
    pub open spec fn next_item(self) -> Option<T> {
        if self.recovered.len() > 0 {
            Some(self.recovered[0])
        } else if self.ingress.len() > 0 {
            Some(self.ingress[0])
        } else {
            None
        }
    }

    /// The next item was taken by a worker.
    pub open spec fn item_taken(self) -> State<T> {
        let held = State {
            active_worker_items: self.active_worker_items.wrapping_add(1),
            ..self
        };
        if self.recovered.len() > 0 {
            State {
                recovered: self.recovered.drop_first(),
                recovered_pending: self.recovered_pending.wrapping_sub(1),
                scheduler_stats: SchedulerStats {
                    recovered_routed: self.scheduler_stats.recovered_routed.wrapping_add(1),
                    ..self.scheduler_stats
                },
                ..held
            }
        } else {
            State {
                ingress: self.ingress.drop_first(),
                ingress_pending: self.ingress_pending.wrapping_sub(1),
                scheduler_stats: SchedulerStats {
                    ingress_consumed: self.scheduler_stats.ingress_consumed.wrapping_add(1),
                    ..self.scheduler_stats
                },
                ..held
            }
        }
    }

    /// What a worker may take for the receiver `id`.
    pub open spec fn item_for(self, id: usize) -> Option<T> {
        if self.lifecycle == CANCELLED || self.receivers[id].closing {
            None
        } else {
            self.next_item()
        }
    }

    /// A worker looked for an item for the receiver `id`.
    pub open spec fn item_sought(self, id: usize) -> State<T> {
        if self.item_for(id) is Some {
            self.item_taken()
        } else {
            self
        }
    }

    /// No further item will be delivered to the receiver `id`.
    pub open spec fn demand_is_void(self, id: usize) -> bool {
        ||| self.lifecycle == CANCELLED
        ||| self.receivers[id].closing
        ||| self.shutting_down() && self.shutdown_idle()
    }

    /// The demand of the receiver `id` that a worker was serving is given up.
    pub open spec fn demand_voided(self, id: usize, count: usize) -> State<T> {
        if self.lifecycle == CANCELLED || self.receivers[id].closing {
            self.abandon_demand(id, count)
        } else {
            self.abandon_demand(id, count).try_complete()
        }
    }

    /// An item in the hands of a worker, which cannot be delivered, is taken back.
    pub open spec fn item_returned(self, item: T) -> State<T> {
        if self.lifecycle == CANCELLED {
            self
        } else {
            self.enqueue_recovered(item)
        }
    }

    /// A worker that holds an item for a closing receiver gives up.
    pub open spec fn burst_refused(self, id: usize, count: usize, item: T) -> State<T> {
        let freed = State {
            active_worker_items: self.active_worker_items.wrapping_sub(1),
            ..self
        };
        freed.abandon_demand(id, count).item_returned(item)
    }

    /// A worker starts to send to the receiver `id`.
    pub open spec fn burst_started(self, id: usize) -> State<T> {
        let receiver = self.receivers[id];
        self.with_receiver(
            id,
            ReceiverState { active_sends: receiver.active_sends.wrapping_add(1), ..receiver },
        )
    }

    /// `item` was put into the data channel of the receiver `id`.
    pub open spec fn delivered(self, id: usize, item: T) -> State<T> {
        let receiver = self.receivers[id];
        State { delivered_inflight: self.delivered_inflight.wrapping_add(1), ..self }.with_receiver(
            id,
            ReceiverState {
                data: receiver.data.push(item),
                owed: (receiver.owed - 1) as usize,
                ..receiver
            },
        )
    }

    /// The accounts after a burst that delivered `fulfilled` items.
    pub open spec fn fulfillment_committed(self, fulfilled: usize) -> State<T> {
        if fulfilled == 0 {
            self
        } else {
            State {
                demand_pending: self.demand_pending.wrapping_sub(fulfilled),
                active_worker_items: self.active_worker_items.wrapping_sub(fulfilled),
                scheduler_stats: SchedulerStats {
                    demand_fulfilled: self.scheduler_stats.demand_fulfilled.wrapping_add(
                        fulfilled as u64,
                    ),
                    output_routed: self.scheduler_stats.output_routed.wrapping_add(
                        fulfilled as u64,
                    ),
                    ..self.scheduler_stats
                },
                ..self
            }.completion_progress()
        }
    }

    /// A worker stops sending to the receiver `id`.
    pub open spec fn burst_finished(self, id: usize, fulfilled: usize) -> State<T> {
        let receiver = self.receivers[id];
        self.put_receiver(
            id,
            ReceiverState { active_sends: receiver.active_sends.wrapping_sub(1), ..receiver },
        ).fulfillment_committed(fulfilled)
    }

    /// What a worker does next that owes the receiver `id` `count` items.
    pub open spec fn serving(id: usize, count: usize) -> WorkerState<T> {
        if count == 0 {
            WorkerState::Idle
        } else {
            WorkerState::Serving { receiver: id, count }
        }
    }

    /// The worker `worker` ended. With the last one go the queues.
    pub open spec fn worker_exited(self, worker: int) -> State<T> {
        let left = State {
            active_workers: (self.active_workers - 1) as usize,
            ..self.with_worker(worker, WorkerState::Exited)
        };
        if self.active_workers == 1 {
            State {
                ingress: Seq::empty(),
                demand: Seq::empty(),
                recovered: Seq::empty(),
                receivers: self.receivers.map_values(
                    |receiver: ReceiverState<T>| receiver.forsaken(),
                ).restrict(
                    Set::new(
                        |id: usize|
                            self.receivers.contains_key(id) && self.receivers[id].forsaken().held(),
                    ),
                ),
                ..left
            }.emit(StatusEvent::SchedulerExited)
        } else {
            left
        }
    }

    /// A worker with nothing to do waits, unless a shutdown can be completed.
    pub open spec fn waiting_step(self) -> (State<T>, WorkerStep) {
        if self.completion_due() {
            (self.try_complete(), WorkerStep::Progress)
        } else {
            (self, WorkerStep::Wait)
        }
    }

    /// A worker without demand takes the next command, ends or waits.
    pub open spec fn idle_step(self, worker: int) -> (State<T>, WorkerStep) {
        if self.lifecycle == CANCELLED {
            (self.worker_exited(worker), WorkerStep::Exit)
        } else if self.demand.len() > 0 {
            let command = self.demand[0];
            (
                State { demand: self.demand.drop_first(), ..self }.with_worker(
                    worker,
                    WorkerState::Serving { receiver: command.receiver, count: command.count },
                ),
                WorkerStep::Progress,
            )
        } else if !self.terminal_open {
            (self.worker_exited(worker), WorkerStep::Exit)
        } else {
            self.waiting_step()
        }
    }

    /// A worker that owes items takes one, gives up or waits.
    pub open spec fn serving_step(self, worker: int, id: usize, count: usize) -> (
        State<T>,
        WorkerStep,
    ) {
        if self.demand_is_void(id) {
            (
                self.demand_voided(id, count).with_worker(worker, WorkerState::Idle),
                WorkerStep::Progress,
            )
        } else if self.next_item() is Some {
            (
                self.item_taken().with_worker(
                    worker,
                    WorkerState::Holding {
                        receiver: id,
                        count,
                        item: self.next_item()->Some_0,
                    },
                ),
                WorkerStep::Progress,
            )
        } else {
            self.waiting_step()
        }
    }

    /// A worker that holds an item starts a burst, or gives up.
    pub open spec fn holding_step(self, worker: int, id: usize, count: usize, item: T) -> (
        State<T>,
        WorkerStep,
    ) {
        if self.receivers[id].closing {
            (
                self.burst_refused(id, count, item).with_worker(worker, WorkerState::Idle),
                WorkerStep::Progress,
            )
        } else {
            (
                self.burst_started(id).with_worker(
                    worker,
                    WorkerState::Sending { receiver: id, count, item, fulfilled: 0 },
                ),
                WorkerStep::Progress,
            )
        }
    }

    /// A worker in a burst delivers the item it holds, and goes on with the next one or ends the
    /// burst.
    pub open spec fn sending_step(
        self,
        worker: int,
        id: usize,
        count: usize,
        item: T,
        fulfilled: usize,
    ) -> (State<T>, WorkerStep) {
        let after = self.delivered(id, item);
        let left = (count - 1) as usize;
        let done = (fulfilled + 1) as usize;
        if left > 0 && after.item_for(id) is Some {
            (
                after.item_taken().with_worker(
                    worker,
                    WorkerState::Sending {
                        receiver: id,
                        count: left,
                        item: after.item_for(id)->Some_0,
                        fulfilled: done,
                    },
                ),
                WorkerStep::Progress,
            )
        } else {
            (
                after.burst_finished(id, done).with_worker(worker, State::serving(id, left)),
                WorkerStep::Progress,
            )
        }
    }

    /// One step of the worker `worker`.
    pub open spec fn worker_step(self, worker: int) -> (State<T>, WorkerStep) {
        match self.workers[worker] {
            WorkerState::Idle => self.idle_step(worker),
            WorkerState::Serving { receiver, count } => self.serving_step(worker, receiver, count),
            WorkerState::Holding { receiver, count, item } => self.holding_step(
                worker,
                receiver,
                count,
                item,
            ),
            WorkerState::Sending { receiver, count, item, fulfilled } => self.sending_step(
                worker,
                receiver,
                count,
                item,
                fulfilled,
            ),
            WorkerState::Exited => (self, WorkerStep::Exit),
        }
    }
}

} // verus!
