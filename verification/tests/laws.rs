use feeder::shared::Task;
use feeder::types::{CANCELLED, NO_MORE_WORK, RUNNING, SHUTTING_DOWN};
use feeder::{
    AccessError, Attempt, ChannelStatus, GetError, NoStatus, ReceiverId, Shared, StatusEvent,
    StatusSink, TryGet, TryGetOne, WorkerStep,
};
use std::sync::{Arc, Mutex};

type Plain = Shared<i32, NoStatus>;

fn plain(workers: usize) -> Plain {
    Shared::new(NoStatus, workers)
}

fn send<S: StatusSink>(shared: &mut Shared<i32, S>, item: i32) {
    assert!(shared.begin_send());
    assert_eq!(shared.finish_send(item), Ok(()));
}

fn settle<S: StatusSink>(shared: &mut Shared<i32, S>) {
    let mut progress = true;
    while progress {
        progress = false;
        for worker in 0..shared.workers.len() {
            if shared.run_worker(worker) == WorkerStep::Progress {
                progress = true;
            }
        }
    }
}

fn nothing_pending<S: StatusSink>(shared: &Shared<i32, S>) -> bool {
    let stats = shared.stats_snapshot().scheduler;
    stats.ingress_pending == 0
        && stats.demand_pending == 0
        && stats.recovered_pending == 0
        && stats.active_worker_items == 0
        && stats.delivered_inflight == 0
        && shared.active_producer_sends == 0
}

/// A sequence of numbers that looks random and is always the same.
struct Dice(u64);

impl Dice {
    fn roll(&mut self, sides: usize) -> usize {
        self.0 = self.0.wrapping_mul(6364136223846793005).wrapping_add(1442695040888963407);
        ((self.0 >> 33) as usize) % sides
    }
}

/// A sink that remembers what it was told.
#[derive(Clone)]
struct Memory(Arc<Mutex<Vec<StatusEvent>>>);

impl Memory {
    fn new() -> Self {
        Memory(Arc::new(Mutex::new(Vec::new())))
    }

    fn note(&self, event: StatusEvent) {
        self.0.lock().unwrap().push(event);
    }

    fn told(&self) -> Vec<StatusEvent> {
        self.0.lock().unwrap().clone()
    }
}

impl StatusSink for Memory {
    fn receiver_registered(&self, receiver_id: ReceiverId) {
        self.note(StatusEvent::ReceiverRegistered { receiver_id });
    }
    fn receiver_dropped(&self, receiver_id: ReceiverId, recovered: usize) {
        self.note(StatusEvent::ReceiverDropped { receiver_id, recovered });
    }
    fn graceful_shutdown_started(&self) {
        self.note(StatusEvent::GracefulShutdownStarted);
    }
    fn cancelled(&self) {
        self.note(StatusEvent::Cancelled);
    }
    fn no_more_work(&self) {
        self.note(StatusEvent::NoMoreWork);
    }
    fn scheduler_exited(&self) {
        self.note(StatusEvent::SchedulerExited);
    }
    fn lagging(&self, receiver_id: ReceiverId, requested: usize, received: usize) {
        self.note(StatusEvent::Lagging { receiver_id, requested, received });
    }
    fn recovered(&self, receiver_id: ReceiverId) {
        self.note(StatusEvent::Recovered { receiver_id });
    }
}

fn lifecycle_rank(state: u8) -> u8 {
    match state {
        RUNNING => 0,
        SHUTTING_DOWN => 1,
        NO_MORE_WORK => 2,
        CANCELLED => 3,
        other => panic!("unknown state {other}"),
    }
}

/// Does something at random; returns the items that came out.
fn act<S: StatusSink>(
    shared: &mut Shared<i32, S>,
    dice: &mut Dice,
    receivers: &mut Vec<usize>,
    next: &mut i32,
) -> Vec<i32> {
    match dice.roll(8) {
        0 => {
            if shared.begin_send() {
                assert_eq!(shared.finish_send(*next), Ok(()));
                *next += 1;
            }
            vec![]
        }
        1 => {
            if shared.begin_send() {
                assert_eq!(shared.finish_send_batch(vec![*next, *next + 1, *next + 2]), Ok(()));
                *next += 3;
            }
            vec![]
        }
        2 => {
            let low = 1 + dice.roll(3);
            if let Ok(id) = shared.rx(low, low + 1 + dice.roll(4)) {
                receivers.push(id.0);
            }
            vec![]
        }
        3 if !receivers.is_empty() => {
            let id = receivers[dice.roll(receivers.len())];
            match shared.try_get(id, 1 + dice.roll(4)) {
                TryGet::Items(items) => items,
                _ => vec![],
            }
        }
        4 if receivers.len() > 2 => {
            let id = receivers.swap_remove(dice.roll(receivers.len()));
            if shared.begin_drop(id) {
                while !shared.finish_drop(id) {
                    for worker in 0..shared.workers.len() {
                        shared.run_worker(worker);
                    }
                }
            }
            vec![]
        }
        _ => {
            let worker = dice.roll(shared.workers.len());
            shared.run_worker(worker);
            vec![]
        }
    }
}

#[test]
fn every_accepted_item_is_delivered_exactly_once() {
    for seed in 0..40 {
        let mut dice = Dice(seed);
        let mut shared = plain(1 + seed as usize % 4);
        let mut receivers = Vec::new();
        let mut next = 0;
        let mut got = Vec::new();
        for _ in 0..600 {
            got.extend(act(&mut shared, &mut dice, &mut receivers, &mut next));
        }
        assert!(shared.graceful_shutdown());
        let last = shared.rx(1, 5);
        let mut rounds = 0;
        while shared.lifecycle == SHUTTING_DOWN {
            settle(&mut shared);
            for id in receivers.iter().chain(last.iter().map(|id| &id.0)) {
                if let TryGet::Items(items) = shared.try_get(*id, 3) {
                    got.extend(items);
                }
            }
            rounds += 1;
            assert!(rounds < 10_000);
        }
        assert_eq!(shared.lifecycle, NO_MORE_WORK);
        assert!(nothing_pending(&shared));
        got.sort();
        assert_eq!(got, (0..next).collect::<Vec<i32>>());
    }
}

#[test]
fn nothing_is_delivered_twice_after_a_cancel() {
    for seed in 0..20 {
        let mut dice = Dice(1000 + seed);
        let mut shared = plain(2);
        let mut receivers = Vec::new();
        let mut next = 0;
        let mut got = Vec::new();
        for _ in 0..300 {
            got.extend(act(&mut shared, &mut dice, &mut receivers, &mut next));
        }
        shared.cancel_internal();
        for _ in 0..300 {
            got.extend(act(&mut shared, &mut dice, &mut receivers, &mut next));
        }
        let total = got.len();
        got.sort();
        got.dedup();
        assert_eq!(got.len(), total);
        assert!(got.iter().all(|item| *item < next));
    }
}

fn check_statistics(shared: &Plain) {
    let snap = shared.stats_snapshot();
    let s = snap.scheduler;
    let in_burst: usize = shared
        .workers
        .iter()
        .map(|slot| match slot.task {
            Task::Sending { fulfilled, .. } => fulfilled,
            _ => 0,
        })
        .sum();
    assert_eq!(
        s.demand_requested,
        s.demand_fulfilled + s.demand_abandoned + s.demand_pending as u64
    );
    assert_eq!(s.ingress_accepted, s.ingress_consumed + s.ingress_pending as u64);
    assert_eq!(s.recovered_enqueued, s.recovered_routed + s.recovered_pending as u64);
    assert_eq!(s.output_routed, s.demand_fulfilled);
    assert_eq!(
        s.output_routed + in_burst as u64,
        snap.consumers.items_consumed + s.receiver_drop_recovered + s.delivered_inflight as u64
    );
}

#[test]
fn statistics_add_up_at_every_moment() {
    let mut dice = Dice(77);
    let mut shared = plain(3);
    let mut receivers = Vec::new();
    let mut next = 0;
    for _ in 0..800 {
        act(&mut shared, &mut dice, &mut receivers, &mut next);
        check_statistics(&shared);
        assert_eq!(shared.stats_snapshot().scheduler.ingress_accepted, next as u64);
    }
    assert!(next > 100);
}

#[test]
fn statistics_add_up_after_the_last_worker_has_ended() {
    for seed in 0..20 {
        let mut dice = Dice(2000 + seed);
        let mut shared = plain(2);
        let mut receivers = Vec::new();
        let mut next = 0;
        for _ in 0..200 {
            act(&mut shared, &mut dice, &mut receivers, &mut next);
        }
        assert!(shared.begin_send());
        shared.cancel_internal();
        settle(&mut shared);
        assert_eq!(shared.active_workers, 0);
        assert_eq!(shared.finish_send(-1), Err(-1));
        check_statistics(&shared);
        for _ in 0..200 {
            act(&mut shared, &mut dice, &mut receivers, &mut next);
            check_statistics(&shared);
        }
        for id in receivers {
            shared.begin_drop(id);
            shared.release(id);
            check_statistics(&shared);
        }
        assert_eq!(shared.stats_snapshot().scheduler.ingress_accepted, next as u64);
    }
}

#[test]
fn lifecycle_never_goes_back() {
    for seed in 0..20 {
        let mut dice = Dice(500 + seed);
        let mut shared = plain(2);
        let mut receivers = Vec::new();
        let mut next = 0;
        let mut rank = 0;
        for step in 0..300 {
            act(&mut shared, &mut dice, &mut receivers, &mut next);
            if step == 100 {
                shared.graceful_shutdown();
            }
            if step == 200 && seed % 2 == 0 {
                shared.cancel_internal();
                assert!(!shared.graceful_shutdown() || shared.lifecycle == CANCELLED);
            }
            assert!(lifecycle_rank(shared.lifecycle) >= rank);
            rank = lifecycle_rank(shared.lifecycle);
            if step >= 100 {
                assert!(!shared.accepting_ingress);
            }
        }
    }
}

#[test]
fn each_event_on_the_feeder_is_told_once() {
    let sink = Memory::new();
    let mut shared: Shared<i32, Memory> = Shared::new(sink.clone(), 2);
    let rx = shared.rx(1, 2).unwrap();
    send(&mut shared, 9);
    assert!(shared.graceful_shutdown());
    assert!(shared.graceful_shutdown());
    settle(&mut shared);
    assert_eq!(shared.try_get_one(rx.0), TryGetOne::Item(9));
    settle(&mut shared);
    assert_eq!(shared.lifecycle, NO_MORE_WORK);
    shared.cancel_internal();
    shared.cancel_internal();
    settle(&mut shared);
    assert_eq!(
        sink.told(),
        vec![
            StatusEvent::ReceiverRegistered { receiver_id: rx },
            StatusEvent::GracefulShutdownStarted,
            StatusEvent::NoMoreWork,
            StatusEvent::SchedulerExited,
        ]
    );
}

#[test]
fn a_channel_carries_every_kind_of_event() {
    let (tx, rx) = crossbeam_channel::unbounded();
    let mut shared: Shared<i32, ChannelStatus> = Shared::new(ChannelStatus::new(tx), 1);
    let first = shared.rx(1, 3).unwrap();
    send(&mut shared, 1);
    settle(&mut shared);
    assert_eq!(shared.try_get(first.0, 3), TryGet::Items(vec![1]));
    send(&mut shared, 2);
    send(&mut shared, 3);
    settle(&mut shared);
    assert_eq!(shared.try_get(first.0, 1), TryGet::Items(vec![2]));
    assert!(shared.begin_drop(first.0));
    assert!(shared.finish_drop(first.0));
    shared.graceful_shutdown();
    shared.cancel_internal();
    settle(&mut shared);
    let events: Vec<StatusEvent> = rx.try_iter().collect();
    assert_eq!(
        events,
        vec![
            StatusEvent::ReceiverRegistered { receiver_id: first },
            StatusEvent::Lagging { receiver_id: first, requested: 3, received: 1 },
            StatusEvent::Recovered { receiver_id: first },
            StatusEvent::ReceiverDropped { receiver_id: first, recovered: 1 },
            StatusEvent::GracefulShutdownStarted,
            StatusEvent::Cancelled,
            StatusEvent::SchedulerExited,
        ]
    );
}

#[test]
fn events_without_a_listener_do_no_harm() {
    let (tx, rx) = crossbeam_channel::unbounded();
    drop(rx);
    let mut shared: Shared<i32, ChannelStatus> = Shared::new(ChannelStatus::new(tx), 1);
    assert!(shared.rx(1, 2).is_ok());
    shared.cancel_internal();
    settle(&mut shared);
    assert_eq!(shared.active_workers, 0);
}

#[test]
fn shutdown_waits_for_a_producer_that_is_sending() {
    let mut shared = plain(1);
    assert!(shared.begin_send());
    assert!(!shared.graceful_shutdown());
    assert_eq!(shared.lifecycle, RUNNING);
    assert!(!shared.begin_send());
    assert_eq!(shared.finish_send(5), Ok(()));
    assert!(shared.graceful_shutdown());
    assert_eq!(shared.lifecycle, SHUTTING_DOWN);
    let rx = shared.rx(1, 2).unwrap();
    settle(&mut shared);
    assert_eq!(shared.get_one(rx.0), Attempt::Ready(Ok(5)));
}

#[test]
fn an_item_without_a_started_send_is_handed_back() {
    let mut shared = plain(1);
    assert_eq!(shared.finish_send(5), Err(5));
    assert_eq!(shared.finish_send_batch(vec![5, 6]), Err(vec![5, 6]));
    assert_eq!(shared.stats_snapshot().scheduler.ingress_accepted, 0);
}

#[test]
fn an_item_is_handed_back_once_all_workers_have_ended() {
    let mut shared = plain(1);
    assert!(shared.begin_send());
    assert!(shared.begin_send());
    shared.cancel_internal();
    settle(&mut shared);
    assert_eq!(shared.finish_send(5), Err(5));
    assert_eq!(shared.finish_send_batch(vec![6, 7]), Err(vec![6, 7]));
    assert_eq!(shared.active_producer_sends, 0);
    assert_eq!(shared.stats_snapshot().scheduler.ingress_accepted, 0);
    assert_eq!(shared.stats_snapshot().scheduler.ingress_pending, 0);
}

#[test]
fn registration_requests_the_high_water_mark() {
    let mut shared = plain(1);
    let rx = shared.rx(2, 7).unwrap();
    let stats = shared.stats_snapshot().scheduler;
    assert_eq!((stats.demand_commands, stats.demand_requested, stats.demand_pending), (1, 7, 7));
    assert_eq!(shared.receivers.get(&rx.0).unwrap().outstanding, 7);
}

#[test]
fn refill_requests_exactly_what_is_missing() {
    let mut shared = plain(1);
    let rx = shared.rx(3, 6).unwrap();
    for item in 0..6 {
        send(&mut shared, item);
    }
    settle(&mut shared);
    assert_eq!(shared.try_get(rx.0, 3), TryGet::Items(vec![0, 1, 2]));
    let snap = shared.stats_snapshot();
    assert_eq!((snap.scheduler.demand_commands, snap.consumers.refill_messages), (1, 0));
    assert_eq!(shared.try_get(rx.0, 2), TryGet::Items(vec![3, 4]));
    let snap = shared.stats_snapshot();
    assert_eq!((snap.scheduler.demand_commands, snap.consumers.refill_messages), (2, 1));
    assert_eq!(snap.scheduler.demand_requested, 6 + 5);
    assert_eq!(shared.receivers.get(&rx.0).unwrap().outstanding, 6);
}

#[test]
fn lag_is_told_only_when_it_changes() {
    let sink = Memory::new();
    let mut shared: Shared<i32, Memory> = Shared::new(sink.clone(), 1);
    let rx = shared.rx(1, 4).unwrap();
    for item in 0..4 {
        send(&mut shared, item);
        settle(&mut shared);
        if item < 3 {
            assert_eq!(shared.try_get(rx.0, 2), TryGet::Items(vec![item]));
        }
    }
    assert_eq!(shared.try_get(rx.0, 1), TryGet::Items(vec![3]));
    assert_eq!(
        sink.told(),
        vec![
            StatusEvent::ReceiverRegistered { receiver_id: rx },
            StatusEvent::Lagging { receiver_id: rx, requested: 2, received: 1 },
            StatusEvent::Recovered { receiver_id: rx },
        ]
    );
}

#[test]
fn lag_reports_alternate() {
    let sink = Memory::new();
    let mut shared: Shared<i32, Memory> = Shared::new(sink.clone(), 2);
    let first = shared.rx(1, 4).unwrap();
    let second = shared.rx(2, 5).unwrap();
    let mut dice = Dice(7);
    for item in 0..400 {
        send(&mut shared, item);
        settle(&mut shared);
        let id = if dice.roll(2) == 0 { first } else { second };
        shared.try_get(id.0, 1 + dice.roll(3));
    }
    for id in [first, second] {
        let reports: Vec<StatusEvent> = sink
            .told()
            .into_iter()
            .filter(|event| match event {
                StatusEvent::Lagging { receiver_id, .. } => *receiver_id == id,
                StatusEvent::Recovered { receiver_id } => *receiver_id == id,
                _ => false,
            })
            .collect();
        assert!(reports.len() > 10);
        for (place, report) in reports.iter().enumerate() {
            if place % 2 == 0 {
                assert!(matches!(report, StatusEvent::Lagging { .. }));
            } else {
                assert_eq!(*report, StatusEvent::Recovered { receiver_id: id });
            }
        }
    }
}

#[test]
fn a_dropped_receiver_gives_back_its_items_in_order() {
    let mut shared = plain(1);
    let first = shared.rx(1, 3).unwrap();
    for item in 0..5 {
        send(&mut shared, item);
    }
    settle(&mut shared);
    assert!(shared.begin_drop(first.0));
    assert!(!shared.begin_drop(first.0));
    assert!(shared.finish_drop(first.0));
    assert!(!shared.finish_drop(first.0));
    assert_eq!(shared.stats_snapshot().scheduler.receiver_drop_recovered, 3);
    assert_eq!(shared.get_one(first.0), Attempt::Ready(Err(GetError::NoMoreWork)));
    let second = shared.rx(1, 9).unwrap();
    settle(&mut shared);
    assert_eq!(shared.try_get(second.0, 9), TryGet::Items(vec![0, 1, 2, 3, 4]));
}

#[test]
fn a_waiting_worker_does_not_keep_a_receiver_from_being_dropped() {
    let mut shared = plain(1);
    let rx = shared.rx(1, 2).unwrap();
    assert_eq!(shared.run_worker(0), WorkerStep::Progress);
    assert_eq!(shared.run_worker(0), WorkerStep::Wait);
    assert_eq!(shared.workers[0].task, Task::Serving { receiver: rx.0, count: 2 });
    assert!(shared.begin_drop(rx.0));
    assert!(shared.finish_drop(rx.0));
    assert_eq!(shared.run_worker(0), WorkerStep::Progress);
    assert_eq!(shared.workers[0].task, Task::Idle);
    assert_eq!(shared.stats_snapshot().scheduler.demand_abandoned, 2);
}

#[test]
fn a_sending_worker_holds_up_a_drop_for_one_step() {
    let mut shared = plain(1);
    let rx = shared.rx(1, 5).unwrap();
    for item in 0..3 {
        send(&mut shared, item);
    }
    for _ in 0..3 {
        assert_eq!(shared.run_worker(0), WorkerStep::Progress);
    }
    assert_eq!(
        shared.workers[0].task,
        Task::Sending { receiver: rx.0, count: 5, fulfilled: 0 }
    );
    assert!(shared.begin_drop(rx.0));
    assert!(!shared.finish_drop(rx.0));
    assert!(shared.drop_pending(rx.0));
    assert_eq!(shared.run_worker(0), WorkerStep::Progress);
    assert_eq!(shared.workers[0].task, Task::Serving { receiver: rx.0, count: 4 });
    assert!(shared.finish_drop(rx.0));
    assert!(!shared.drop_pending(rx.0));
    let other = shared.rx(1, 5).unwrap();
    settle(&mut shared);
    assert_eq!(shared.try_get(other.0, 5), TryGet::Items(vec![0, 1, 2]));
}

#[test]
fn an_item_in_hand_for_a_dropped_receiver_is_taken_back() {
    let mut shared = plain(1);
    let rx = shared.rx(1, 5).unwrap();
    send(&mut shared, 8);
    assert_eq!(shared.run_worker(0), WorkerStep::Progress);
    assert_eq!(shared.run_worker(0), WorkerStep::Progress);
    assert_eq!(shared.workers[0].task, Task::Holding { receiver: rx.0, count: 5 });
    assert!(shared.begin_drop(rx.0));
    assert!(shared.finish_drop(rx.0));
    assert_eq!(shared.run_worker(0), WorkerStep::Progress);
    let stats = shared.stats_snapshot().scheduler;
    assert_eq!((stats.recovered_pending, stats.recovered_enqueued), (1, 1));
    assert_eq!((stats.active_worker_items, stats.demand_abandoned), (0, 5));
}

#[test]
fn one_request_is_met_in_four_steps() {
    let mut shared = plain(2);
    let rx = shared.rx(1, 3).unwrap();
    send(&mut shared, 31);
    for _ in 0..4 {
        assert_eq!(shared.try_get_one(rx.0), TryGetOne::Empty);
        assert_eq!(shared.run_worker(1), WorkerStep::Progress);
    }
    assert_eq!(shared.try_get_one(rx.0), TryGetOne::Item(31));
}

#[test]
fn one_worker_and_one_receiver_keep_the_order() {
    let mut dice = Dice(9);
    let mut shared = plain(1);
    let rx = shared.rx(2, 5).unwrap();
    let mut got = Vec::new();
    let mut next = 0;
    for _ in 0..500 {
        match dice.roll(4) {
            0 => {
                send(&mut shared, next);
                next += 1;
            }
            1 => {
                if let TryGet::Items(items) = shared.try_get(rx.0, 1 + dice.roll(3)) {
                    got.extend(items);
                }
            }
            _ => {
                shared.run_worker(0);
            }
        }
    }
    assert!(got.len() > 50);
    assert_eq!(got, (0..got.len() as i32).collect::<Vec<i32>>());
}

#[test]
fn a_shutdown_without_receivers_waits_for_one() {
    let mut shared = plain(2);
    send(&mut shared, 3);
    assert!(shared.graceful_shutdown());
    settle(&mut shared);
    assert_eq!(shared.run_worker(0), WorkerStep::Wait);
    assert_eq!(shared.lifecycle, SHUTTING_DOWN);
    assert_eq!(shared.tx(), Ok(()));
    let rx = shared.rx(1, 2).unwrap();
    settle(&mut shared);
    assert_eq!(shared.get_one(rx.0), Attempt::Ready(Ok(3)));
    settle(&mut shared);
    assert_eq!(shared.lifecycle, NO_MORE_WORK);
    assert_eq!(shared.tx(), Err(AccessError::NoMoreWork));
    assert_eq!(shared.get_one(rx.0), Attempt::Ready(Err(GetError::NoMoreWork)));
}

#[test]
fn a_completed_shutdown_stays_empty() {
    let mut shared = plain(1);
    assert!(shared.graceful_shutdown());
    assert_eq!(shared.lifecycle, NO_MORE_WORK);
    assert!(!shared.begin_send());
    assert_eq!(shared.finish_send(1), Err(1));
    assert_eq!(shared.rx(1, 2), Err(AccessError::NoMoreWork));
    assert!(nothing_pending(&shared));
    assert_eq!(shared.run_worker(0), WorkerStep::Exit);
    assert_eq!(shared.run_worker(0), WorkerStep::Exit);
    assert!(nothing_pending(&shared));
    shared.reset_stats();
    assert!(nothing_pending(&shared));
}

#[test]
fn stopped_workers_give_up_and_end() {
    let mut shared = plain(3);
    let rx = shared.rx(1, 2).unwrap();
    let other = shared.rx(1, 2).unwrap();
    send(&mut shared, 1);
    for worker in 0..3 {
        shared.run_worker(worker);
    }
    shared.cancel_internal();
    for worker in 0..3 {
        let mut steps = 0;
        while shared.run_worker(worker) != WorkerStep::Exit {
            steps += 1;
            assert!(steps < 10);
        }
    }
    assert_eq!(shared.active_workers, 0);
    assert_eq!(shared.get_one(rx.0), Attempt::Ready(Err(GetError::Cancelled)));
    assert_eq!(shared.try_get_one(other.0), TryGetOne::Cancelled);
    assert_eq!(shared.tx(), Err(AccessError::Cancelled));
    assert_eq!(shared.rx(1, 2), Err(AccessError::Cancelled));
}

#[test]
fn buffered_items_can_still_be_read_after_a_cancel() {
    let mut shared = plain(1);
    let rx = shared.rx(1, 3).unwrap();
    send(&mut shared, 1);
    send(&mut shared, 2);
    settle(&mut shared);
    shared.cancel_internal();
    settle(&mut shared);
    assert_eq!(shared.get(rx.0, 9), Attempt::Ready(Ok(vec![1, 2])));
    assert_eq!(shared.get(rx.0, 9), Attempt::Ready(Err(GetError::Cancelled)));
}

#[test]
fn identifiers_ascend_from_one() {
    let mut shared = plain(1);
    assert_eq!(shared.alloc_feeder_id().0, 1);
    assert_eq!(shared.rx(1, 2), Ok(ReceiverId(2)));
    assert_eq!(shared.rx(2, 2), Err(AccessError::InvalidWaterMarks));
    assert_eq!(shared.alloc_feeder_id().0, 3);
    assert_eq!(shared.rx(1, 2), Ok(ReceiverId(4)));
}

#[test]
fn an_identifier_that_is_in_use_is_not_given_out_again() {
    let mut shared = plain(1);
    assert_eq!(shared.rx(1, 2), Ok(ReceiverId(1)));
    shared.next_id = usize::MAX;
    assert_eq!(shared.rx(1, 2), Ok(ReceiverId(usize::MAX)));
    assert_eq!(shared.rx(1, 2), Ok(ReceiverId(0)));
    assert_eq!(shared.rx(1, 2), Err(AccessError::SchedulerStopped));
}

#[test]
fn demand_counter_wraps_around() {
    let mut shared = plain(1);
    let half = usize::MAX / 2 + 1;
    assert!(shared.rx(1, half).is_ok());
    assert!(shared.rx(1, half).is_ok());
    assert_eq!(shared.stats_snapshot().scheduler.demand_pending, 0);
    assert_eq!(shared.stats_snapshot().scheduler.demand_commands, 2);
}

#[test]
fn workers_come_to_rest() {
    let mut shared = plain(3);
    for _ in 0..2 {
        assert!(shared.rx(2, 6).is_ok());
    }
    for item in 0..30 {
        send(&mut shared, item);
    }
    let bound = 4 * 30 + 4 * 2 + 3;
    let mut steps = 0;
    let mut waiting = 0;
    while waiting < 3 {
        waiting = 0;
        for worker in 0..3 {
            match shared.run_worker(worker) {
                WorkerStep::Progress => steps += 1,
                WorkerStep::Wait => waiting += 1,
                WorkerStep::Exit => panic!("ended in service"),
            }
        }
        assert!(steps <= bound);
    }
    assert_eq!(shared.stats_snapshot().scheduler.delivered_inflight, 12);
}

#[test]
fn a_receiver_in_use_is_not_released() {
    let mut shared = plain(1);
    let rx = shared.rx(1, 2).unwrap();
    send(&mut shared, 4);
    settle(&mut shared);
    assert!(!shared.release(rx.0));
    shared.cancel_internal();
    settle(&mut shared);
    assert!(!shared.release(rx.0));
    assert!(!shared.begin_drop(rx.0));
    assert!(shared.release(rx.0));
    assert!(!shared.release(rx.0));
    assert!(shared.receivers.is_empty());
    assert_eq!(shared.get_one(rx.0), Attempt::Ready(Err(GetError::Cancelled)));
}

#[test]
fn a_request_that_nobody_hears_is_counted_and_not_submitted() {
    let mut shared = plain(1);
    let rx = shared.rx(1, 2).unwrap();
    send(&mut shared, 6);
    settle(&mut shared);
    assert!(shared.begin_drop(rx.0));
    shared.cancel_internal();
    settle(&mut shared);
    assert_eq!(shared.active_workers, 0);
    let before = shared.stats_snapshot();
    assert_eq!((before.scheduler.demand_requested, before.scheduler.demand_commands), (2, 1));
    assert_eq!(shared.try_get_one(rx.0), TryGetOne::Item(6));
    let after = shared.stats_snapshot();
    assert_eq!((after.scheduler.demand_requested, after.scheduler.demand_commands), (4, 1));
    assert_eq!(after.consumers.refill_messages, before.consumers.refill_messages + 1);
    assert_eq!(after.scheduler.demand_pending, before.scheduler.demand_pending);
    assert_eq!(shared.receivers.get(&rx.0).unwrap().outstanding, 0);
    assert!(shared.finish_drop(rx.0));
    assert_eq!(shared.get_one(rx.0), Attempt::Ready(Err(GetError::Cancelled)));
}
