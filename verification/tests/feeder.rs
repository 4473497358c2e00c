use feeder::{
    AccessError, Attempt, ChannelStatus, ConsumerStatsSnapshot, Feeder, FeederId, FeederRx,
    GetError, NoStatus, NonZeroUsize, SchedulerStatsSnapshot, SendBatchError, SendError,
    StatusEvent, StatusSink, TryGet, TryGetOne, Worker, WorkerStep,
};

fn make_feeder<T: Send + 'static>() -> Feeder<T, NoStatus> {
    Feeder::<T, NoStatus>::builder().build()
}

fn count(n: usize) -> NonZeroUsize {
    NonZeroUsize::new(n).unwrap()
}

fn water(low: usize, high: usize) -> (NonZeroUsize, NonZeroUsize) {
    (count(low), count(high))
}

/// Runs the workers in turn until none can go on.
fn settle<T: Send + 'static, S: StatusSink>(workers: &[Worker<T, S>]) {
    let mut progress = true;
    while progress {
        progress = false;
        for worker in workers {
            if worker.run() == WorkerStep::Progress {
                progress = true;
            }
        }
    }
}

/// Runs the workers until the operation need not wait any more.
fn wait_for<T, S, R>(workers: &[Worker<T, S>], operation: impl Fn() -> Attempt<R>) -> R
where
    T: Send + 'static,
    S: StatusSink,
{
    for _ in 0..100 {
        match operation() {
            Attempt::Ready(result) => return result,
            Attempt::Wait => settle(workers),
        }
    }
    panic!("nothing came")
}

fn get_one<T: Send + 'static, S: StatusSink>(
    workers: &[Worker<T, S>],
    rx: &FeederRx<T, S>,
) -> Result<T, GetError> {
    wait_for(workers, || rx.get_one())
}

fn get<T: Send + 'static, S: StatusSink>(
    workers: &[Worker<T, S>],
    rx: &FeederRx<T, S>,
    max: usize,
) -> Result<Vec<T>, GetError> {
    wait_for(workers, || rx.get(count(max)))
}

/// Gives a receiver up, as its owner does who drops it.
fn drop_receiver<T: Send + 'static, S: StatusSink>(workers: &[Worker<T, S>], rx: FeederRx<T, S>) {
    if rx.cancel() == Attempt::Wait {
        wait_for(workers, || rx.finish_cancel());
    }
    rx.release();
}

/// Stops a feeder and runs its workers to their end.
fn drop_feeder<T: Send + 'static, S: StatusSink>(workers: &[Worker<T, S>], feeder: Feeder<T, S>) {
    feeder.cancel();
    settle(workers);
    for worker in workers {
        assert_eq!(worker.run(), WorkerStep::Exit);
    }
}

#[test]
fn rx_rejects_invalid_water_marks() {
    let feeder = make_feeder::<i32>();
    assert!(matches!(
        feeder.rx(water(2, 2).0, water(2, 2).1),
        Err(AccessError::InvalidWaterMarks)
    ));
    assert!(matches!(
        feeder.rx(water(3, 2).0, water(3, 2).1),
        Err(AccessError::InvalidWaterMarks)
    ));
}

#[test]
fn refill_signals_only_below_low_water() {
    let feeder = make_feeder::<i32>();
    let workers = feeder.workers();
    let rx = feeder.rx(water(2, 4).0, water(2, 4).1).unwrap();
    let tx = feeder.tx().unwrap();
    for i in 0..4 {
        tx.send(i).unwrap();
    }
    settle(&workers);
    let batch = get(&workers, &rx, 2).unwrap();
    assert_eq!(batch.len(), 2);
    assert_eq!(feeder.stats_snapshot().consumers.refill_messages, 0);
    settle(&workers);
    let one = get_one(&workers, &rx).unwrap();
    assert_eq!(one, 2);
    assert_eq!(feeder.stats_snapshot().consumers.refill_messages, 1);
}

#[test]
fn tx_returns_sender_while_running() {
    let feeder = make_feeder::<i32>();
    assert!(feeder.tx().is_ok());
}

#[test]
fn send_returns_ingress_sealed_after_graceful_shutdown() {
    let feeder = make_feeder::<i32>();
    let _rx = feeder.rx(water(1, 2).0, water(1, 2).1).unwrap();
    let tx = feeder.tx().unwrap();
    tx.send(1).unwrap();
    assert!(feeder.graceful_shutdown());
    assert!(matches!(tx.send(2), Err(SendError::IngressSealed(2))));
}

#[test]
fn send_after_graceful_shutdown_returns_original_item() {
    let feeder = make_feeder::<i32>();
    let _rx = feeder.rx(water(1, 2).0, water(1, 2).1).unwrap();
    let tx = feeder.tx().unwrap();
    tx.send(1).unwrap();
    assert!(feeder.graceful_shutdown());
    for v in [7i32, 8, 9] {
        match tx.send(v) {
            Err(SendError::IngressSealed(got)) => assert_eq!(got, v),
            other => panic!("unexpected {other:?}"),
        }
    }
}

#[test]
fn send_batch_delivers_items() {
    let feeder = make_feeder::<i32>();
    let workers = feeder.workers();
    let rx = feeder.rx(water(1, 4).0, water(1, 4).1).unwrap();
    let tx = feeder.tx().unwrap();
    tx.send_batch(vec![1, 2, 3]).unwrap();
    assert_eq!(get_one(&workers, &rx).unwrap(), 1);
    assert_eq!(get_one(&workers, &rx).unwrap(), 2);
    assert_eq!(get_one(&workers, &rx).unwrap(), 3);
}

#[test]
fn send_batch_after_graceful_shutdown_returns_original_items() {
    let feeder = make_feeder::<i32>();
    let _rx = feeder.rx(water(1, 2).0, water(1, 2).1).unwrap();
    let tx = feeder.tx().unwrap();
    tx.send(1).unwrap();
    assert!(feeder.graceful_shutdown());
    match tx.send_batch(vec![7, 8, 9]) {
        Err(SendBatchError::IngressSealed(items)) => assert_eq!(items, vec![7, 8, 9]),
        other => panic!("unexpected {other:?}"),
    }
}

#[test]
fn immediate_no_more_work_on_empty_graceful_shutdown() {
    let feeder = make_feeder::<i32>();
    assert!(feeder.graceful_shutdown());
    assert!(matches!(
        feeder.rx(water(1, 2).0, water(1, 2).1),
        Err(AccessError::NoMoreWork)
    ));
}

#[test]
fn rx_allowed_during_graceful_shutdown() {
    let feeder = make_feeder::<i32>();
    let tx = feeder.tx().unwrap();
    tx.send(1).unwrap();
    assert!(feeder.graceful_shutdown());
    assert!(feeder.rx(water(1, 2).0, water(1, 2).1).is_ok());
}

#[test]
fn rx_rejected_after_cancel() {
    let feeder = make_feeder::<i32>();
    let workers = feeder.workers();
    feeder.cancel();
    settle(&workers);
    assert!(matches!(
        feeder.rx(water(1, 2).0, water(1, 2).1),
        Err(AccessError::Cancelled)
    ));
}

#[test]
fn get_returns_non_empty_vec_up_to_max() {
    let feeder = make_feeder::<i32>();
    let workers = feeder.workers();
    let rx = feeder.rx(water(1, 2).0, water(1, 2).1).unwrap();
    let tx = feeder.tx().unwrap();
    for i in 0..5 {
        tx.send(i).unwrap();
    }
    let batch = get(&workers, &rx, 3).unwrap();
    assert!(!batch.is_empty());
    assert!(batch.len() <= 3);
}

#[test]
fn get_one_returns_single_item() {
    let feeder = make_feeder::<i32>();
    let workers = feeder.workers();
    let rx = feeder.rx(water(1, 2).0, water(1, 2).1).unwrap();
    let tx = feeder.tx().unwrap();
    tx.send(42).unwrap();
    assert_eq!(get_one(&workers, &rx).unwrap(), 42);
}

#[test]
fn try_get_empty_while_running() {
    let feeder = make_feeder::<i32>();
    let rx = feeder.rx(water(1, 2).0, water(1, 2).1).unwrap();
    assert!(matches!(rx.try_get(count(3)), TryGet::Empty));
}

#[test]
fn try_get_in_shutdown_when_empty_and_shutdown_started() {
    let feeder = make_feeder::<i32>();
    let workers = feeder.workers();
    let rx = feeder.rx(water(1, 2).0, water(1, 2).1).unwrap();
    let tx = feeder.tx().unwrap();
    tx.send(1).unwrap();
    let _ = get_one(&workers, &rx).unwrap();
    assert!(feeder.graceful_shutdown());
    assert!(matches!(rx.try_get(count(3)), TryGet::InShutdown));
}

#[test]
fn try_get_no_more_work_after_final_drain() {
    let feeder = make_feeder::<i32>();
    let workers = feeder.workers();
    let rx = feeder.rx(water(1, 2).0, water(1, 2).1).unwrap();
    let tx = feeder.tx().unwrap();
    tx.send(1).unwrap();
    let _ = get_one(&workers, &rx).unwrap();
    assert!(feeder.graceful_shutdown());
    drop(tx);
    loop {
        match rx.try_get_one() {
            TryGetOne::Item(_) => continue,
            TryGetOne::NoMoreWork => break,
            TryGetOne::InShutdown | TryGetOne::Empty => settle(&workers),
            other => panic!("unexpected {other:?}"),
        }
    }
}

#[test]
fn cancel_wakes_blocking_get() {
    let feeder = make_feeder::<i32>();
    let workers = feeder.workers();
    let rx = feeder.rx(water(1, 2).0, water(1, 2).1).unwrap();
    let feeder2 = feeder.clone();
    settle(&workers);
    assert_eq!(rx.get_one(), Attempt::Wait);
    feeder2.cancel();
    assert_eq!(get_one(&workers, &rx), Err(GetError::Cancelled));
}

#[test]
fn receiver_refills_only_consumed_count() {
    let feeder = make_feeder::<i32>();
    let workers = feeder.workers();
    let rx = feeder.rx(water(1, 2).0, water(1, 2).1).unwrap();
    let tx = feeder.tx().unwrap();
    tx.send(1).unwrap();
    tx.send(2).unwrap();
    tx.send(3).unwrap();
    assert_eq!(get_one(&workers, &rx).unwrap(), 1);
    assert_eq!(get_one(&workers, &rx).unwrap(), 2);
    tx.send(4).unwrap();
    let one = get_one(&workers, &rx).unwrap();
    assert_eq!(one, 3);
}

#[test]
fn recovered_work_is_prioritized_before_ingress() {
    let feeder = make_feeder::<i32>();
    let workers = feeder.workers();
    let rx1 = feeder.rx(water(1, 2).0, water(1, 2).1).unwrap();
    let tx = feeder.tx().unwrap();
    tx.send(100).unwrap();
    let _ = get_one(&workers, &rx1).unwrap();
    tx.send(200).unwrap();
    settle(&workers);
    drop_receiver(&workers, rx1);
    settle(&workers);
    let rx2 = feeder.rx(water(1, 2).0, water(1, 2).1).unwrap();
    tx.send(300).unwrap();
    let first = get_one(&workers, &rx2).unwrap();
    assert_eq!(first, 200);
}

#[test]
fn receiver_drop_recovers_buffered_items_without_loss() {
    let feeder = make_feeder::<i32>();
    let workers = feeder.workers();
    let rx = feeder.rx(water(2, 5).0, water(2, 5).1).unwrap();
    let tx = feeder.tx().unwrap();
    for i in 0..10 {
        tx.send(i).unwrap();
    }
    settle(&workers);
    drop_receiver(&workers, rx);
    settle(&workers);
    let rx2 = feeder.rx(water(5, 10).0, water(5, 10).1).unwrap();
    let mut sum = 0i32;
    for _ in 0..20 {
        match rx2.try_get_one() {
            TryGetOne::Item(v) => sum += v,
            TryGetOne::Empty => settle(&workers),
            TryGetOne::NoMoreWork => break,
            _ => {}
        }
    }
    assert_eq!(sum, (0..10).sum::<i32>());
}

#[test]
fn multi_worker_preserves_total_count_and_checksum() {
    let feeder = Feeder::<u64>::builder().scheduler_threads(count(4)).build();
    let workers = feeder.workers();
    assert_eq!(workers.len(), 4);
    let rx = feeder.rx(water(1, 8).0, water(1, 8).1).unwrap();
    let n_producers = 4usize;
    let per_producer = 500usize;
    let mut senders = Vec::new();
    for _ in 0..n_producers {
        senders.push(feeder.tx().unwrap());
    }
    for i in 0..per_producer {
        for (p, tx) in senders.iter().enumerate() {
            let base = (p * per_producer) as u64;
            tx.send(base + i as u64).unwrap();
            workers[(i + p) % 4].run();
        }
    }
    assert!(feeder.graceful_shutdown());
    let expected_sum = (0..(n_producers * per_producer) as u64).sum::<u64>();
    let mut sum = 0u64;
    let mut received = 0usize;
    loop {
        match rx.try_get(count(32)) {
            TryGet::Items(batch) => {
                for v in batch {
                    sum += v;
                    received += 1;
                }
            }
            TryGet::Empty | TryGet::InShutdown => settle(&workers),
            TryGet::NoMoreWork => break,
            TryGet::Cancelled => panic!("cancelled"),
        }
    }
    assert_eq!(sum, expected_sum);
    assert_eq!(received, n_producers * per_producer);
}

#[test]
fn queued_demand_for_dropped_receiver_is_abandoned() {
    let feeder = make_feeder::<i32>();
    let workers = feeder.workers();
    let rx = feeder.rx(water(1, 100).0, water(1, 100).1).unwrap();
    let demand_before = feeder.stats_snapshot().scheduler.demand_pending;
    assert!(demand_before >= 100);
    drop_receiver(&workers, rx);
    settle(&workers);
    let demand_after = feeder.stats_snapshot().scheduler.demand_pending;
    assert!(demand_after < demand_before);
    assert_eq!(feeder.stats_snapshot().scheduler.demand_abandoned, 100);
}

fn finish_one_item() -> Vec<StatusEvent> {
    let (feeder, status_rx) = Feeder::<i32>::builder().build_with_status();
    let workers: Vec<Worker<i32, ChannelStatus>> = feeder.workers();
    let rx = feeder.rx(water(1, 2).0, water(1, 2).1).unwrap();
    let tx = feeder.tx().unwrap();
    tx.send(1).unwrap();
    let _ = get_one(&workers, &rx).unwrap();
    assert!(feeder.graceful_shutdown());
    drop(tx);
    loop {
        match rx.try_get_one() {
            TryGetOne::Item(_) => continue,
            TryGetOne::NoMoreWork => break,
            _ => settle(&workers),
        }
    }
    drop_receiver(&workers, rx);
    drop_feeder(&workers, feeder);
    let mut events = Vec::new();
    while let Ok(ev) = status_rx.try_recv() {
        events.push(ev);
    }
    events
}

#[test]
fn lifecycle_events_emitted_once() {
    let mut graceful = 0;
    let mut no_more = 0;
    let mut cancelled = 0;
    let mut exited = 0;
    for ev in finish_one_item() {
        match ev {
            StatusEvent::GracefulShutdownStarted => graceful += 1,
            StatusEvent::NoMoreWork => no_more += 1,
            StatusEvent::Cancelled => cancelled += 1,
            StatusEvent::SchedulerExited => exited += 1,
            _ => {}
        }
    }
    assert_eq!(graceful, 1);
    assert_eq!(no_more, 1);
    assert_eq!(cancelled, 0);
    assert_eq!(exited, 1);
}

#[test]
fn no_more_work_waits_for_in_flight_items() {
    let feeder = make_feeder::<i32>();
    let workers = feeder.workers();
    let rx = feeder.rx(water(1, 3).0, water(1, 3).1).unwrap();
    let tx = feeder.tx().unwrap();
    for i in 0..6 {
        tx.send(i).unwrap();
    }
    settle(&workers);
    assert!(feeder.graceful_shutdown());
    drop(tx);
    let batch = get(&workers, &rx, 3).unwrap();
    assert_eq!(batch.len(), 3);
    let other = feeder.rx(water(1, 2).0, water(1, 2).1);
    assert!(other.is_ok());
    drop_receiver(&workers, other.unwrap());
    loop {
        match rx.try_get_one() {
            TryGetOne::Item(_) => {}
            TryGetOne::Empty | TryGetOne::InShutdown => settle(&workers),
            TryGetOne::NoMoreWork | TryGetOne::Cancelled => break,
        }
    }
    drop_receiver(&workers, rx);
    settle(&workers);
    assert!(matches!(
        feeder.rx(water(1, 2).0, water(1, 2).1),
        Err(AccessError::NoMoreWork)
    ));
}

#[test]
fn status_emits_lag_once_then_recovered_once() {
    let (feeder, status_rx) = Feeder::<i32>::builder().build_with_status();
    let workers = feeder.workers();
    let rx = feeder.rx(water(1, 2).0, water(1, 2).1).unwrap();
    let tx = feeder.tx().unwrap();
    tx.send(1).unwrap();
    let _ = get(&workers, &rx, 3).unwrap();
    let mut lag_count = 0;
    let mut recovered_count = 0;
    while let Ok(ev) = status_rx.try_recv() {
        match ev {
            StatusEvent::Lagging { requested, received, .. } => {
                assert_eq!((requested, received), (3, 1));
                lag_count += 1
            }
            StatusEvent::Recovered { .. } => recovered_count += 1,
            _ => {}
        }
    }
    assert_eq!(lag_count, 1);
    tx.send(2).unwrap();
    tx.send(3).unwrap();
    tx.send(4).unwrap();
    settle(&workers);
    let _ = get_one(&workers, &rx).unwrap();
    while let Ok(ev) = status_rx.try_recv() {
        match ev {
            StatusEvent::Lagging { .. } => lag_count += 1,
            StatusEvent::Recovered { .. } => recovered_count += 1,
            _ => {}
        }
    }
    assert_eq!(recovered_count, 1);
    assert_eq!(lag_count, 1);
}

#[test]
fn status_emits_lifecycle_events() {
    let events = finish_one_item();
    assert!(events
        .iter()
        .any(|e| matches!(e, StatusEvent::ReceiverRegistered { .. })));
    assert!(events
        .iter()
        .any(|e| matches!(e, StatusEvent::GracefulShutdownStarted)));
    assert!(events.iter().any(|e| matches!(e, StatusEvent::NoMoreWork)));
    assert!(events
        .iter()
        .any(|e| matches!(e, StatusEvent::SchedulerExited)));
}

#[test]
fn feeder_clone_gets_new_monotonic_id() {
    let feeder = make_feeder::<i32>();
    let id1 = feeder.id();
    let feeder2 = feeder.clone();
    let id2 = feeder2.id();
    assert_ne!(id1, id2);
    assert!(id2.0 > id1.0);
}

#[test]
fn receiver_registrations_get_monotonic_ids() {
    let feeder = make_feeder::<i32>();
    let rx1 = feeder.rx(water(1, 2).0, water(1, 2).1).unwrap();
    let rx2 = feeder.rx(water(1, 2).0, water(1, 2).1).unwrap();
    assert!(rx2.id().0 > rx1.id().0);
}

#[test]
fn reset_stats_clears_counters() {
    let feeder = make_feeder::<i32>();
    let workers = feeder.workers();
    let rx = feeder.rx(water(1, 2).0, water(1, 2).1).unwrap();
    let tx = feeder.tx().unwrap();
    tx.send(1).unwrap();
    let _ = get_one(&workers, &rx).unwrap();
    let snap = feeder.stats_snapshot();
    assert!(snap.scheduler.output_routed > 0 || snap.consumers.items_consumed > 0);
    feeder.reset_stats();
    let cleared = feeder.stats_snapshot();
    assert_eq!(cleared.scheduler.output_routed, 0);
    assert_eq!(cleared.consumers.items_consumed, 0);
    assert_eq!(cleared.consumers.refill_messages, 0);
    assert_eq!(cleared.scheduler.worker_count, 1);
}

#[test]
fn routed_items_match_consumed() {
    let feeder = make_feeder::<i32>();
    let workers = feeder.workers();
    let rx = feeder.rx(water(1, 4).0, water(1, 4).1).unwrap();
    let tx = feeder.tx().unwrap();
    for i in 0..4 {
        tx.send(i).unwrap();
    }
    settle(&workers);
    let batch = get(&workers, &rx, 4).unwrap();
    assert_eq!(batch.len(), 4);
    let snap = feeder.stats_snapshot();
    assert_eq!(snap.consumers.items_consumed, 4);
    assert_eq!(snap.scheduler.output_routed, 4);
}

#[test]
fn the_first_handle_has_the_first_identifier() {
    let feeder = Feeder::<i32>::builder().scheduler_threads(count(4)).build();
    assert_eq!(feeder.id(), FeederId(1));
    assert_eq!(feeder.workers().len(), 4);
    let fresh = feeder.stats_snapshot();
    assert_eq!(
        fresh.scheduler,
        SchedulerStatsSnapshot { worker_count: 4, ..SchedulerStatsSnapshot::default() }
    );
    assert_eq!(fresh.consumers, ConsumerStatsSnapshot::default());
    let (reporting, _events) = Feeder::<i32>::builder().build_with_status();
    assert_eq!(reporting.id(), FeederId(1));
    assert_eq!(reporting.clone().id(), FeederId(2));
}

#[test]
fn each_feeder_reports_into_its_own_channel() {
    let (first, first_events) = Feeder::<i32>::builder().build_with_status();
    let (second, second_events) = Feeder::<i32>::builder().build_with_status();
    first.cancel();
    assert!(second.graceful_shutdown());
    assert_eq!(first_events.try_iter().collect::<Vec<_>>(), vec![StatusEvent::Cancelled]);
    assert_eq!(
        second_events.try_iter().collect::<Vec<_>>(),
        vec![StatusEvent::GracefulShutdownStarted, StatusEvent::NoMoreWork]
    );
}

#[test]
fn a_receiver_dropped_after_a_cancel_takes_its_items_with_it() {
    let feeder = make_feeder::<std::sync::Arc<i32>>();
    let workers = feeder.workers();
    let rx = feeder.rx(water(1, 2).0, water(1, 2).1).unwrap();
    let tx = feeder.tx().unwrap();
    let item = std::sync::Arc::new(7);
    tx.send(item.clone()).unwrap();
    settle(&workers);
    feeder.cancel();
    settle(&workers);
    assert_eq!(rx.cancel(), Attempt::Ready(()));
    assert_eq!(std::sync::Arc::strong_count(&item), 2);
    assert!(rx.release());
    assert!(!rx.release());
    assert_eq!(std::sync::Arc::strong_count(&item), 1);
    assert_eq!(feeder.stats_snapshot().scheduler.delivered_inflight, 1);
    assert_eq!(rx.get_one(), Attempt::Ready(Err(GetError::Cancelled)));
}
