use feeder::stats::{Counter, Quotient, Ratio, ReportLine, Section};
use feeder::types::{
    send_batch_error_for_state, send_error_for_state, CANCELLED, NO_MORE_WORK, RUNNING,
    SHUTTING_DOWN,
};
use feeder::{
    AccessError, ConsumerStats, ConsumerStatsSnapshot, FeederStatsSnapshot, GetError, NonZeroUsize,
    SchedulerStats, SchedulerStatsSnapshot, SendBatchError, SendError,
};

#[test]
fn zero_is_no_positive_word() {
    assert!(NonZeroUsize::new(0).is_none());
    assert_eq!(NonZeroUsize::new(1).unwrap().get(), 1);
    assert_eq!(NonZeroUsize::new(usize::MAX).unwrap().get(), usize::MAX);
}

#[test]
fn a_refused_item_comes_back_with_the_reason() {
    assert_eq!(send_error_for_state(CANCELLED, false, 7), SendError::Cancelled(7));
    assert_eq!(send_error_for_state(CANCELLED, true, 7), SendError::Cancelled(7));
    assert_eq!(send_error_for_state(NO_MORE_WORK, false, 7), SendError::NoMoreWork(7));
    assert_eq!(send_error_for_state(SHUTTING_DOWN, false, 7), SendError::IngressSealed(7));
    assert_eq!(send_error_for_state(SHUTTING_DOWN, true, 7), SendError::IngressSealed(7));
    assert_eq!(send_error_for_state(RUNNING, false, 7), SendError::IngressSealed(7));
    assert_eq!(send_error_for_state(RUNNING, true, 7), SendError::SchedulerStopped(7));
    assert_eq!(send_error_for_state(9, false, 7), SendError::SchedulerStopped(7));
}

#[test]
fn a_refused_batch_comes_back_with_the_reason() {
    let items = || vec![1, 2];
    assert_eq!(
        send_batch_error_for_state(CANCELLED, false, items()),
        SendBatchError::Cancelled(items())
    );
    assert_eq!(
        send_batch_error_for_state(NO_MORE_WORK, false, items()),
        SendBatchError::NoMoreWork(items())
    );
    assert_eq!(
        send_batch_error_for_state(SHUTTING_DOWN, false, items()),
        SendBatchError::IngressSealed(items())
    );
    assert_eq!(
        send_batch_error_for_state(RUNNING, false, items()),
        SendBatchError::IngressSealed(items())
    );
    assert_eq!(
        send_batch_error_for_state(RUNNING, true, items()),
        SendBatchError::SchedulerStopped(items())
    );
    assert_eq!(
        send_batch_error_for_state(9, true, items()),
        SendBatchError::SchedulerStopped(items())
    );
}

#[test]
fn errors_have_their_texts() {
    assert_eq!(AccessError::IngressSealed.message(), "ingress sealed");
    assert_eq!(AccessError::Cancelled.message(), "cancelled");
    assert_eq!(AccessError::NoMoreWork.message(), "no more work");
    assert_eq!(AccessError::SchedulerStopped.message(), "scheduler stopped");
    assert_eq!(
        AccessError::InvalidWaterMarks.message(),
        "low water mark must be less than high water mark"
    );
    assert_eq!(GetError::Cancelled.message(), "cancelled");
    assert_eq!(GetError::NoMoreWork.message(), "no more work");
}

#[test]
fn counters_are_copied_and_cleared() {
    let mut stats = SchedulerStats::default();
    stats.worker_count = 4;
    stats.ingress_accepted = 1;
    stats.ingress_consumed = 2;
    stats.demand_commands = 3;
    stats.demand_requested = 4;
    stats.demand_fulfilled = 5;
    stats.demand_abandoned = 6;
    stats.recovered_enqueued = 7;
    stats.recovered_routed = 8;
    stats.output_routed = 9;
    stats.receiver_drop_recovered = 10;
    let snapshot = stats.snapshot_pending(11, 12, 13, 14, 15);
    assert_eq!(
        snapshot,
        SchedulerStatsSnapshot {
            worker_count: 4,
            ingress_accepted: 1,
            ingress_consumed: 2,
            demand_commands: 3,
            demand_requested: 4,
            demand_fulfilled: 5,
            demand_abandoned: 6,
            recovered_enqueued: 7,
            recovered_routed: 8,
            output_routed: 9,
            receiver_drop_recovered: 10,
            ingress_pending: 11,
            demand_pending: 12,
            recovered_pending: 13,
            active_worker_items: 14,
            delivered_inflight: 15,
        }
    );
    stats.reset();
    let mut cleared = SchedulerStats::default();
    cleared.worker_count = 4;
    assert_eq!(stats, cleared);
    assert_eq!(
        SchedulerStats::default().snapshot_pending(0, 0, 0, 0, 0),
        SchedulerStatsSnapshot::default()
    );
}

#[test]
fn counters_of_receivers_are_added_up() {
    let one = ConsumerStats { get_calls: 1, items_consumed: 2, refill_messages: 3 };
    let two = ConsumerStats { get_calls: 10, items_consumed: 20, refill_messages: u64::MAX };
    assert_eq!(
        ConsumerStatsSnapshot::sum(&vec![one, two]),
        ConsumerStatsSnapshot { get_calls: 11, items_consumed: 22, refill_messages: 2 }
    );
    assert_eq!(ConsumerStatsSnapshot::sum(&vec![]), ConsumerStatsSnapshot::default());
    let mut stats = one;
    assert_eq!(
        stats.snapshot(),
        ConsumerStatsSnapshot { get_calls: 1, items_consumed: 2, refill_messages: 3 }
    );
    stats.reset();
    assert_eq!(stats, ConsumerStats::default());
}

#[test]
fn a_report_lists_counters_and_quotients() {
    let mut snapshot = FeederStatsSnapshot::default();
    let bare = snapshot.report();
    assert_eq!(bare.len(), 21);
    assert_eq!(bare[0], ReportLine::Heading(Section::Scheduler));
    assert_eq!(bare[17], ReportLine::Heading(Section::Consumers));
    snapshot.scheduler.worker_count = 4;
    snapshot.scheduler.demand_requested = 12;
    snapshot.scheduler.output_routed = 9;
    snapshot.consumers.items_consumed = 8;
    snapshot.consumers.refill_messages = 2;
    let without_commands = snapshot.report();
    assert_eq!(without_commands.len(), 24);
    assert_eq!(
        without_commands[1],
        ReportLine::Count { name: Counter::WorkerCount, value: 4 }
    );
    assert_eq!(
        without_commands[19],
        ReportLine::Count { name: Counter::ItemsConsumed, value: 8 }
    );
    assert_eq!(
        without_commands[21..],
        [
            ReportLine::Heading(Section::Ratios),
            ReportLine::Share {
                name: Quotient::RefillPerItem,
                ratio: Ratio { numerator: 2, denominator: 8 },
            },
            ReportLine::Share {
                name: Quotient::RoutedPerItem,
                ratio: Ratio { numerator: 9, denominator: 8 },
            },
        ]
    );
    snapshot.scheduler.demand_commands = 3;
    assert_eq!(
        snapshot.report()[23],
        ReportLine::Share {
            name: Quotient::RequestedPerCommand,
            ratio: Ratio { numerator: 12, denominator: 3 },
        }
    );
}

#[test]
fn report_lines_have_their_labels() {
    assert_eq!(Section::Scheduler.heading(), "scheduler:");
    assert_eq!(Section::Consumers.heading(), "consumers (aggregated):");
    assert_eq!(Section::Ratios.heading(), "ratios:");
    assert_eq!(Counter::WorkerCount.label(), "worker_count:           ");
    assert_eq!(Counter::ReceiverDropRecovered.label(), "receiver_drop_recovered: ");
    assert_eq!(Counter::RefillMessages.label(), "refill_messages:        ");
    assert_eq!(Quotient::RefillPerItem.label(), "refill_messages / items_consumed: ");
    assert_eq!(Quotient::RequestedPerCommand.label(), "demand_requested / command: ");
    assert_eq!(Quotient::RoutedPerItem.label(), "output_routed / items_consumed:   ");
}
