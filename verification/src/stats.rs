//! Counters on what the scheduler and the receivers did.
//!
//! Every counter wraps around at the end of its range.

use vstd::prelude::*;

verus! {

/// Counters on the work of the scheduler.
#[derive(Debug, Clone, Copy, PartialEq, Eq, Structural)]
pub struct SchedulerStats {
    pub worker_count: usize,
    pub ingress_accepted: u64,
    pub ingress_consumed: u64,
    pub demand_commands: u64,
    pub demand_requested: u64,
    pub demand_fulfilled: u64,
    pub demand_abandoned: u64,
    pub recovered_enqueued: u64,
    pub recovered_routed: u64,
    pub output_routed: u64,
    pub receiver_drop_recovered: u64,
}

/// The counters of the scheduler at one moment, with what was pending then.
#[derive(Debug, Clone, Copy, PartialEq, Eq, Structural)]
pub struct SchedulerStatsSnapshot {
    pub worker_count: usize,
    pub ingress_accepted: u64,
    pub ingress_consumed: u64,
    pub demand_commands: u64,
    pub demand_requested: u64,
    pub demand_fulfilled: u64,
    pub demand_abandoned: u64,
    pub recovered_enqueued: u64,
    pub recovered_routed: u64,
    pub output_routed: u64,
    pub receiver_drop_recovered: u64,
    pub ingress_pending: usize,
    pub demand_pending: usize,
    pub recovered_pending: usize,
    pub active_worker_items: usize,
    pub delivered_inflight: usize,
}

impl Default for SchedulerStatsSnapshot {
    /// All counters at zero.
    fn default() -> (snapshot: SchedulerStatsSnapshot)
        ensures
            snapshot == SchedulerStats::zero().with_pending(0, 0, 0, 0, 0),
    {
        SchedulerStatsSnapshot {
            worker_count: 0,
            ingress_accepted: 0,
            ingress_consumed: 0,
            demand_commands: 0,
            demand_requested: 0,
            demand_fulfilled: 0,
            demand_abandoned: 0,
            recovered_enqueued: 0,
            recovered_routed: 0,
            output_routed: 0,
            receiver_drop_recovered: 0,
            ingress_pending: 0,
            demand_pending: 0,
            recovered_pending: 0,
            active_worker_items: 0,
            delivered_inflight: 0,
        }
    }
}

impl SchedulerStats {
    /// All counters at zero, but for the number of workers.
    pub open spec fn cleared(self) -> SchedulerStats {
        SchedulerStats { worker_count: self.worker_count, ..SchedulerStats::zero() }
    }

    /// All counters at zero.
    pub open spec fn zero() -> SchedulerStats {
        SchedulerStats {
            worker_count: 0,
            ingress_accepted: 0,
            ingress_consumed: 0,
            demand_commands: 0,
            demand_requested: 0,
            demand_fulfilled: 0,
            demand_abandoned: 0,
            recovered_enqueued: 0,
            recovered_routed: 0,
            output_routed: 0,
            receiver_drop_recovered: 0,
        }
    }

    /// The counters, beside the given numbers of what is pending.
    pub open spec fn with_pending(
        self,
        ingress_pending: usize,
        demand_pending: usize,
        recovered_pending: usize,
        active_worker_items: usize,
        delivered_inflight: usize,
    ) -> SchedulerStatsSnapshot {
        SchedulerStatsSnapshot {
            worker_count: self.worker_count,
            ingress_accepted: self.ingress_accepted,
            ingress_consumed: self.ingress_consumed,
            demand_commands: self.demand_commands,
            demand_requested: self.demand_requested,
            demand_fulfilled: self.demand_fulfilled,
            demand_abandoned: self.demand_abandoned,
            recovered_enqueued: self.recovered_enqueued,
            recovered_routed: self.recovered_routed,
            output_routed: self.output_routed,
            receiver_drop_recovered: self.receiver_drop_recovered,
            ingress_pending,
            demand_pending,
            recovered_pending,
            active_worker_items,
            delivered_inflight,
        }
    }

    /// Copies the counters, beside the given numbers of what is pending.
    pub fn snapshot_pending(
        &self,
        ingress_pending: usize,
        demand_pending: usize,
        recovered_pending: usize,
        active_worker_items: usize,
        delivered_inflight: usize,
    ) -> (snapshot: SchedulerStatsSnapshot)
        ensures
            snapshot == self.with_pending(
                ingress_pending,
                demand_pending,
                recovered_pending,
                active_worker_items,
                delivered_inflight,
            ),
    {
        SchedulerStatsSnapshot {
            worker_count: self.worker_count,
            ingress_accepted: self.ingress_accepted,
            ingress_consumed: self.ingress_consumed,
            demand_commands: self.demand_commands,
            demand_requested: self.demand_requested,
            demand_fulfilled: self.demand_fulfilled,
            demand_abandoned: self.demand_abandoned,
            recovered_enqueued: self.recovered_enqueued,
            recovered_routed: self.recovered_routed,
            output_routed: self.output_routed,
            receiver_drop_recovered: self.receiver_drop_recovered,
            ingress_pending,
            demand_pending,
            recovered_pending,
            active_worker_items,
            delivered_inflight,
        }
    }

    /// Sets every counter to zero, but for the number of workers.
    pub fn reset(&mut self)
        ensures
            *final(self) == old(self).cleared(),
    {
        self.ingress_accepted = 0;
        self.ingress_consumed = 0;
        self.demand_commands = 0;
        self.demand_requested = 0;
        self.demand_fulfilled = 0;
        self.demand_abandoned = 0;
        self.recovered_enqueued = 0;
        self.recovered_routed = 0;
        self.output_routed = 0;
        self.receiver_drop_recovered = 0;
    }
}

impl Default for SchedulerStats {
    fn default() -> (stats: SchedulerStats)
        ensures
            stats == SchedulerStats::zero(),
    {
        SchedulerStats {
            worker_count: 0,
            ingress_accepted: 0,
            ingress_consumed: 0,
            demand_commands: 0,
            demand_requested: 0,
            demand_fulfilled: 0,
            demand_abandoned: 0,
            recovered_enqueued: 0,
            recovered_routed: 0,
            output_routed: 0,
            receiver_drop_recovered: 0,
        }
    }
}

/// Counters on the work of one receiver.
#[derive(Debug, Clone, Copy, PartialEq, Eq, Structural)]
pub struct ConsumerStats {
    pub get_calls: u64,
    pub items_consumed: u64,
    pub refill_messages: u64,
}

/// The counters of one receiver, or of all together, at one moment.
#[derive(Debug, Clone, Copy, PartialEq, Eq, Structural)]
pub struct ConsumerStatsSnapshot {
    pub get_calls: u64,
    pub items_consumed: u64,
    pub refill_messages: u64,
}

impl ConsumerStats {
    /// All counters at zero.
    pub open spec fn zero() -> ConsumerStats {
        ConsumerStats { get_calls: 0, items_consumed: 0, refill_messages: 0 }
    }

    /// The counters as they are now.
    pub open spec fn copied(self) -> ConsumerStatsSnapshot {
        ConsumerStatsSnapshot {
            get_calls: self.get_calls,
            items_consumed: self.items_consumed,
            refill_messages: self.refill_messages,
        }
    }

    /// Copies the counters.
    pub fn snapshot(&self) -> (snapshot: ConsumerStatsSnapshot)
        ensures
            snapshot == self.copied(),
    {
        ConsumerStatsSnapshot {
            get_calls: self.get_calls,
            items_consumed: self.items_consumed,
            refill_messages: self.refill_messages,
        }
    }

    /// Sets every counter to zero.
    pub fn reset(&mut self)
        ensures
            *final(self) == ConsumerStats::zero(),
    {
        self.get_calls = 0;
        self.items_consumed = 0;
        self.refill_messages = 0;
    }
}

impl Default for ConsumerStats {
    fn default() -> (stats: ConsumerStats)
        ensures
            stats == ConsumerStats::zero(),
    {
        ConsumerStats { get_calls: 0, items_consumed: 0, refill_messages: 0 }
    }
}

impl ConsumerStatsSnapshot {
    /// The sums, counter by counter, over the receivers in `all`.
    pub open spec fn total(all: Seq<ConsumerStats>) -> ConsumerStatsSnapshot
        decreases all.len(),
    {
        if all.len() == 0 {
            ConsumerStatsSnapshot { get_calls: 0, items_consumed: 0, refill_messages: 0 }
        } else {
            let rest = ConsumerStatsSnapshot::total(all.drop_last());
            ConsumerStatsSnapshot {
                get_calls: rest.get_calls.wrapping_add(all.last().get_calls),
                items_consumed: rest.items_consumed.wrapping_add(all.last().items_consumed),
                refill_messages: rest.refill_messages.wrapping_add(all.last().refill_messages),
            }
        }
    }

    /// Adds up the counters of all receivers.
    pub fn sum(all: &Vec<ConsumerStats>) -> (sum: ConsumerStatsSnapshot)
        ensures
            sum == ConsumerStatsSnapshot::total(all@),
    {
        let mut sum = ConsumerStatsSnapshot { get_calls: 0, items_consumed: 0, refill_messages: 0 };
        let mut i: usize = 0;
        while i < all.len()
            invariant
                i <= all.len(),
                sum == ConsumerStatsSnapshot::total(all@.take(i as int)),
            decreases all.len() - i,
        {
            let one = all[i].snapshot();
            proof {
                assert(all@.take(i + 1).drop_last() =~= all@.take(i as int));
            }
            sum = ConsumerStatsSnapshot {
                get_calls: sum.get_calls.wrapping_add(one.get_calls),
                items_consumed: sum.items_consumed.wrapping_add(one.items_consumed),
                refill_messages: sum.refill_messages.wrapping_add(one.refill_messages),
            };
            i = i + 1;
        }
        proof {
            assert(all@.take(i as int) =~= all@);
        }
        sum
    }
}

impl Default for ConsumerStatsSnapshot {
    fn default() -> (stats: ConsumerStatsSnapshot)
        ensures
            stats == ConsumerStats::zero().copied(),
    {
        ConsumerStatsSnapshot { get_calls: 0, items_consumed: 0, refill_messages: 0 }
    }
}

/// All counters of a feeder at one moment.
#[derive(Debug, Clone, Copy, PartialEq, Eq, Structural)]
pub struct FeederStatsSnapshot {
    pub scheduler: SchedulerStatsSnapshot,
    pub consumers: ConsumerStatsSnapshot,
}

impl Default for FeederStatsSnapshot {
    /// All counters at zero.
    fn default() -> (snapshot: FeederStatsSnapshot)
        ensures
            snapshot.scheduler == SchedulerStats::zero().with_pending(0, 0, 0, 0, 0),
            snapshot.consumers == ConsumerStats::zero().copied(),
    {
        FeederStatsSnapshot {
            scheduler: SchedulerStatsSnapshot::default(),
            consumers: ConsumerStatsSnapshot::default(),
        }
    }
}

/// A quotient of two counters; the denominator is not zero.
#[derive(Debug, Clone, Copy, PartialEq, Eq, Structural)]
pub struct Ratio {
    pub numerator: u64,
    pub denominator: u64,
}

/// The parts of a report.
#[derive(Debug, Clone, Copy, PartialEq, Eq, Structural)]
pub enum Section {
    Scheduler,
    Consumers,
    Ratios,
}

/// The counters in a report.
#[derive(Debug, Clone, Copy, PartialEq, Eq, Structural)]
pub enum Counter {
    WorkerCount,
    IngressAccepted,
    IngressConsumed,
    DemandCommands,
    DemandRequested,
    DemandFulfilled,
    DemandAbandoned,
    RecoveredEnqueued,
    RecoveredRouted,
    OutputRouted,
    ReceiverDropRecovered,
    IngressPending,
    DemandPending,
    RecoveredPending,
    ActiveWorkerItems,
    DeliveredInflight,
    GetCalls,
    ItemsConsumed,
    RefillMessages,
}

/// The quotients in a report.
#[derive(Debug, Clone, Copy, PartialEq, Eq, Structural)]
pub enum Quotient {
    /// Refill requests per consumed item.
    RefillPerItem,
    /// Requested items per demand command.
    RequestedPerCommand,
    /// Routed items per consumed item.
    RoutedPerItem,
}

/// One line of a report.
#[derive(Debug, Clone, Copy, PartialEq, Eq, Structural)]
pub enum ReportLine {
    Heading(Section),
    Count { name: Counter, value: u64 },
    Share { name: Quotient, ratio: Ratio },
}

impl Section {
    /// The text above the part.
    pub fn heading(&self) -> (text: &'static str)
        ensures
            match self {
                Section::Scheduler => text@ == "scheduler:"@,
                Section::Consumers => text@ == "consumers (aggregated):"@,
                Section::Ratios => text@ == "ratios:"@,
            },
    {
        match self {
            Section::Scheduler => "scheduler:",
            Section::Consumers => "consumers (aggregated):",
            Section::Ratios => "ratios:",
        }
    }
}

impl Counter {
    /// The text before the number.
    pub fn label(&self) -> (text: &'static str)
        ensures
            match self {
                Counter::WorkerCount => text@ == "worker_count:           "@,
                Counter::IngressAccepted => text@ == "ingress_accepted:       "@,
                Counter::IngressConsumed => text@ == "ingress_consumed:       "@,
                Counter::DemandCommands => text@ == "demand_commands:        "@,
                Counter::DemandRequested => text@ == "demand_requested:       "@,
                Counter::DemandFulfilled => text@ == "demand_fulfilled:       "@,
                Counter::DemandAbandoned => text@ == "demand_abandoned:       "@,
                Counter::RecoveredEnqueued => text@ == "recovered_enqueued:     "@,
                Counter::RecoveredRouted => text@ == "recovered_routed:       "@,
                Counter::OutputRouted => text@ == "output_routed:          "@,
                Counter::ReceiverDropRecovered => text@ == "receiver_drop_recovered: "@,
                Counter::IngressPending => text@ == "ingress_pending:        "@,
                Counter::DemandPending => text@ == "demand_pending:         "@,
                Counter::RecoveredPending => text@ == "recovered_pending:      "@,
                Counter::ActiveWorkerItems => text@ == "active_worker_items:    "@,
                Counter::DeliveredInflight => text@ == "delivered_inflight:     "@,
                Counter::GetCalls => text@ == "get_calls:              "@,
                Counter::ItemsConsumed => text@ == "items_consumed:         "@,
                Counter::RefillMessages => text@ == "refill_messages:        "@,
            },
    {
        match self {
            Counter::WorkerCount => "worker_count:           ",
            Counter::IngressAccepted => "ingress_accepted:       ",
            Counter::IngressConsumed => "ingress_consumed:       ",
            Counter::DemandCommands => "demand_commands:        ",
            Counter::DemandRequested => "demand_requested:       ",
            Counter::DemandFulfilled => "demand_fulfilled:       ",
            Counter::DemandAbandoned => "demand_abandoned:       ",
            Counter::RecoveredEnqueued => "recovered_enqueued:     ",
            Counter::RecoveredRouted => "recovered_routed:       ",
            Counter::OutputRouted => "output_routed:          ",
            Counter::ReceiverDropRecovered => "receiver_drop_recovered: ",
            Counter::IngressPending => "ingress_pending:        ",
            Counter::DemandPending => "demand_pending:         ",
            Counter::RecoveredPending => "recovered_pending:      ",
            Counter::ActiveWorkerItems => "active_worker_items:    ",
            Counter::DeliveredInflight => "delivered_inflight:     ",
            Counter::GetCalls => "get_calls:              ",
            Counter::ItemsConsumed => "items_consumed:         ",
            Counter::RefillMessages => "refill_messages:        ",
        }
    }
}

impl Quotient {
    /// The text before the number.
    pub fn label(&self) -> (text: &'static str)
        ensures
            match self {
                Quotient::RefillPerItem => text@ == "refill_messages / items_consumed: "@,
                Quotient::RequestedPerCommand => text@ == "demand_requested / command: "@,
                Quotient::RoutedPerItem => text@ == "output_routed / items_consumed:   "@,
            },
    {
        match self {
            Quotient::RefillPerItem => "refill_messages / items_consumed: ",
            Quotient::RequestedPerCommand => "demand_requested / command: ",
            Quotient::RoutedPerItem => "output_routed / items_consumed:   ",
        }
    }
}

impl FeederStatsSnapshot {
    /// The part of a report on the counters.
    pub open spec fn counter_lines(self) -> Seq<ReportLine> {
        seq![
            ReportLine::Heading(Section::Scheduler),
            ReportLine::Count {
                name: Counter::WorkerCount,
                value: self.scheduler.worker_count as u64,
            },
            ReportLine::Count {
                name: Counter::IngressAccepted,
                value: self.scheduler.ingress_accepted,
            },
            ReportLine::Count {
                name: Counter::IngressConsumed,
                value: self.scheduler.ingress_consumed,
            },
            ReportLine::Count {
                name: Counter::DemandCommands,
                value: self.scheduler.demand_commands,
            },
            ReportLine::Count {
                name: Counter::DemandRequested,
                value: self.scheduler.demand_requested,
            },
            ReportLine::Count {
                name: Counter::DemandFulfilled,
                value: self.scheduler.demand_fulfilled,
            },
            ReportLine::Count {
                name: Counter::DemandAbandoned,
                value: self.scheduler.demand_abandoned,
            },
            ReportLine::Count {
                name: Counter::RecoveredEnqueued,
                value: self.scheduler.recovered_enqueued,
            },
            ReportLine::Count {
                name: Counter::RecoveredRouted,
                value: self.scheduler.recovered_routed,
            },
            ReportLine::Count { name: Counter::OutputRouted, value: self.scheduler.output_routed },
            ReportLine::Count {
                name: Counter::ReceiverDropRecovered,
                value: self.scheduler.receiver_drop_recovered,
            },
            ReportLine::Count {
                name: Counter::IngressPending,
                value: self.scheduler.ingress_pending as u64,
            },
            ReportLine::Count {
                name: Counter::DemandPending,
                value: self.scheduler.demand_pending as u64,
            },
            ReportLine::Count {
                name: Counter::RecoveredPending,
                value: self.scheduler.recovered_pending as u64,
            },
            ReportLine::Count {
                name: Counter::ActiveWorkerItems,
                value: self.scheduler.active_worker_items as u64,
            },
            ReportLine::Count {
                name: Counter::DeliveredInflight,
                value: self.scheduler.delivered_inflight as u64,
            },
            ReportLine::Heading(Section::Consumers),
            ReportLine::Count { name: Counter::GetCalls, value: self.consumers.get_calls },
            ReportLine::Count {
                name: Counter::ItemsConsumed,
                value: self.consumers.items_consumed,
            },
            ReportLine::Count {
                name: Counter::RefillMessages,
                value: self.consumers.refill_messages,
            },
        ]
    }

    /// The quotient of requested items and commands, where there was a command.
    pub open spec fn command_lines(self) -> Seq<ReportLine> {
        if self.scheduler.demand_commands > 0 {
            seq![
                ReportLine::Share {
                    name: Quotient::RequestedPerCommand,
                    ratio: Ratio {
                        numerator: self.scheduler.demand_requested,
                        denominator: self.scheduler.demand_commands,
                    },
                },
            ]
        } else {
            Seq::empty()
        }
    }

    /// The part of a report on quotients: there is none before the first item was consumed.
    pub open spec fn ratio_lines(self) -> Seq<ReportLine> {
        if self.consumers.items_consumed > 0 {
            seq![
                ReportLine::Heading(Section::Ratios),
                ReportLine::Share {
                    name: Quotient::RefillPerItem,
                    ratio: Ratio {
                        numerator: self.consumers.refill_messages,
                        denominator: self.consumers.items_consumed,
                    },
                },
            ] + self.command_lines() + seq![
                ReportLine::Share {
                    name: Quotient::RoutedPerItem,
                    ratio: Ratio {
                        numerator: self.scheduler.output_routed,
                        denominator: self.consumers.items_consumed,
                    },
                },
            ]
        } else {
            Seq::empty()
        }
    }

    /// All counters as a report, line by line, and the quotients that can be computed.
    pub fn report(&self) -> (lines: Vec<ReportLine>)
        ensures
            lines@ == self.counter_lines() + self.ratio_lines(),
    {
        let mut lines: Vec<ReportLine> = vec![
            ReportLine::Heading(Section::Scheduler),
            ReportLine::Count {
                name: Counter::WorkerCount,
                value: self.scheduler.worker_count as u64,
            },
            ReportLine::Count {
                name: Counter::IngressAccepted,
                value: self.scheduler.ingress_accepted,
            },
            ReportLine::Count {
                name: Counter::IngressConsumed,
                value: self.scheduler.ingress_consumed,
            },
            ReportLine::Count {
                name: Counter::DemandCommands,
                value: self.scheduler.demand_commands,
            },
            ReportLine::Count {
                name: Counter::DemandRequested,
                value: self.scheduler.demand_requested,
            },
            ReportLine::Count {
                name: Counter::DemandFulfilled,
                value: self.scheduler.demand_fulfilled,
            },
            ReportLine::Count {
                name: Counter::DemandAbandoned,
                value: self.scheduler.demand_abandoned,
            },
            ReportLine::Count {
                name: Counter::RecoveredEnqueued,
                value: self.scheduler.recovered_enqueued,
            },
            ReportLine::Count {
                name: Counter::RecoveredRouted,
                value: self.scheduler.recovered_routed,
            },
            ReportLine::Count { name: Counter::OutputRouted, value: self.scheduler.output_routed },
            ReportLine::Count {
                name: Counter::ReceiverDropRecovered,
                value: self.scheduler.receiver_drop_recovered,
            },
            ReportLine::Count {
                name: Counter::IngressPending,
                value: self.scheduler.ingress_pending as u64,
            },
            ReportLine::Count {
                name: Counter::DemandPending,
                value: self.scheduler.demand_pending as u64,
            },
            ReportLine::Count {
                name: Counter::RecoveredPending,
                value: self.scheduler.recovered_pending as u64,
            },
            ReportLine::Count {
                name: Counter::ActiveWorkerItems,
                value: self.scheduler.active_worker_items as u64,
            },
            ReportLine::Count {
                name: Counter::DeliveredInflight,
                value: self.scheduler.delivered_inflight as u64,
            },
            ReportLine::Heading(Section::Consumers),
            ReportLine::Count { name: Counter::GetCalls, value: self.consumers.get_calls },
            ReportLine::Count {
                name: Counter::ItemsConsumed,
                value: self.consumers.items_consumed,
            },
            ReportLine::Count {
                name: Counter::RefillMessages,
                value: self.consumers.refill_messages,
            },
        ];
        if self.consumers.items_consumed > 0 {
            lines.push(ReportLine::Heading(Section::Ratios));
            lines.push(
                ReportLine::Share {
                    name: Quotient::RefillPerItem,
                    ratio: Ratio {
                        numerator: self.consumers.refill_messages,
                        denominator: self.consumers.items_consumed,
                    },
                },
            );
            if self.scheduler.demand_commands > 0 {
                lines.push(
                    ReportLine::Share {
                        name: Quotient::RequestedPerCommand,
                        ratio: Ratio {
                            numerator: self.scheduler.demand_requested,
                            denominator: self.scheduler.demand_commands,
                        },
                    },
                );
            }
            lines.push(
                ReportLine::Share {
                    name: Quotient::RoutedPerItem,
                    ratio: Ratio {
                        numerator: self.scheduler.output_routed,
                        denominator: self.consumers.items_consumed,
                    },
                },
            );
        }
        proof {
            assert(lines@ =~= self.counter_lines() + self.ratio_lines());
        }
        lines
    }
}

/// A report shows each counter once, with its value, and in the order of the counters. It shows the
/// quotients where an item was consumed, that of requests and commands where there was a command,
/// each with the counters that it is the quotient of and a denominator that is not zero.
pub proof fn law_report_is_faithful(snapshot: FeederStatsSnapshot)
    ensures
        ({
            let lines = snapshot.counter_lines() + snapshot.ratio_lines();
            let consumed = snapshot.consumers.items_consumed > 0;
            let commands = snapshot.scheduler.demand_commands > 0;
            &&& lines.len() == if !consumed {
                21int
            } else if commands {
                25
            } else {
                24
            }
            &&& lines.no_duplicates()
            &&& lines[0] == ReportLine::Heading(Section::Scheduler)
            &&& lines[17] == ReportLine::Heading(Section::Consumers)
            &&& consumed ==> lines[21] == ReportLine::Heading(Section::Ratios)
            &&& forall|i: int|
                0 <= i < lines.len() ==> match #[trigger] lines[i] {
                    ReportLine::Heading(_) => true,
                    ReportLine::Count { name, value } => value == match name {
                        Counter::WorkerCount => snapshot.scheduler.worker_count as u64,
                        Counter::IngressAccepted => snapshot.scheduler.ingress_accepted,
                        Counter::IngressConsumed => snapshot.scheduler.ingress_consumed,
                        Counter::DemandCommands => snapshot.scheduler.demand_commands,
                        Counter::DemandRequested => snapshot.scheduler.demand_requested,
                        Counter::DemandFulfilled => snapshot.scheduler.demand_fulfilled,
                        Counter::DemandAbandoned => snapshot.scheduler.demand_abandoned,
                        Counter::RecoveredEnqueued => snapshot.scheduler.recovered_enqueued,
                        Counter::RecoveredRouted => snapshot.scheduler.recovered_routed,
                        Counter::OutputRouted => snapshot.scheduler.output_routed,
                        Counter::ReceiverDropRecovered =>
                            snapshot.scheduler.receiver_drop_recovered,
                        Counter::IngressPending => snapshot.scheduler.ingress_pending as u64,
                        Counter::DemandPending => snapshot.scheduler.demand_pending as u64,
                        Counter::RecoveredPending => snapshot.scheduler.recovered_pending as u64,
                        Counter::ActiveWorkerItems =>
                            snapshot.scheduler.active_worker_items as u64,
                        Counter::DeliveredInflight => snapshot.scheduler.delivered_inflight as u64,
                        Counter::GetCalls => snapshot.consumers.get_calls,
                        Counter::ItemsConsumed => snapshot.consumers.items_consumed,
                        Counter::RefillMessages => snapshot.consumers.refill_messages,
                    },
                    ReportLine::Share { name, ratio } => ratio.denominator > 0 && ratio
                        == match name {
                        Quotient::RefillPerItem => Ratio {
                            numerator: snapshot.consumers.refill_messages,
                            denominator: snapshot.consumers.items_consumed,
                        },
                        Quotient::RequestedPerCommand => Ratio {
                            numerator: snapshot.scheduler.demand_requested,
                            denominator: snapshot.scheduler.demand_commands,
                        },
                        Quotient::RoutedPerItem => Ratio {
                            numerator: snapshot.scheduler.output_routed,
                            denominator: snapshot.consumers.items_consumed,
                        },
                    },
                }
            &&& forall|i: int|
                0 < i < 17 || 17 < i < 21 ==> (#[trigger] lines[i]) is Count
            &&& lines[1]->Count_name == Counter::WorkerCount
            &&& lines[2]->Count_name == Counter::IngressAccepted
            &&& lines[3]->Count_name == Counter::IngressConsumed
            &&& lines[4]->Count_name == Counter::DemandCommands
            &&& lines[5]->Count_name == Counter::DemandRequested
            &&& lines[6]->Count_name == Counter::DemandFulfilled
            &&& lines[7]->Count_name == Counter::DemandAbandoned
            &&& lines[8]->Count_name == Counter::RecoveredEnqueued
            &&& lines[9]->Count_name == Counter::RecoveredRouted
            &&& lines[10]->Count_name == Counter::OutputRouted
            &&& lines[11]->Count_name == Counter::ReceiverDropRecovered
            &&& lines[12]->Count_name == Counter::IngressPending
            &&& lines[13]->Count_name == Counter::DemandPending
            &&& lines[14]->Count_name == Counter::RecoveredPending
            &&& lines[15]->Count_name == Counter::ActiveWorkerItems
            &&& lines[16]->Count_name == Counter::DeliveredInflight
            &&& lines[18]->Count_name == Counter::GetCalls
            &&& lines[19]->Count_name == Counter::ItemsConsumed
            &&& lines[20]->Count_name == Counter::RefillMessages
            &&& forall|i: int| 21 < i < lines.len() ==> (#[trigger] lines[i]) is Share
            &&& consumed ==> lines[22]->Share_name == Quotient::RefillPerItem
            &&& consumed && commands ==> lines[23]->Share_name == Quotient::RequestedPerCommand
            &&& consumed ==> lines.last()->Share_name == Quotient::RoutedPerItem
        }),
{
}

/// Counters at zero show nothing but zeros, and a copy shows each counter where it belongs.
pub proof fn law_copies_are_faithful(
    stats: SchedulerStats,
    one: ConsumerStats,
    ingress: usize,
    demand: usize,
    recovered: usize,
    in_hand: usize,
    inflight: usize,
)
    ensures
        SchedulerStats::zero().with_pending(0, 0, 0, 0, 0) == (SchedulerStatsSnapshot {
            worker_count: 0,
            ingress_accepted: 0,
            ingress_consumed: 0,
            demand_commands: 0,
            demand_requested: 0,
            demand_fulfilled: 0,
            demand_abandoned: 0,
            recovered_enqueued: 0,
            recovered_routed: 0,
            output_routed: 0,
            receiver_drop_recovered: 0,
            ingress_pending: 0,
            demand_pending: 0,
            recovered_pending: 0,
            active_worker_items: 0,
            delivered_inflight: 0,
        }),
        stats.cleared() == (SchedulerStats {
            worker_count: stats.worker_count,
            ..SchedulerStats::zero()
        }),
        ({
            let shown = stats.with_pending(ingress, demand, recovered, in_hand, inflight);
            &&& shown.worker_count == stats.worker_count
            &&& shown.ingress_accepted == stats.ingress_accepted
            &&& shown.ingress_consumed == stats.ingress_consumed
            &&& shown.demand_commands == stats.demand_commands
            &&& shown.demand_requested == stats.demand_requested
            &&& shown.demand_fulfilled == stats.demand_fulfilled
            &&& shown.demand_abandoned == stats.demand_abandoned
            &&& shown.recovered_enqueued == stats.recovered_enqueued
            &&& shown.recovered_routed == stats.recovered_routed
            &&& shown.output_routed == stats.output_routed
            &&& shown.receiver_drop_recovered == stats.receiver_drop_recovered
            &&& shown.ingress_pending == ingress
            &&& shown.demand_pending == demand
            &&& shown.recovered_pending == recovered
            &&& shown.active_worker_items == in_hand
            &&& shown.delivered_inflight == inflight
        }),
        ConsumerStats::zero().get_calls == 0 && ConsumerStats::zero().items_consumed == 0
            && ConsumerStats::zero().refill_messages == 0,
        one.copied().get_calls == one.get_calls && one.copied().items_consumed
            == one.items_consumed && one.copied().refill_messages == one.refill_messages,
{
}

} // verus!
