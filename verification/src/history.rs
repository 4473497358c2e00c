//! Sequences of operations on a feeder, by any number of threads.

use vstd::prelude::*;
use crate::model::State;

verus! {

/// One operation on the shared state of a feeder.
pub enum Action<T> {
    /// An identifier is given out.
    AllocateId,
    /// A producer starts to send.
    BeginSend,
    /// A producer finishes sending `items`.
    FinishSend { items: Seq<T> },
    /// A receiver is asked for.
    Register { low: usize, high: usize },
    /// A graceful shutdown is asked for.
    ShutDown,
    /// Everything is stopped.
    Cancel,
    /// The receiver `id` asks for at most `max` items.
    Consume { id: usize, max: usize },
    /// The receiver `id` is given up.
    BeginDrop { id: usize },
    /// What the receiver `id` buffered is taken back.
    FinishDrop { id: usize },
    /// The last end of the receiver `id` goes.
    Release { id: usize },
    /// The worker `worker` runs one step.
    Work { worker: int },
    /// The counters are set to zero.
    ResetStats,
}

impl<T> State<T> {
    /// The operation can be asked for.
    pub open spec fn allows(self, action: Action<T>) -> bool {
        match action {
            Action::FinishSend { items } => items.len() <= usize::MAX,
            Action::Register { low, high } => low > 0 && self.consumer_stats.len() < usize::MAX,
            Action::Work { worker } => 0 <= worker < self.workers.len(),
            _ => true,
        }
    }

    /// The state after the operation.
    pub open spec fn after(self, action: Action<T>) -> State<T> {
        match action {
            Action::AllocateId => self.id_taken(),
            Action::BeginSend => self.send_begun(),
            Action::FinishSend { items } => self.send_finished(items),
            Action::Register { low, high } => self.receiver_requested(low, high),
            Action::ShutDown => self.shut_down(),
            Action::Cancel => self.cancel(),
            Action::Consume { id, max } => self.consumed(id, max),
            Action::BeginDrop { id } => self.drop_begun(id),
            Action::FinishDrop { id } => if self.drop_can_finish(id) {
                self.drop_finished(id)
            } else {
                self
            },
            Action::Release { id } => self.released(id),
            Action::Work { worker } => self.worker_step(worker).0,
            Action::ResetStats => self.stats_cleared(),
        }
    }

    /// The items that the operation brings in.
    pub open spec fn accepted_by(self, action: Action<T>) -> Seq<T> {
        match action {
            Action::FinishSend { items } => if self.send_can_finish() {
                items
            } else {
                Seq::empty()
            },
            _ => Seq::empty(),
        }
    }

    /// The items that the operation hands out.
    pub open spec fn consumed_by(self, action: Action<T>) -> Seq<T> {
        match action {
            Action::Consume { id, max } => self.taken(id, max),
            _ => Seq::empty(),
        }
    }

    /// The state after all operations, in order.
    pub open spec fn after_all(self, actions: Seq<Action<T>>) -> State<T>
        decreases actions.len(),
    {
        if actions.len() == 0 {
            self
        } else {
            self.after_all(actions.drop_last()).after(actions.last())
        }
    }

    /// Each operation can be asked for when its turn comes.
    pub open spec fn allows_all(self, actions: Seq<Action<T>>) -> bool
        decreases actions.len(),
    {
        actions.len() == 0 || (self.allows_all(actions.drop_last()) && self.after_all(
            actions.drop_last(),
        ).allows(actions.last()))
    }

    /// All items that the operations bring in, in order.
    pub open spec fn accepted_by_all(self, actions: Seq<Action<T>>) -> Seq<T>
        decreases actions.len(),
    {
        if actions.len() == 0 {
            Seq::empty()
        } else {
            self.accepted_by_all(actions.drop_last()) + self.after_all(
                actions.drop_last(),
            ).accepted_by(actions.last())
        }
    }

    /// All items that the operations hand out, in order.
    pub open spec fn consumed_by_all(self, actions: Seq<Action<T>>) -> Seq<T>
        decreases actions.len(),
    {
        if actions.len() == 0 {
            Seq::empty()
        } else {
            self.consumed_by_all(actions.drop_last()) + self.after_all(
                actions.drop_last(),
            ).consumed_by(actions.last())
        }
    }

    /// Every counter can hold what it counts, at every moment.
    pub open spec fn fits_throughout(self, actions: Seq<Action<T>>) -> bool
        decreases actions.len(),
    {
        self.after_all(actions).fits() && (actions.len() == 0 || self.fits_throughout(
            actions.drop_last(),
        ))
    }

    /// Every counter of items can hold what it counts, at every moment.
    pub open spec fn items_fit_throughout(self, actions: Seq<Action<T>>) -> bool
        decreases actions.len(),
    {
        self.after_all(actions).items_fit() && (actions.len() == 0 || self.items_fit_throughout(
            actions.drop_last(),
        ))
    }
}

/// A feeder with `worker_count` workers can come into this state: some sequence of operations leads
/// to it.
pub open spec fn reachable<T>(worker_count: usize, s: State<T>) -> bool {
    exists|actions: Seq<Action<T>>|
        {
            &&& #[trigger] State::<T>::initial(worker_count).allows_all(actions)
            &&& s == State::<T>::initial(worker_count).after_all(actions)
        }
}

/// A sequence of operations does what its operations do, one after the other, and can be asked for
/// where each can be when its turn comes. What it brings in and hands out adds up in that order.
pub proof fn law_one_after_the_other<T>(s: State<T>, actions: Seq<Action<T>>, action: Action<T>)
    ensures
        s.after_all(Seq::<Action<T>>::empty()) == s,
        s.allows_all(Seq::<Action<T>>::empty()),
        s.after_all(actions.push(action)) == s.after_all(actions).after(action),
        s.allows_all(actions.push(action)) <==> s.allows_all(actions) && s.after_all(
            actions,
        ).allows(action),
        s.accepted_by_all(actions.push(action)) == s.accepted_by_all(actions) + s.after_all(
            actions,
        ).accepted_by(action),
        s.consumed_by_all(actions.push(action)) == s.consumed_by_all(actions) + s.after_all(
            actions,
        ).consumed_by(action),
{
    assert(actions.push(action).drop_last() =~= actions);
}

/// Every operation can be asked for, whenever a receiver has a positive low mark, a worker is one
/// of those that are there, and the machine can count what is sent and who receives. Items come in
/// only by sending, and go out only by reading.
pub proof fn law_what_can_be_asked_for<T>(s: State<T>, action: Action<T>)
    ensures
        s.allows(action) <==> match action {
            Action::FinishSend { items } => items.len() <= usize::MAX,
            Action::Register { low, high } => low > 0 && s.consumer_stats.len() < usize::MAX,
            Action::Work { worker } => 0 <= worker < s.workers.len(),
            _ => true,
        },
        s.accepted_by(action) == match action {
            Action::FinishSend { items } => if s.active_producer_sends > 0 && s.active_workers
                > 0 {
                items
            } else {
                Seq::empty()
            },
            _ => Seq::empty(),
        },
        action !is Consume ==> s.consumed_by(action).len() == 0,
{
}

} // verus!
