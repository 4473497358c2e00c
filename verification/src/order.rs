//! The order in which items are delivered, and that they are delivered at all.

use vstd::prelude::*;
use crate::history::Action;
use crate::history_laws::law_always_in_order;
use crate::laws::{law_lifecycle_goes_forward, law_workers_stay};
use crate::model::{State, WorkerState};
use crate::preserve::{lemma_command_known, lemma_served_known};
use crate::preserve_worker::lemma_worker_step;
use crate::tally::lemma_counts_exact;

verus! {

/// The item in the hands of a worker.
pub open spec fn in_hands<T>(worker: WorkerState<T>) -> Seq<T> {
    match worker {
        WorkerState::Holding { receiver, count, item } => seq![item],
        WorkerState::Sending { receiver, count, item, fulfilled } => seq![item],
        _ => Seq::empty(),
    }
}

impl<T> State<T> {
    /// No receiver but `id` is there, it was not given up, and nothing was taken back.
    pub open spec fn undisturbed(self, id: usize) -> bool {
        &&& self.recovered.len() == 0
        &&& forall|other: usize| #[trigger] self.receivers.contains_key(other) ==> other == id
        &&& self.receivers.contains_key(id) ==> !self.receivers[id].closing
    }

    /// The items on their way to the receiver `id`, the one that arrives first at the head.
    pub open spec fn line(self, id: usize) -> Seq<T> {
        (if self.receivers.contains_key(id) {
            self.receivers[id].data
        } else {
            Seq::empty()
        }) + in_hands(self.workers[0]) + self.ingress
    }

    /// No receiver but `id` was ever there.
    pub open spec fn alone_throughout(self, id: usize, actions: Seq<Action<T>>) -> bool
        decreases actions.len(),
    {
        &&& forall|other: usize| #[trigger]
            self.after_all(actions).receivers.contains_key(other) ==> other == id
        &&& actions.len() == 0 || self.alone_throughout(id, actions.drop_last())
    }
}

proof fn lemma_consumed_in_order<T>(s: State<T>, id: usize, max: usize)
    requires
        s.inv(),
        s.undisturbed(id),
        s.consumed(id, max).terminal_open,
    ensures
        s.consumed(id, max).undisturbed(id),
        s.consumed(id, max).workers == s.workers,
        s.taken(id, max) + s.consumed(id, max).line(id) == s.line(id),
{
    let t = s.consumed(id, max);
    let got = s.available(id, max);
    if got == 0 {
        assert(s.taken(id, max) + t.line(id) =~= s.line(id));
    } else {
        let data = s.receivers[id].data;
        assert(t.receivers[id].data == data.skip(got));
        assert(data.take(got) + data.skip(got) =~= data);
        assert(s.taken(id, max) + t.line(id) =~= s.line(id));
    }
}

#[verifier::rlimit(40)]
proof fn lemma_step_in_order<T>(s: State<T>, id: usize)
    requires
        s.inv(),
        s.workers.len() == 1,
        s.undisturbed(id),
        s.worker_step(0).0.terminal_open,
        s.terminal_open,
    ensures
        s.worker_step(0).0.undisturbed(id),
        s.worker_step(0).0.line(id) == s.line(id),
{
    let t = s.worker_step(0).0;
    match s.workers[0] {
        WorkerState::Idle => {
            if s.demand.len() > 0 {
                lemma_command_known(s, 0);
            }
        },
        WorkerState::Serving { receiver, count } => {
            assert(State::worker_ok(s.workers[0]));
            lemma_served_known(s, 0, receiver);
            assert(s.receiver_ok(s.receivers[receiver]));
            if !s.demand_is_void(id) && s.next_item() is Some {
                assert(seq![s.ingress[0]] + s.ingress.drop_first() =~= s.ingress);
            }
            assert(t.line(id) =~= s.line(id));
        },
        WorkerState::Holding { receiver, count, item } => {
            assert(State::worker_ok(s.workers[0]));
            lemma_served_known(s, 0, receiver);
            assert(t.line(id) =~= s.line(id));
        },
        WorkerState::Sending { receiver, count, item, fulfilled } => {
            assert(State::worker_ok(s.workers[0]));
            lemma_served_known(s, 0, receiver);
            assert(s.receiver_ok(s.receivers[receiver]));
            let after = s.delivered(id, item);
            if after.next_item() is Some {
                assert(seq![s.ingress[0]] + s.ingress.drop_first() =~= s.ingress);
            }
            assert(t.receivers[id].data == s.receivers[id].data.push(item));
            assert(t.line(id) =~= s.line(id));
        },
        WorkerState::Exited => {},
    }
}

/// With one worker and one receiver, which is not given up, items come out in the order in which
/// they went in: what was consumed, followed by what is on its way, is what was accepted.
pub proof fn law_first_in_first_out<T>(actions: Seq<Action<T>>, id: usize)
    requires
        State::<T>::initial(1).allows_all(actions),
        State::<T>::initial(1).after_all(actions).terminal_open,
        State::<T>::initial(1).alone_throughout(id, actions),
        forall|i: int| 0 <= i < actions.len() ==> (#[trigger] actions[i]) !is BeginDrop,
    ensures
        ({
            let start = State::<T>::initial(1);
            start.consumed_by_all(actions) + start.after_all(actions).line(id)
                == start.accepted_by_all(actions)
        }),
{
    lemma_in_line(actions, id);
}

proof fn lemma_rejoined<T>(out: Seq<T>, line: Seq<T>, taken: Seq<T>, rest: Seq<T>, new: Seq<T>)
    requires
        taken + rest == line + new,
    ensures
        (out + taken) + rest == (out + line) + new,
{
    assert((out + taken) + rest =~= out + (taken + rest));
    assert((out + line) + new =~= out + (line + new));
}

proof fn lemma_in_line<T>(actions: Seq<Action<T>>, id: usize)
    requires
        State::<T>::initial(1).allows_all(actions),
        State::<T>::initial(1).after_all(actions).terminal_open,
        State::<T>::initial(1).alone_throughout(id, actions),
        forall|i: int| 0 <= i < actions.len() ==> (#[trigger] actions[i]) !is BeginDrop,
    ensures
        ({
            let start = State::<T>::initial(1);
            let s = start.after_all(actions);
            &&& s.undisturbed(id)
            &&& s.workers.len() == 1
            &&& start.consumed_by_all(actions) + s.line(id) == start.accepted_by_all(actions)
        }),
    decreases actions.len(),
{
    let start = State::<T>::initial(1);
    if actions.len() == 0 {
        assert(start.consumed_by_all(actions) + start.line(id) =~= start.accepted_by_all(actions));
    } else {
        let sofar = actions.drop_last();
        let s = start.after_all(sofar);
        let action = actions.last();
        let t = s.after(action);
        assert forall|i: int| 0 <= i < sofar.len() implies (#[trigger] sofar[i]) !is BeginDrop by {
            assert(sofar[i] == actions[i]);
        }
        assert(actions[actions.len() - 1] !is BeginDrop);
        law_always_in_order(1, sofar);
        law_lifecycle_goes_forward(s, action);
        lemma_in_line(sofar, id);
        lemma_action_in_line(s, action, id);
        lemma_rejoined(
            start.consumed_by_all(sofar),
            s.line(id),
            s.consumed_by(action),
            t.line(id),
            s.accepted_by(action),
        );
    }
}

proof fn lemma_register_in_line<T>(s: State<T>, low: usize, high: usize, id: usize)
    requires
        s.inv(),
        s.undisturbed(id),
        forall|other: usize| #[trigger]
            s.receiver_requested(low, high).receivers.contains_key(other) ==> other == id,
    ensures
        s.receiver_requested(low, high).undisturbed(id),
        s.receiver_requested(low, high).workers == s.workers,
        s.receiver_requested(low, high).line(id) == s.line(id),
{
    let t = s.receiver_requested(low, high);
    if s.receiver_refusal(low, high) is None {
        assert(t.receivers.contains_key(s.next_id));
        assert(t.line(id) =~= s.line(id));
    }
}

proof fn lemma_shut_down_in_line<T>(s: State<T>, id: usize)
    requires
        s.inv(),
        s.undisturbed(id),
        s.shut_down().terminal_open,
    ensures
        s.shut_down().undisturbed(id),
        s.shut_down().workers == s.workers,
        s.shut_down().line(id) == s.line(id),
{
}

proof fn lemma_send_in_line<T>(s: State<T>, items: Seq<T>, id: usize)
    requires
        s.undisturbed(id),
    ensures
        s.send_finished(items).undisturbed(id),
        s.send_finished(items).workers == s.workers,
        s.send_finished(items).line(id) == s.line(id) + s.accepted_by(Action::FinishSend { items }),
{
    assert(s.send_finished(items).line(id) =~= s.line(id) + s.accepted_by(
        Action::FinishSend { items },
    ));
}

proof fn lemma_no_drop_pending<T>(s: State<T>, id: usize, other: usize)
    requires
        s.inv(),
        s.undisturbed(id),
    ensures
        !s.drop_can_finish(other),
{
    if s.receivers.contains_key(other) {
        assert(s.receiver_ok(s.receivers[other]));
    }
}

proof fn lemma_action_in_line<T>(s: State<T>, action: Action<T>, id: usize)
    requires
        s.inv(),
        s.allows(action),
        s.workers.len() == 1,
        s.undisturbed(id),
        s.terminal_open,
        s.after(action).terminal_open,
        forall|other: usize| #[trigger]
            s.after(action).receivers.contains_key(other) ==> other == id,
        action !is BeginDrop,
    ensures
        s.after(action).undisturbed(id),
        s.after(action).workers.len() == 1,
        s.consumed_by(action) + s.after(action).line(id) == s.line(id) + s.accepted_by(action),
{
    let t = s.after(action);
    law_workers_stay(s, action);
    assert(Seq::<T>::empty() + t.line(id) =~= t.line(id));
    assert(s.line(id) + Seq::<T>::empty() =~= s.line(id));
    match action {
        Action::FinishSend { items } => lemma_send_in_line(s, items, id),
        Action::Register { low, high } => lemma_register_in_line(s, low, high, id),
        Action::ShutDown => lemma_shut_down_in_line(s, id),
        Action::Consume { id: reader, max } => {
            if reader == id {
                lemma_consumed_in_order(s, id, max);
            } else {
                assert(s.available(reader, max) == 0);
                assert(s.consumed_by(action) =~= Seq::<T>::empty());
            }
        },
        Action::FinishDrop { id: other } => lemma_no_drop_pending(s, id, other),
        Action::Work { worker } => lemma_step_in_order(s, id),
        _ => {},
    }
}

/// The state after `steps` steps of one worker.
pub open spec fn worked<T>(s: State<T>, worker: int, steps: nat) -> State<T>
    decreases steps,
{
    if steps == 0 {
        s
    } else {
        worked(s, worker, (steps - 1) as nat).worker_step(worker).0
    }
}

/// What is requested is delivered: where an item and a request of a registered receiver are
/// queued, a worker without demand delivers the item to that receiver in four steps, unless others
/// act in between.
pub proof fn law_requests_are_met<T>(s: State<T>, worker: int)
    requires
        s.inv(),
        s.items_fit(),
        s.terminal_open,
        0 <= worker < s.workers.len(),
        s.workers[worker] is Idle,
        s.demand.len() > 0,
        !s.receivers[s.demand[0].receiver].closing,
        s.next_item() is Some,
    ensures
        ({
            let id = s.demand[0].receiver;
            worked(s, worker, 4).receivers[id].data == s.receivers[id].data.push(
                s.next_item()->Some_0,
            )
        }),
{
    reveal_with_fuel(worked, 5);
    let id = s.demand[0].receiver;
    let count = s.demand[0].count;
    let item = s.next_item()->Some_0;
    lemma_command_known(s, 0);
    let serving = worked(s, worker, 1);
    lemma_worker_step(s, worker);
    assert(serving.workers[worker] == (WorkerState::<T>::Serving { receiver: id, count }));
    lemma_counts_exact(s.ingress_pending, s.ingress.len() as int);
    lemma_counts_exact(s.recovered_pending, s.recovered.len() as int);
    assert(!serving.demand_is_void(id));
    let holding = worked(s, worker, 2);
    lemma_worker_step(serving, worker);
    assert(holding.workers[worker] == (WorkerState::<T>::Holding { receiver: id, count, item }));
    let sending = worked(s, worker, 3);
    lemma_worker_step(holding, worker);
    assert(sending.workers[worker] == (WorkerState::<T>::Sending {
        receiver: id,
        count,
        item,
        fulfilled: 0,
    }));
    assert(State::worker_ok(sending.workers[worker]));
    lemma_served_known(sending, worker, id);
}

} // verus!
