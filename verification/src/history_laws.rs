//! What holds of every feeder, whatever was done with it since it was built.

use vstd::prelude::*;
use crate::conserve::{buffers, holds, law_items_conserved};
use crate::history::{reachable, Action};
use crate::laws::{
    law_completed_stays_empty, law_completes_only_when_drained, law_kept_in_order,
    law_lifecycle_goes_forward, law_workers_stay,
};
use crate::model::{ReceiverState, State};
use crate::preserve::lemma_initial;
use crate::tally::{
    lemma_map_sum_bounds, lemma_seq_sum_bounds, lemma_seq_sum_concat, lemma_seq_sum_zero, map_sum,
    occurrences, one_for,
};
use crate::types::NO_MORE_WORK;

verus! {

/// A feeder is in order at every moment, whatever operations came before, in whatever order.
pub proof fn law_always_in_order<T>(worker_count: usize, actions: Seq<Action<T>>)
    requires
        worker_count > 0,
        State::<T>::initial(worker_count).allows_all(actions),
    ensures
        State::<T>::initial(worker_count).after_all(actions).inv(),
    decreases actions.len(),
{
    lemma_initial::<T>(worker_count);
    if actions.len() > 0 {
        law_always_in_order(worker_count, actions.drop_last());
        law_kept_in_order(
            State::<T>::initial(worker_count).after_all(actions.drop_last()),
            actions.last(),
        );
    }
}

/// Every state that a feeder can come into is in order, and has all its workers.
pub proof fn law_reachable_in_order<T>(worker_count: usize, s: State<T>)
    requires
        worker_count > 0,
        reachable(worker_count, s),
    ensures
        s.inv(),
        s.workers.len() == worker_count,
{
    let start = State::<T>::initial(worker_count);
    let actions = choose|actions: Seq<Action<T>>|
        #[trigger] start.allows_all(actions) && s == start.after_all(actions);
    law_always_in_order(worker_count, actions);
    lemma_workers_stay(worker_count, actions);
}

proof fn lemma_workers_stay<T>(worker_count: usize, actions: Seq<Action<T>>)
    requires
        worker_count > 0,
        State::<T>::initial(worker_count).allows_all(actions),
    ensures
        State::<T>::initial(worker_count).after_all(actions).workers.len() == worker_count,
    decreases actions.len(),
{
    if actions.len() > 0 {
        let sofar = actions.drop_last();
        law_always_in_order(worker_count, sofar);
        lemma_workers_stay(worker_count, sofar);
        law_workers_stay(State::<T>::initial(worker_count).after_all(sofar), actions.last());
    }
}

/// A new feeder is where every sequence of operations starts.
pub proof fn lemma_initial_reachable<T>(worker_count: usize)
    ensures
        reachable(worker_count, State::<T>::initial(worker_count)),
{
    let start = State::<T>::initial(worker_count);
    assert(start.allows_all(Seq::empty()) && start == start.after_all(Seq::empty()));
}

/// One more operation leads to a state that a feeder can come into.
pub proof fn lemma_reachable_after<T>(worker_count: usize, s: State<T>, action: Action<T>)
    requires
        reachable(worker_count, s),
        s.allows(action),
    ensures
        reachable(worker_count, s.after(action)),
{
    let start = State::<T>::initial(worker_count);
    let actions = choose|actions: Seq<Action<T>>|
        #[trigger] start.allows_all(actions) && s == start.after_all(actions);
    let more = actions.push(action);
    assert(more.drop_last() =~= actions);
    assert(start.allows_all(more) && s.after(action) == start.after_all(more));
}

proof fn lemma_copies_not_negative<T>(s: State<T>, x: T)
    requires
        s.inv(),
    ensures
        s.copies(x) >= 0,
{
    lemma_seq_sum_bounds(s.ingress, one_for(x));
    lemma_seq_sum_bounds(s.recovered, one_for(x));
    lemma_seq_sum_bounds(s.workers, holds(x));
    assert forall|id: usize| s.receivers.contains_key(id) implies buffers(x)(
        #[trigger] s.receivers[id],
    ) >= 0 by {
        lemma_seq_sum_bounds(s.receivers[id].data, one_for(x));
    }
    lemma_map_sum_bounds(s.receivers, buffers(x));
}

proof fn lemma_initial_copies<T>(worker_count: usize, x: T)
    ensures
        State::<T>::initial(worker_count).copies(x) == 0,
{
    lemma_seq_sum_zero(State::<T>::initial(worker_count).workers, holds(x));
}

/// Nothing is invented and nothing is delivered twice: whatever happens, the receivers together
/// get no item more often than it was accepted, counting what the feeder still holds.
pub proof fn law_nothing_invented<T>(worker_count: usize, actions: Seq<Action<T>>, x: T)
    requires
        worker_count > 0,
        State::<T>::initial(worker_count).allows_all(actions),
    ensures
        ({
            let start = State::<T>::initial(worker_count);
            &&& occurrences(start.consumed_by_all(actions), x) + start.after_all(actions).copies(x)
                <= occurrences(start.accepted_by_all(actions), x)
            &&& occurrences(start.consumed_by_all(actions), x) <= occurrences(
                start.accepted_by_all(actions),
                x,
            )
        }),
    decreases actions.len(),
{
    let start = State::<T>::initial(worker_count);
    law_always_in_order(worker_count, actions);
    lemma_copies_not_negative(start.after_all(actions), x);
    lemma_initial_copies::<T>(worker_count, x);
    if actions.len() > 0 {
        let sofar = actions.drop_last();
        let s = start.after_all(sofar);
        law_nothing_invented(worker_count, sofar, x);
        law_always_in_order(worker_count, sofar);
        law_items_conserved(s, actions.last(), x);
        lemma_seq_sum_concat(
            start.accepted_by_all(sofar),
            s.accepted_by(actions.last()),
            one_for(x),
        );
        lemma_seq_sum_concat(
            start.consumed_by_all(sofar),
            s.consumed_by(actions.last()),
            one_for(x),
        );
    }
}

/// Nothing is lost while a feeder is in service: every item that was accepted was delivered, or
/// the feeder still holds it. This is so with any number of workers and across dropped receivers.
pub proof fn law_nothing_lost<T>(worker_count: usize, actions: Seq<Action<T>>, x: T)
    requires
        worker_count > 0,
        State::<T>::initial(worker_count).allows_all(actions),
        State::<T>::initial(worker_count).after_all(actions).terminal_open,
    ensures
        ({
            let start = State::<T>::initial(worker_count);
            occurrences(start.accepted_by_all(actions), x) == occurrences(
                start.consumed_by_all(actions),
                x,
            ) + start.after_all(actions).copies(x)
        }),
    decreases actions.len(),
{
    let start = State::<T>::initial(worker_count);
    lemma_initial_copies::<T>(worker_count, x);
    if actions.len() > 0 {
        let sofar = actions.drop_last();
        let s = start.after_all(sofar);
        law_always_in_order(worker_count, sofar);
        law_lifecycle_goes_forward(s, actions.last());
        law_nothing_lost(worker_count, sofar, x);
        law_items_conserved(s, actions.last(), x);
        lemma_seq_sum_concat(
            start.accepted_by_all(sofar),
            s.accepted_by(actions.last()),
            one_for(x),
        );
        lemma_seq_sum_concat(
            start.consumed_by_all(sofar),
            s.consumed_by(actions.last()),
            one_for(x),
        );
    }
}

proof fn lemma_empty_copies<T>(s: State<T>, x: T)
    requires
        s.inv(),
        s.empty(),
    ensures
        s.copies(x) == 0,
{
    assert forall|i: int| 0 <= i < s.workers.len() implies holds(x)(#[trigger] s.workers[i])
        == 0 by {
        assert(State::empty_handed(s.workers[i]));
    }
    lemma_seq_sum_zero(s.workers, holds(x));
    lemma_buffers_zero(s.receivers, x);
}

proof fn lemma_buffers_zero<T>(receivers: Map<usize, ReceiverState<T>>, x: T)
    requires
        receivers.dom().finite(),
        forall|id: usize| #[trigger]
            receivers.contains_key(id) ==> receivers[id].data.len() == 0,
    ensures
        map_sum(receivers, buffers(x)) == 0,
    decreases receivers.dom().len(),
{
    if receivers.dom().len() > 0 {
        let first = receivers.dom().choose();
        assert(receivers.contains_key(first));
        lemma_buffers_zero(receivers.remove(first), x);
    }
}

/// A feeder that says that there is no more work has delivered every item that it ever accepted,
/// exactly once, and holds nothing any more. Its counters of pending items are at zero.
pub proof fn law_no_more_work_means_all_delivered<T>(
    worker_count: usize,
    actions: Seq<Action<T>>,
    x: T,
)
    requires
        worker_count > 0,
        State::<T>::initial(worker_count).allows_all(actions),
        State::<T>::initial(worker_count).items_fit_throughout(actions),
        State::<T>::initial(worker_count).after_all(actions).lifecycle == NO_MORE_WORK,
    ensures
        ({
            let start = State::<T>::initial(worker_count);
            &&& start.after_all(actions).empty()
            &&& start.after_all(actions).no_items_pending()
            &&& occurrences(start.accepted_by_all(actions), x) == occurrences(
                start.consumed_by_all(actions),
                x,
            )
        }),
    decreases actions.len(),
{
    let start = State::<T>::initial(worker_count);
    if actions.len() > 0 {
        let sofar = actions.drop_last();
        let s = start.after_all(sofar);
        let action = actions.last();
        law_always_in_order(worker_count, sofar);
        law_always_in_order(worker_count, actions);
        law_lifecycle_goes_forward(s, action);
        law_items_conserved(s, action, x);
        lemma_seq_sum_concat(start.accepted_by_all(sofar), s.accepted_by(action), one_for(x));
        lemma_seq_sum_concat(start.consumed_by_all(sofar), s.consumed_by(action), one_for(x));
        if s.lifecycle == NO_MORE_WORK {
            law_no_more_work_means_all_delivered(worker_count, sofar, x);
            law_completed_stays_empty(s, action);
        } else {
            law_completes_only_when_drained(s, action);
            law_nothing_lost(worker_count, sofar, x);
        }
        lemma_empty_copies(start.after_all(actions), x);
    }
}

/// A feeder that says that there is no more work has no request left either, and all its counters
/// of what is pending are at zero, as long as they could hold what they count.
pub proof fn law_no_more_work_leaves_nothing_pending<T>(
    worker_count: usize,
    actions: Seq<Action<T>>,
)
    requires
        worker_count > 0,
        State::<T>::initial(worker_count).allows_all(actions),
        State::<T>::initial(worker_count).fits_throughout(actions),
        State::<T>::initial(worker_count).after_all(actions).lifecycle == NO_MORE_WORK,
    ensures
        State::<T>::initial(worker_count).after_all(actions).drained(),
        State::<T>::initial(worker_count).after_all(actions).nothing_pending(),
    decreases actions.len(),
{
    let start = State::<T>::initial(worker_count);
    if actions.len() > 0 {
        let sofar = actions.drop_last();
        let s = start.after_all(sofar);
        let action = actions.last();
        law_always_in_order(worker_count, sofar);
        law_lifecycle_goes_forward(s, action);
        if s.lifecycle == NO_MORE_WORK {
            law_no_more_work_leaves_nothing_pending(worker_count, sofar);
            law_completed_stays_empty(s, action);
        } else {
            law_completes_only_when_drained(s, action);
        }
    }
}

} // verus!
