//! What receivers do: they take items, request more, and give back what they buffered.

use vstd::prelude::*;
use crate::model::{ReceiverState, State};
use crate::preserve::{
    lemma_all_recovered, lemma_consumed, lemma_drop_begun, lemma_drop_finished,
    lemma_recovered_beside, lemma_released,
};
use crate::shared::Shared;
use crate::status::{StatusEvent, StatusSink};
use crate::types::{
    Attempt, GetError, ReceiverId, TryGet, TryGetOne, CANCELLED, NO_MORE_WORK, RUNNING,
    SHUTTING_DOWN,
};

verus! {

impl<T> State<T> {
    /// What a receiver gets that asks for at most `max` items and waits for the first.
    pub open spec fn gives(
        self,
        id: usize,
        max: usize,
        outcome: Attempt<Result<Vec<T>, GetError>>,
    ) -> bool {
        match outcome {
            Attempt::Ready(Ok(items)) => self.available(id, max) > 0 && items@ == self.taken(
                id,
                max,
            ),
            Attempt::Ready(Err(error)) => self.available(id, max) == 0 && !self.more_to_come(id)
                && error == self.end_of_items(),
            Attempt::Wait => self.available(id, max) == 0 && self.more_to_come(id),
        }
    }

    /// What a receiver gets that waits for one item.
    pub open spec fn gives_one(self, id: usize, outcome: Attempt<Result<T, GetError>>) -> bool {
        match outcome {
            Attempt::Ready(Ok(item)) => self.available(id, 1) > 0 && item
                == self.receivers[id].data[0],
            Attempt::Ready(Err(error)) => self.available(id, 1) == 0 && !self.more_to_come(id)
                && error == self.end_of_items(),
            Attempt::Wait => self.available(id, 1) == 0 && self.more_to_come(id),
        }
    }

    /// What a receiver gets that asks for at most `max` items and does not wait.
    pub open spec fn offers(self, id: usize, max: usize, outcome: TryGet<T>) -> bool {
        match outcome {
            TryGet::Items(items) => self.available(id, max) > 0 && items@ == self.taken(id, max),
            TryGet::Empty => self.available(id, max) == 0 && self.more_to_come(id)
                && self.lifecycle == RUNNING,
            TryGet::InShutdown => self.available(id, max) == 0 && self.more_to_come(id)
                && self.lifecycle == SHUTTING_DOWN,
            TryGet::NoMoreWork => self.available(id, max) == 0 && self.lifecycle != CANCELLED && (
            self.more_to_come(id) ==> self.lifecycle == NO_MORE_WORK),
            TryGet::Cancelled => self.available(id, max) == 0 && self.lifecycle == CANCELLED,
        }
    }

    /// What a receiver gets that asks for one item and does not wait.
    pub open spec fn offers_one(self, id: usize, outcome: TryGetOne<T>) -> bool {
        match outcome {
            TryGetOne::Item(item) => self.available(id, 1) > 0 && item
                == self.receivers[id].data[0],
            TryGetOne::Empty => self.available(id, 1) == 0 && self.more_to_come(id)
                && self.lifecycle == RUNNING,
            TryGetOne::InShutdown => self.available(id, 1) == 0 && self.more_to_come(id)
                && self.lifecycle == SHUTTING_DOWN,
            TryGetOne::NoMoreWork => self.available(id, 1) == 0 && self.lifecycle != CANCELLED && (
            self.more_to_come(id) ==> self.lifecycle == NO_MORE_WORK),
            TryGetOne::Cancelled => self.available(id, 1) == 0 && self.lifecycle == CANCELLED,
        }
    }
}

impl<T: Send + 'static, S: StatusSink> Shared<T, S> {
    /// What a receiver is told that will get nothing more.
    pub fn disconnected_get_error(&self) -> (error: GetError)
        ensures
            error == self@.end_of_items(),
    {
        if self.lifecycle == CANCELLED {
            GetError::Cancelled
        } else {
            GetError::NoMoreWork
        }
    }

    /// What a receiver is told that has nothing now and may still get something.
    pub fn try_empty(&self) -> (outcome: TryGet<T>)
        ensures
            outcome is Empty <==> self@.lifecycle == RUNNING,
            outcome is InShutdown <==> self@.lifecycle == SHUTTING_DOWN,
            outcome is Cancelled <==> self@.lifecycle == CANCELLED,
            outcome !is Items,
    {
        match self.lifecycle {
            RUNNING => TryGet::Empty,
            SHUTTING_DOWN => TryGet::InShutdown,
            CANCELLED => TryGet::Cancelled,
            _ => TryGet::NoMoreWork,
        }
    }

    /// What a receiver is told that has nothing now and will get nothing more.
    pub fn try_disconnected(&self) -> (outcome: TryGet<T>)
        ensures
            outcome is Cancelled <==> self@.lifecycle == CANCELLED,
            outcome is NoMoreWork <==> self@.lifecycle != CANCELLED,
    {
        if self.lifecycle == CANCELLED {
            TryGet::Cancelled
        } else {
            TryGet::NoMoreWork
        }
    }

    /// What a receiver is told that asked for one item, has none now and may still get some.
    pub fn try_empty_one(&self) -> (outcome: TryGetOne<T>)
        ensures
            outcome is Empty <==> self@.lifecycle == RUNNING,
            outcome is InShutdown <==> self@.lifecycle == SHUTTING_DOWN,
            outcome is Cancelled <==> self@.lifecycle == CANCELLED,
            outcome !is Item,
    {
        match self.lifecycle {
            RUNNING => TryGetOne::Empty,
            SHUTTING_DOWN => TryGetOne::InShutdown,
            CANCELLED => TryGetOne::Cancelled,
            _ => TryGetOne::NoMoreWork,
        }
    }

    /// What a receiver is told that asked for one item and will get nothing more.
    pub fn try_disconnected_one(&self) -> (outcome: TryGetOne<T>)
        ensures
            outcome is Cancelled <==> self@.lifecycle == CANCELLED,
            outcome is NoMoreWork <==> self@.lifecycle != CANCELLED,
    {
        if self.lifecycle == CANCELLED {
            TryGetOne::Cancelled
        } else {
            TryGetOne::NoMoreWork
        }
    }

    /// Requests what the receiver `id` lacks to its high water mark, where it is below its low
    /// water mark.
    pub(crate) fn maybe_request_refill(&mut self, id: usize)
        requires
            old(self).coherent(),
            old(self)@.receivers.contains_key(id),
            old(self)@.receivers[id].stats < old(self)@.consumer_stats.len(),
            old(self)@.receivers[id].owed <= old(self)@.receivers[id].outstanding,
            old(self)@.receivers[id].low_water < old(self)@.receivers[id].high_water,
        ensures
            final(self).coherent(),
            final(self)@ == old(self)@.refilled(id),
            final(self).status == old(self).status,
    {
        let ghost before = self@;
        let handle = self.take_receiver(id);
        let open = handle.data.is_sender_open();
        let outstanding = handle.outstanding;
        let low_water = handle.low_water;
        let high_water = handle.high_water;
        let place = handle.stats;
        self.insert_receiver(id, handle);
        proof {
            assert(self@.receivers =~= before.receivers);
        }
        if !open || outstanding >= low_water {
            return ;
        }
        let count = high_water - outstanding;
        let mut stats = self.consumer_stats[place];
        stats.refill_messages = stats.refill_messages.wrapping_add(1);
        self.consumer_stats.set(place, stats);
        let _ = self.reserve_demand(id, count);
        proof {
            assert(self@ =~= before.refilled(id));
        }
    }

    /// Reports the receiver `id` where it starts or stops getting less than it asks for.
    pub(crate) fn update_lag(&mut self, id: usize, requested: usize, received: usize)
        requires
            old(self).coherent(),
            old(self)@.receivers.contains_key(id),
        ensures
            final(self).coherent(),
            final(self)@ == old(self)@.lag_updated(id, requested, received),
            final(self).status == old(self).status,
    {
        if self.lifecycle != RUNNING {
            return ;
        }
        let ghost before = self@;
        let mut handle = self.take_receiver(id);
        let was_lagging = handle.lagging;
        handle.lagging = received < requested;
        self.insert_receiver(id, handle);
        if received < requested {
            if !was_lagging {
                self.emit(
                    StatusEvent::Lagging { receiver_id: ReceiverId(id), requested, received },
                );
            }
        } else if was_lagging {
            self.emit(StatusEvent::Recovered { receiver_id: ReceiverId(id) });
        }
        proof {
            let after = before.lag_updated(id, requested, received);
            assert(self@.receivers[id] =~= after.receivers[id]);
            assert(self@.receivers =~= after.receivers);
        }
    }

    /// Settles the accounts of the receiver `id`, which took `consumed` items and had asked for
    /// `requested`.
    #[verifier::rlimit(40)]
    pub(crate) fn finish_consume_count(&mut self, id: usize, requested: usize, consumed: usize)
        requires
            old(self).coherent(),
            old(self)@.receivers.contains_key(id),
            old(self)@.receivers[id].stats < old(self)@.consumer_stats.len(),
            old(self)@.receivers[id].owed + consumed <= old(self)@.receivers[id].outstanding,
            old(self)@.receivers[id].low_water < old(self)@.receivers[id].high_water,
        ensures
            final(self).coherent(),
            final(self)@ == old(self)@.consumption_finished(id, requested, consumed),
            final(self).status == old(self).status,
    {
        let ghost before = self@;
        self.delivered_inflight = self.delivered_inflight.wrapping_sub(consumed);
        let mut handle = self.take_receiver(id);
        if handle.data.is_sender_open() {
            handle.outstanding = handle.outstanding - consumed;
        }
        let place = handle.stats;
        self.insert_receiver(id, handle);
        let mut stats = self.consumer_stats[place];
        stats.get_calls = stats.get_calls.wrapping_add(1);
        stats.items_consumed = stats.items_consumed.wrapping_add(consumed as u64);
        self.consumer_stats.set(place, stats);
        proof {
            assert(self@ =~= before.consumption_counted(id, consumed));
        }
        self.maybe_request_refill(id);
        self.update_lag(id, requested, consumed);
        self.signal_completion_progress();
    }

    /// The receiver `id` takes at most `max` of the items it has buffered.
    pub fn consume(&mut self, id: usize, max: usize) -> (items: Vec<T>)
        requires
            old(self).wf(),
        ensures
            final(self).wf(),
            final(self)@ == old(self)@.consumed(id, max),
            items@ == old(self)@.taken(id, max),
            final(self).status == old(self).status,
    {
        let ghost before = self@;
        proof {
            lemma_consumed(before, id, max);
        }
        if !self.receivers.contains_key(&id) {
            return Vec::new();
        }
        proof {
            assert(before.receivers.contains_key(id));
            assert(before.receiver_ok(before.receivers[id]));
        }
        let mut handle = self.take_receiver(id);
        if !handle.data.is_receiver_open() {
            self.insert_receiver(id, handle);
            proof {
                assert(self@.receivers =~= before.receivers);
            }
            return Vec::new();
        }
        let items = handle.take_items(max);
        self.insert_receiver(id, handle);
        proof {
            let receiver = before.receivers[id];
            let got = before.available(id, max);
            assert(self@.receivers =~= before.receivers.insert(
                id,
                ReceiverState { data: receiver.data.skip(got), ..receiver },
            ));
            if got == 0 {
                assert(receiver.data.skip(0) =~= receiver.data);
                assert(self@.receivers =~= before.receivers);
            }
        }
        if items.len() > 0 {
            self.finish_consume_count(id, max, items.len());
        }
        items
    }

    /// Tells whether the receiver `id` may still get something.
    pub fn may_get_more(&self, id: usize) -> (open: bool)
        ensures
            open == self@.more_to_come(id),
    {
        proof {
            assert(self@.receivers.contains_key(id) == self.receivers@.contains_key(id));
        }
        match self.receivers.get(&id) {
            Some(handle) => handle.data.is_receiver_open() && handle.data.is_sender_open(),
            None => false,
        }
    }

    /// The receiver `id` takes at most `max` items, at least one. It has to wait where it has none
    /// and may still get some.
    pub fn get(&mut self, id: usize, max: usize) -> (outcome: Attempt<Result<Vec<T>, GetError>>)
        requires
            old(self).wf(),
            max > 0,
        ensures
            final(self).wf(),
            final(self)@ == old(self)@.consumed(id, max),
            old(self)@.gives(id, max, outcome),
            final(self).status == old(self).status,
    {
        let items = self.consume(id, max);
        if items.len() > 0 {
            return Attempt::Ready(Ok(items));
        }
        if self.may_get_more(id) {
            return Attempt::Wait;
        }
        Attempt::Ready(Err(self.disconnected_get_error()))
    }

    /// The receiver `id` takes one item. It has to wait where it has none and may still get some.
    pub fn get_one(&mut self, id: usize) -> (outcome: Attempt<Result<T, GetError>>)
        requires
            old(self).wf(),
        ensures
            final(self).wf(),
            final(self)@ == old(self)@.consumed(id, 1),
            old(self)@.gives_one(id, outcome),
            final(self).status == old(self).status,
    {
        let mut items = self.consume(id, 1);
        match items.pop() {
            Some(item) => Attempt::Ready(Ok(item)),
            None => {
                if self.may_get_more(id) {
                    Attempt::Wait
                } else {
                    Attempt::Ready(Err(self.disconnected_get_error()))
                }
            },
        }
    }

    /// The receiver `id` takes at most `max` items, where it has some.
    pub fn try_get(&mut self, id: usize, max: usize) -> (outcome: TryGet<T>)
        requires
            old(self).wf(),
            max > 0,
        ensures
            final(self).wf(),
            final(self)@ == old(self)@.consumed(id, max),
            old(self)@.offers(id, max, outcome),
            final(self).status == old(self).status,
    {
        let items = self.consume(id, max);
        if items.len() > 0 {
            return TryGet::Items(items);
        }
        if self.may_get_more(id) {
            self.try_empty()
        } else {
            self.try_disconnected()
        }
    }

    /// The receiver `id` takes one item, where it has one.
    pub fn try_get_one(&mut self, id: usize) -> (outcome: TryGetOne<T>)
        requires
            old(self).wf(),
        ensures
            final(self).wf(),
            final(self)@ == old(self)@.consumed(id, 1),
            old(self)@.offers_one(id, outcome),
            final(self).status == old(self).status,
    {
        let mut items = self.consume(id, 1);
        match items.pop() {
            Some(item) => TryGetOne::Item(item),
            None => {
                if self.may_get_more(id) {
                    self.try_empty_one()
                } else {
                    self.try_disconnected_one()
                }
            },
        }
    }

    /// Takes the receiver `id` out of the registry. Returns true where what it buffered has to be
    /// taken back, which `finish_drop` does once no worker is sending to it.
    pub fn begin_drop(&mut self, id: usize) -> (begun: bool)
        requires
            old(self).wf(),
        ensures
            final(self).wf(),
            final(self)@ == old(self)@.drop_begun(id),
            begun == old(self)@.drop_begins(id),
            final(self).status == old(self).status,
    {
        let ghost before = self@;
        proof {
            lemma_drop_begun(before, id);
        }
        if !self.receivers.contains_key(&id) {
            return false;
        }
        proof {
            assert(before.receivers.contains_key(id));
        }
        let mut handle = self.take_receiver(id);
        let mut begun = false;
        if !handle.dropped {
            handle.dropped = true;
            if handle.data.is_sender_open() {
                handle.closing = true;
                handle.draining = true;
                begun = true;
            }
        }
        self.insert_receiver(id, handle);
        proof {
            assert(self@.receivers[id] =~= before.drop_begun(id).receivers[id]);
            assert(self@.receivers =~= before.drop_begun(id).receivers);
        }
        begun
    }

    /// Tells whether the drop of the receiver `id` has begun and not finished.
    pub fn drop_pending(&self, id: usize) -> (pending: bool)
        ensures
            pending == self@.drop_pending(id),
    {
        proof {
            assert(self@.receivers.contains_key(id) == self.receivers@.contains_key(id));
        }
        match self.receivers.get(&id) {
            Some(handle) => handle.draining,
            None => false,
        }
    }

    /// Takes back what the receiver `id` buffered and forgets it. Returns false where nothing was
    /// done because a worker is still sending to the receiver, or its drop has not begun.
    pub fn finish_drop(&mut self, id: usize) -> (finished: bool)
        requires
            old(self).wf(),
        ensures
            final(self).wf(),
            finished == old(self)@.drop_can_finish(id),
            final(self)@ == if finished {
                old(self)@.drop_finished(id)
            } else {
                old(self)@
            },
            final(self).status == old(self).status,
    {
        let ghost before = self@;
        if !self.receivers.contains_key(&id) {
            return false;
        }
        proof {
            assert(before.receivers.contains_key(id));
            assert(before.receiver_ok(before.receivers[id]));
        }
        let mut handle = self.take_receiver(id);
        if !handle.draining || handle.active_sends != 0 {
            self.insert_receiver(id, handle);
            proof {
                assert(self@.receivers =~= before.receivers);
            }
            return false;
        }
        proof {
            lemma_drop_finished(before, id);
        }
        let items = handle.take_items(usize::MAX);
        let ghost all = items@;
        let count = items.len();
        proof {
            assert(all =~= before.receivers[id].data);
        }
        handle.data.drop_receiver();
        handle.draining = false;
        handle.outstanding = handle.outstanding - count;
        self.delivered_inflight = self.delivered_inflight.wrapping_sub(count);
        let ghost emptied = self@;
        for item in iter: items
            invariant
                iter.seq() == all,
                self.coherent(),
                self.status == old(self).status,
                self@ == emptied.all_recovered(all.take(iter.index())),
        {
            proof {
                assert(all.take(iter.index() + 1).drop_last() =~= all.take(iter.index()));
            }
            self.enqueue_recovered(item);
        }
        proof {
            assert(all.take(all.len() as int) =~= all);
            let base = State {
                delivered_inflight: before.delivered_inflight.wrapping_sub(count),
                ..before
            };
            assert(emptied =~= State { receivers: before.receivers.remove(id), ..base });
            lemma_recovered_beside(base, before.receivers.remove(id), all);
            lemma_all_recovered(base, all);
        }
        self.scheduler_stats.receiver_drop_recovered =
        self.scheduler_stats.receiver_drop_recovered.wrapping_add(count as u64);
        self.emit(StatusEvent::ReceiverDropped { receiver_id: ReceiverId(id), recovered: count });
        self.put_receiver(id, handle);
        proof {
            let gone = ReceiverState {
                data: Seq::<T>::empty(),
                rx_open: false,
                draining: false,
                outstanding: (before.receivers[id].outstanding - count) as usize,
                ..before.receivers[id]
            };
            assert(handle@ =~= gone);
            assert(before.receivers.remove(id).remove(id) =~= before.receivers.remove(id));
            assert(before.receivers.remove(id).insert(id, gone.settled())
                =~= before.receivers.insert(id, gone.settled()));
        }
        self.try_complete();
        true
    }

    /// Drops the receiving end of the receiver `id`, where it was given up and its sending end is
    /// gone. What the receiver had buffered goes with it. Returns whether there was such an end.
    pub fn release(&mut self, id: usize) -> (released: bool)
        requires
            old(self).wf(),
        ensures
            final(self).wf(),
            final(self)@ == old(self)@.released(id),
            released == old(self)@.releasable(id),
            final(self).status == old(self).status,
    {
        let ghost before = self@;
        proof {
            lemma_released(before, id);
        }
        if !self.receivers.contains_key(&id) {
            return false;
        }
        proof {
            assert(before.receivers.contains_key(id));
        }
        let mut handle = self.take_receiver(id);
        if !handle.dropped || !handle.data.is_receiver_open() || handle.data.is_sender_open() {
            self.insert_receiver(id, handle);
            proof {
                assert(self@.receivers =~= before.receivers);
            }
            return false;
        }
        handle.data.drop_receiver();
        self.discarded = Ghost(self.discarded@ + before.receivers[id].data.len());
        true
    }
}

} // verus!
