use feeder::{
    Attempt, NoStatus, SendBatchError, SendError, Shared, TryGet, WorkerStep,
};

fn settle(shared: &mut Shared<i32, NoStatus>) {
    let mut progress = true;
    while progress {
        progress = false;
        for worker in 0..shared.workers.len() {
            if shared.run_worker(worker) == WorkerStep::Progress {
                progress = true;
            }
        }
    }
}

#[test]
fn refill_credits_do_not_over_request_under_concurrent_fulfillment() {
    let mut shared: Shared<i32, NoStatus> = Shared::new(NoStatus, 4);
    let rx = shared.rx(2, 10).unwrap();
    for i in 0..20 {
        shared.send(i).unwrap();
        shared.run_worker((i % 4) as usize);
    }
    settle(&mut shared);
    let outstanding = shared.receivers.get(&rx.0).unwrap().outstanding;
    assert!(outstanding <= 10, "outstanding={outstanding}");
    let _ = shared.get(rx.0, 5);
    let outstanding = shared.receivers.get(&rx.0).unwrap().outstanding;
    assert!(outstanding <= 10, "outstanding after consume={outstanding}");
    assert_eq!(shared.get_one(rx.0), Attempt::Ready(Ok(5)));
}

#[test]
fn sent_items_come_out_in_order() {
    let mut shared: Shared<i32, NoStatus> = Shared::new(NoStatus, 1);
    let rx = shared.rx(1, 9).unwrap();
    assert_eq!(shared.send(1), Ok(()));
    assert_eq!(shared.send_batch(vec![2, 3, 4]), Ok(()));
    assert_eq!(shared.send_batch(vec![]), Ok(()));
    assert_eq!(shared.send(5), Ok(()));
    settle(&mut shared);
    assert_eq!(shared.try_get(rx.0, 9), TryGet::Items(vec![1, 2, 3, 4, 5]));
}

#[test]
fn refused_items_come_back() {
    let mut shared: Shared<i32, NoStatus> = Shared::new(NoStatus, 1);
    let _rx = shared.rx(1, 2).unwrap();
    assert!(shared.graceful_shutdown());
    assert_eq!(shared.send(1), Err(SendError::IngressSealed(1)));
    assert_eq!(shared.send_batch(vec![1, 2]), Err(SendBatchError::IngressSealed(vec![1, 2])));
    assert_eq!(shared.send_batch(vec![]), Ok(()));
    settle(&mut shared);
    assert_eq!(shared.send(1), Err(SendError::NoMoreWork(1)));
    assert_eq!(shared.send_batch(vec![1, 2]), Err(SendBatchError::NoMoreWork(vec![1, 2])));
    shared.cancel_internal();
    assert_eq!(shared.send(1), Err(SendError::Cancelled(1)));
    assert_eq!(shared.send_batch(vec![1, 2]), Err(SendBatchError::Cancelled(vec![1, 2])));
    assert_eq!(shared.stats_snapshot().scheduler.ingress_accepted, 0);
}

#[test]
fn a_send_that_cannot_be_counted_is_handed_back() {
    let mut shared: Shared<i32, NoStatus> = Shared::new(NoStatus, 1);
    shared.active_producer_sends = usize::MAX;
    assert_eq!(shared.send(1), Err(SendError::SchedulerStopped(1)));
    shared.active_producer_sends = usize::MAX;
    assert_eq!(shared.send_batch(vec![1, 2]), Err(SendBatchError::SchedulerStopped(vec![1, 2])));
}
