use pastebin::dispatch::{Dispatch, WorkerPool};
use pastebin::error::Error;

#[test]
fn single_slot_runs_serially_in_submission_order() {
    let mut pool = WorkerPool::new(1);
    let mut started = Vec::new();
    for _ in 0..4 {
        match pool.submit().unwrap() {
            Dispatch::Start { slot, ticket } => {
                assert_eq!(slot, 0);
                started.push(ticket);
            }
            Dispatch::Queued { .. } => {}
        }
    }
    assert_eq!(started, vec![0]);
    assert_eq!(pool.waiting(), 3);
    let mut completed = Vec::new();
    loop {
        let running = pool.running(0).unwrap();
        completed.push(running);
        match pool.complete(0) {
            Some(next) => assert_eq!(next, running + 1),
            None => break,
        }
    }
    assert_eq!(completed, vec![0, 1, 2, 3]);
    assert_eq!(pool.running(0), None);
    assert_eq!(pool.waiting(), 0);
}

#[test]
fn two_slots_may_complete_out_of_order() {
    let mut pool = WorkerPool::new(2);
    assert_eq!(pool.submit().unwrap(), Dispatch::Start { slot: 0, ticket: 0 });
    assert_eq!(pool.submit().unwrap(), Dispatch::Start { slot: 1, ticket: 1 });
    assert_eq!(pool.submit().unwrap(), Dispatch::Queued { ticket: 2 });
    assert_eq!(pool.complete(1), Some(2));
    assert_eq!(pool.running(1), Some(2));
    assert_eq!(pool.complete(0), None);
    assert_eq!(pool.running(0), None);
    assert_eq!(pool.submit().unwrap(), Dispatch::Start { slot: 0, ticket: 3 });
    assert_eq!(pool.size(), 2);
}

#[test]
fn queue_is_first_in_first_out() {
    let mut pool = WorkerPool::new(2);
    pool.submit().unwrap();
    pool.submit().unwrap();
    for t in 2..6u64 {
        assert_eq!(pool.submit().unwrap(), Dispatch::Queued { ticket: t });
    }
    assert_eq!(pool.complete(1), Some(2));
    assert_eq!(pool.complete(0), Some(3));
    assert_eq!(pool.complete(0), Some(4));
    assert_eq!(pool.complete(1), Some(5));
    assert_eq!(pool.waiting(), 0);
}

#[test]
fn closed_pool_refuses_but_finishes_queued_work() {
    let mut pool = WorkerPool::new(1);
    pool.submit().unwrap();
    pool.submit().unwrap();
    pool.shutdown();
    match pool.submit() {
        Err(Error::Dispatch) => {}
        other => panic!("unexpected {:?}", other),
    }
    assert_eq!(pool.complete(0), Some(1));
    assert_eq!(pool.complete(0), None);
    let res = Error::Dispatch.error_response();
    assert_eq!(res.code, 500);
    assert_eq!(res.msg, "internal server error");
}
