use rust_server::worker::{PoolMessage, ThreadPool};

#[test]
fn zero_sized_pool_is_refused() {
    let r: Result<ThreadPool<u64>, _> = ThreadPool::new(0);
    assert!(r.is_err());
}

#[test]
fn pool_keeps_its_size() {
    let p: ThreadPool<u64> = ThreadPool::new(3).unwrap();
    assert_eq!(p.size(), 3);
    assert_eq!(p.queue_len(), 0);
}

#[test]
fn submitted_jobs_are_drawn_exactly_once_in_order() {
    let mut p: ThreadPool<u64> = ThreadPool::new(2).unwrap();
    let n: u64 = 10;
    for j in 0..n {
        p.execute(j);
    }
    let mut drawn: Vec<u64> = Vec::new();
    while let Some(m) = p.next_message() {
        match m {
            PoolMessage::NewJob(j) => drawn.push(j),
            PoolMessage::Terminate => panic!("no termination was queued"),
        }
    }
    assert_eq!(drawn, (0..n).collect::<Vec<u64>>());
    assert_eq!(p.queue_len(), 0);
}

#[test]
fn shutdown_queues_one_signal_per_worker() {
    let mut p: ThreadPool<u64> = ThreadPool::new(3).unwrap();
    p.execute(7);
    p.shutdown();
    assert_eq!(p.queue_len(), 4);
    let mut jobs: usize = 0;
    let mut signals: usize = 0;
    while let Some(m) = p.next_message() {
        match m {
            PoolMessage::NewJob(j) => {
                assert_eq!(j, 7);
                jobs += 1;
            }
            PoolMessage::Terminate => signals += 1,
        }
    }
    assert_eq!(jobs, 1);
    assert_eq!(signals, 3);
}

#[test]
fn drawing_from_an_idle_queue_yields_nothing() {
    let mut p: ThreadPool<u64> = ThreadPool::new(1).unwrap();
    assert!(p.next_message().is_none());
    p.execute(1);
    assert!(matches!(p.next_message(), Some(PoolMessage::NewJob(1))));
    assert!(p.next_message().is_none());
}
