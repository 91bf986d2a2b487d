use pool_server::pool::{PoolCreationError, ThreadPool};

#[test]
fn zero_size_pool_is_rejected() {
    assert!(matches!(ThreadPool::new(0), Err(PoolCreationError::InvalidSize)));
}

#[test]
fn pool_constructs_with_positive_size() {
    assert!(ThreadPool::new(1).is_ok());
    assert!(ThreadPool::new(4).is_ok());
}

#[test]
fn every_submitted_job_runs_exactly_once() {
    let mut pool = ThreadPool::new(2).unwrap();
    for id in 1u64..=5 {
        pool.execute(id);
    }
    let mut ran = Vec::new();
    while let Some(id) = pool.take_job() {
        ran.push(id);
    }
    assert_eq!(ran, vec![1, 2, 3, 4, 5]);
    assert_eq!(pool.take_job(), None);
}

#[test]
fn jobs_leave_in_fifo_order_under_interleaving() {
    let mut pool = ThreadPool::new(3).unwrap();
    pool.execute(10);
    pool.execute(20);
    assert_eq!(pool.take_job(), Some(10));
    pool.execute(30);
    assert_eq!(pool.take_job(), Some(20));
    assert_eq!(pool.take_job(), Some(30));
    assert_eq!(pool.take_job(), None);
}
