use matmul::MatrixError;
use matmul::WorkerPool;

#[test]
fn a_pool_remembers_its_size() {
    let pool = WorkerPool::new(3).unwrap();
    assert_eq!(pool.workers(), 3);
}

#[test]
fn a_pool_of_no_workers_starts_no_thread() {
    let pool = WorkerPool::new(0).unwrap();
    assert_eq!(pool.workers(), 0);
    assert_eq!(WorkerPool::idle().workers(), 0);
}

#[test]
fn adopt_wraps_started_threads() {
    let built = rayon::ThreadPoolBuilder::new().num_threads(2).build();
    let pool = WorkerPool::adopt(2, built).unwrap();
    assert_eq!(pool.workers(), 2);
}

#[test]
fn adopt_reports_threads_that_did_not_start() {
    let failing = rayon::ThreadPoolBuilder::new()
        .num_threads(2)
        .spawn_handler(|_| Err(std::io::Error::new(std::io::ErrorKind::Other, "no threads")))
        .build();
    assert!(failing.is_err());
    match WorkerPool::adopt(2, failing) {
        Err(e) => assert_eq!(e, MatrixError::PoolUnavailable),
        Ok(_) => panic!("a pool without threads"),
    }
}

#[test]
fn adopt_keeps_no_thread_for_no_workers() {
    let built = rayon::ThreadPoolBuilder::new().num_threads(1).build();
    let pool = WorkerPool::adopt(0, built).unwrap();
    assert_eq!(pool.workers(), 0);
}
