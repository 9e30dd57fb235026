use runx::worker_pool::{InFlightLimiter, PoolStep, WorkerPool};

#[test]
fn limiter_grants_up_to_its_maximum_and_remembers_the_peak() {
    let mut limiter = InFlightLimiter::new(2);
    assert!(limiter.acquire());
    assert!(limiter.acquire());
    assert!(!limiter.acquire());
    assert_eq!(limiter.peak(), 2);
    limiter.release();
    assert!(limiter.acquire());
    limiter.release();
    limiter.release();
    limiter.release();
    assert_eq!(limiter.peak(), 2);
    assert!(limiter.acquire());
}

#[test]
fn zero_capacity_limiter_never_grants() {
    let mut limiter = InFlightLimiter::new(0);
    assert!(!limiter.acquire());
    assert_eq!(limiter.peak(), 0);
}

#[test]
fn pool_starts_reuses_and_waits() {
    let mut pool = WorkerPool::new(2);
    assert_eq!(pool.acquire(), PoolStep::Start);
    assert_eq!(pool.finish_start(true), Some(0));
    assert_eq!(pool.acquire(), PoolStep::Start);
    assert_eq!(pool.acquire(), PoolStep::Wait);
    assert_eq!(pool.finish_start(true), Some(1));
    assert_eq!(pool.acquire(), PoolStep::Wait);
    assert_eq!(pool.spawn_count(), 2);
    assert_eq!(pool.peak_active(), 2);
    pool.release(1, true);
    assert_eq!(pool.acquire(), PoolStep::Reuse(1));
    pool.release(0, false);
    assert_eq!(pool.acquire(), PoolStep::Start);
    assert_eq!(pool.finish_start(false), None);
    assert_eq!(pool.acquire(), PoolStep::Start);
    assert_eq!(pool.finish_start(true), Some(2));
    assert_eq!(pool.spawn_count(), 3);
}
