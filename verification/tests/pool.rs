use rust_tag_server::pool::Admission;

#[test]
fn a_job_beyond_workers_and_queue_is_turned_away() {
    let workers = 2;
    let queue = 3;
    let mut pool = Admission::new(workers, queue);
    let mut admitted = 0;
    for _ in 0..(workers + queue) {
        assert!(pool.try_submit());
        admitted += 1;
        if pool.can_take() {
            pool.take();
        }
    }
    assert_eq!(admitted, 5);
    assert!(!pool.can_take());
    assert!(!pool.try_submit());
    assert!(!pool.try_submit());
}

#[test]
fn a_full_queue_turns_a_job_away_while_workers_are_idle() {
    let mut pool = Admission::new(4, 1);
    assert!(pool.try_submit());
    assert!(!pool.try_submit());
    pool.take();
    assert!(pool.try_submit());
}

#[test]
fn a_job_that_ends_makes_room() {
    let mut pool = Admission::new(1, 1);
    assert!(pool.try_submit());
    pool.take();
    assert!(pool.try_submit());
    assert!(!pool.try_submit());
    assert!(!pool.can_take());
    pool.finish();
    assert!(pool.can_take());
    pool.take();
    assert!(pool.try_submit());
    assert!(!pool.try_submit());
}

#[test]
fn an_idle_pool_has_nothing_to_take() {
    let pool = Admission::new(3, 3);
    assert!(!pool.can_take());
}
