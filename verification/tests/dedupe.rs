use tailcall::dedupe::{Arrival, Dedupe};
use tailcall::eval::EvalError;
use tailcall::json::Json;

#[test]
fn dedupe_smoke() {
    // 10,000 callers arrive for one key before the computation has ended
    let mut cache = Dedupe::new(false);
    let mut counter = 0;
    let mut waiting = vec![];
    for caller in 0..10_000u64 {
        match cache.arrive(1, caller) {
            Arrival::Compute => counter += 1,
            Arrival::Subscribe => {}
            Arrival::Ready(_) => panic!("nothing was computed yet"),
        }
        waiting.push(caller);
    }
    assert_eq!(counter, 1);
    let result = Ok(Json::String(format!("v_{}", counter)));
    let receivers = cache.complete(1, &result);
    assert_eq!(receivers, waiting);
    let results: Vec<Result<Json, EvalError>> = receivers.iter().map(|_| result.clone()).collect();
    assert_eq!(results.len(), 10_000);
    assert!(results.iter().all(|r| *r == Ok(Json::String("v_1".into()))));
}

#[test]
fn dedupe_keys_are_separate() {
    let mut cache = Dedupe::new(false);
    assert_eq!(cache.arrive(1, 10), Arrival::Compute);
    assert_eq!(cache.arrive(2, 11), Arrival::Compute);
    assert_eq!(cache.arrive(1, 12), Arrival::Subscribe);
    assert_eq!(cache.complete(2, &Ok(Json::Null)), vec![11]);
    assert_eq!(cache.complete(1, &Ok(Json::Null)), vec![10, 12]);
    assert_eq!(cache.complete(1, &Ok(Json::Null)), Vec::<u64>::new());
    assert_eq!(cache.complete(3, &Ok(Json::Null)), Vec::<u64>::new());
}

#[test]
fn dedupe_recomputes_after_completion_unless_it_persists() {
    let mut cache = Dedupe::new(false);
    assert_eq!(cache.arrive(1, 1), Arrival::Compute);
    assert_eq!(cache.complete(1, &Ok(Json::Bool(true))), vec![1]);
    assert_eq!(cache.arrive(1, 2), Arrival::Compute);

    let mut kept = Dedupe::new(true);
    assert_eq!(kept.arrive(1, 1), Arrival::Compute);
    assert_eq!(kept.arrive(1, 2), Arrival::Subscribe);
    assert_eq!(kept.complete(1, &Ok(Json::Bool(true))), vec![1, 2]);
    assert_eq!(kept.arrive(1, 3), Arrival::Ready(Json::Bool(true)));
    assert_eq!(kept.arrive(1, 4), Arrival::Ready(Json::Bool(true)));
    assert_eq!(kept.complete(1, &Ok(Json::Bool(false))), Vec::<u64>::new());
    assert_eq!(kept.arrive(1, 5), Arrival::Ready(Json::Bool(true)));
}

#[test]
fn dedupe_errors_reach_every_subscriber_and_are_not_kept() {
    let mut kept = Dedupe::new(true);
    assert_eq!(kept.arrive(7, 1), Arrival::Compute);
    assert_eq!(kept.arrive(7, 2), Arrival::Subscribe);
    assert_eq!(kept.arrive(7, 3), Arrival::Subscribe);
    assert_eq!(kept.complete(7, &Err(EvalError::Timeout)), vec![1, 2, 3]);
    // the next caller drives the computation again
    assert_eq!(kept.arrive(7, 4), Arrival::Compute);
}

#[test]
fn dedupe_cancellation() {
    let mut cache = Dedupe::new(false);
    assert_eq!(cache.arrive(1, 1), Arrival::Compute);
    assert_eq!(cache.arrive(1, 2), Arrival::Subscribe);
    assert_eq!(cache.arrive(1, 3), Arrival::Subscribe);
    // a subscriber that leaves does not stop the producer
    assert!(!cache.cancel(1, 2));
    assert!(!cache.cancel(1, 2));
    assert!(!cache.cancel(1, 9));
    assert!(!cache.cancel(5, 1));
    assert!(!cache.cancel(1, 1));
    // the last one does
    assert!(cache.cancel(1, 3));
    assert_eq!(cache.complete(1, &Ok(Json::Null)), Vec::<u64>::new());
    assert_eq!(cache.arrive(1, 4), Arrival::Compute);
    assert_eq!(cache.arrive(1, 5), Arrival::Subscribe);
    assert!(!cache.cancel(1, 4));
    assert_eq!(cache.complete(1, &Ok(Json::Null)), vec![5]);
}
