use assetario::retry_queue::{RetryAction, RetryCommand, RetryQueue, MAX_ATTEMPTS};
use assetario::structures::City;

fn city(id: &str) -> City {
    City { id: id.to_string(), name: "N".to_string(), state: "S".to_string(), country: "C".to_string() }
}

#[test]
fn first_three_failures_are_retried() {
    let mut q = RetryQueue::new();
    assert_eq!(q.attempts(42), 0);
    assert!(q.record(42));
    assert!(q.record(42));
    assert!(q.record(42));
    assert!(!q.record(42));
    assert!(!q.record(42));
    assert_eq!(q.attempts(42), 5);
    assert_eq!(q.attempts(7), 0);
    assert!(q.record(7));
}

#[test]
fn chunk_sent_back_three_times() {
    let mut q = RetryQueue::new();
    let chunk = vec![city("1"), city("2")];
    let key = RetryQueue::chunk_key(&chunk);
    let mut resent = 0;
    for _ in 0..6 {
        match q.handle(RetryCommand::Retry(chunk.clone()), key) {
            RetryAction::Resend(c) => {
                assert_eq!(c, chunk);
                resent += 1;
            }
            RetryAction::GiveUp => {}
            RetryAction::Stop => panic!("unexpected stop"),
        }
    }
    assert_eq!(resent, MAX_ATTEMPTS as usize);
}

#[test]
fn same_chunk_same_key() {
    let a = vec![city("1"), city("2")];
    let b = vec![city("1"), city("2")];
    assert_eq!(RetryQueue::chunk_key(&a), RetryQueue::chunk_key(&b));
}

#[test]
fn end_stops_the_queue() {
    let mut q = RetryQueue::new();
    assert!(q.record(1));
    assert!(matches!(q.handle(RetryCommand::End, 0), RetryAction::Stop));
    assert_eq!(q.attempts(1), 1);
}

#[test]
fn many_failures_are_retried_three_times() {
    let mut q = RetryQueue::new();
    let chunk = vec![city("9")];
    let key = RetryQueue::chunk_key(&chunk);
    let mut resent = 0;
    for _ in 0..300 {
        match q.handle(RetryCommand::Retry(chunk.clone()), key) {
            RetryAction::Resend(_) => resent += 1,
            RetryAction::GiveUp => {}
            RetryAction::Stop => panic!("unexpected stop"),
        }
    }
    assert_eq!(resent, 3);
    assert_eq!(q.attempts(key), 255);
}

#[test]
fn other_chunks_do_not_use_up_retries() {
    let mut q = RetryQueue::new();
    assert!(q.record(1));
    for _ in 0..10 {
        q.record(2);
    }
    assert!(q.record(1));
    assert!(q.record(1));
    assert!(!q.record(1));
    assert_eq!(q.attempts(2), 10);
}

#[test]
fn fields_do_not_run_into_each_other() {
    let a = vec![City { id: "ab".to_string(), name: "c".to_string(), state: "S".to_string(), country: "C".to_string() }];
    let b = vec![City { id: "a".to_string(), name: "bc".to_string(), state: "S".to_string(), country: "C".to_string() }];
    assert_ne!(RetryQueue::chunk_key(&a), RetryQueue::chunk_key(&b));
    assert_ne!(RetryQueue::chunk_key(&a), RetryQueue::chunk_key(&vec![]));
}
