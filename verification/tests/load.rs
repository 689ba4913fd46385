use assetario::load::{Chunker, Handoff, Loader, BATCH_SIZE, P_TASKS};
use assetario::retry_queue::RetryCommand;
use assetario::structures::City;

#[test]
fn workers_take_turns() {
    let mut loader = Loader::new();
    let got: Vec<usize> = (0..10).map(|_| loader.assign()).collect();
    assert_eq!(got, vec![0, 1, 2, 3, 0, 1, 2, 3, 0, 1]);
}

#[test]
fn each_worker_gets_every_fourth_chunk() {
    let mut loader = Loader::new();
    for k in 0..100usize {
        assert_eq!(loader.assign(), k % P_TASKS);
    }
}

#[test]
fn limits() {
    assert_eq!(P_TASKS, 4);
    assert_eq!(BATCH_SIZE, 25);
}

fn city(i: usize) -> City {
    City { id: i.to_string(), name: format!("c{}", i), state: "S".to_string(), country: "C".to_string() }
}

fn batches(n: usize) -> Vec<Vec<City>> {
    let mut chunker = Chunker::new();
    let mut out = vec![];
    for i in 0..n {
        if let Some(b) = chunker.push(city(i)) {
            out.push(b);
        }
    }
    if let Some(b) = chunker.finish() {
        out.push(b);
    }
    out
}

#[test]
fn batches_of_25_in_order() {
    let out = batches(60);
    let sizes: Vec<usize> = out.iter().map(|b| b.len()).collect();
    assert_eq!(sizes, vec![25, 25, 10]);
    let ids: Vec<String> = out.iter().flatten().map(|c| c.id.clone()).collect();
    let expected: Vec<String> = (0..60).map(|i| i.to_string()).collect();
    assert_eq!(ids, expected);
}

#[test]
fn exact_multiple_and_empty() {
    let sizes: Vec<usize> = batches(50).iter().map(|b| b.len()).collect();
    assert_eq!(sizes, vec![25, 25]);
    assert!(batches(0).is_empty());
    let sizes: Vec<usize> = batches(1).iter().map(|b| b.len()).collect();
    assert_eq!(sizes, vec![1]);
}

#[test]
fn taken_chunk_needs_nothing_more() {
    assert!(matches!(Loader::after_send(Some(1), vec![city(1)], true), Handoff::Taken));
    assert!(matches!(Loader::after_send(None, vec![city(1)], true), Handoff::Taken));
}

#[test]
fn undelivered_chunk_replaces_worker_and_is_retried() {
    match Loader::after_send(Some(2), vec![city(1), city(2)], false) {
        Handoff::Undelivered { replace, retry: RetryCommand::Retry(cities) } => {
            assert_eq!(replace, Some(2));
            assert_eq!(cities, vec![city(1), city(2)]);
        }
        other => panic!("unexpected {:?}", other),
    }
    match Loader::after_send(None, vec![city(3)], false) {
        Handoff::Undelivered { replace, retry: RetryCommand::Retry(cities) } => {
            assert_eq!(replace, None);
            assert_eq!(cities, vec![city(3)]);
        }
        other => panic!("unexpected {:?}", other),
    }
}

#[test]
fn default_loader_starts_with_first_worker() {
    let mut loader = Loader::default();
    assert_eq!(loader.assign(), 0);
    assert_eq!(loader.assign(), 1);
}
