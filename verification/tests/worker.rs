use assetario::retry_queue::RetryCommand;
use assetario::structures::City;
use assetario::worker::{DynamoDBWorker, WorkerCommand, WorkerStep, WriteOutcome, TABLE_NAME};

fn city(id: &str, name: &str) -> City {
    City { id: id.to_string(), name: name.to_string(), state: "Ohio".to_string(), country: "Franklin".to_string() }
}

#[test]
fn batch_holds_each_city_item() {
    let chunk = vec![city("1", "Columbus"), city("2", "Dublin")];
    let batch = DynamoDBWorker::batch_write(&chunk);
    assert_eq!(batch.table_name, "AssetarioSimpleMaps");
    assert_eq!(TABLE_NAME, "AssetarioSimpleMaps");
    assert_eq!(batch.items.len(), 2);
    assert_eq!(batch.items[0], chunk[0].clone().into_item());
    assert_eq!(batch.items[1], chunk[1].clone().into_item());
    assert_eq!(batch.items[1][0].value, "city#id#2");
}

#[test]
fn load_becomes_a_write() {
    let chunk = vec![city("1", "Columbus")];
    match DynamoDBWorker::step(WorkerCommand::Load(chunk.clone())) {
        WorkerStep::Write(batch, cities) => {
            assert_eq!(cities, chunk);
            assert_eq!(batch.items.len(), 1);
        }
        WorkerStep::Stop => panic!("expected a write"),
    }
    assert!(matches!(DynamoDBWorker::step(WorkerCommand::End), WorkerStep::Stop));
}

#[test]
fn outcome_of_a_write() {
    let chunk = vec![city("1", "Columbus")];
    match DynamoDBWorker::after_write(chunk.clone(), true) {
        WriteOutcome::Loaded(c) => assert_eq!(c, chunk),
        WriteOutcome::Retry(_) => panic!("expected loaded"),
    }
    match DynamoDBWorker::after_write(chunk.clone(), false) {
        WriteOutcome::Retry(RetryCommand::Retry(c)) => assert_eq!(c, chunk),
        _ => panic!("expected a retry"),
    }
}
