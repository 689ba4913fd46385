use vstd::prelude::*;

use crate::retry_queue::RetryCommand;
use crate::structures::{city_item, city_of_item, lemma_item_keeps_city, City, CityView, ItemAttribute};

verus! {

/// The DynamoDB table that holds the cities.
pub const TABLE_NAME: &'static str = "AssetarioSimpleMaps";

/// What a worker receives.
#[derive(Debug)]
pub enum WorkerCommand {
    /// Write these cities.
    Load(Vec<City>),
    /// Stop the worker.
    End,
}

/// One batch write: a put of each item into one table.
#[derive(Debug)]
pub struct BatchWrite {
    pub table_name: String,
    pub items: Vec<Vec<ItemAttribute>>,
}

/// The items of a batch as plain values.
pub open spec fn items_view(items: Seq<Vec<ItemAttribute>>) -> Seq<Seq<(Seq<char>, Seq<char>)>> {
    items.map_values(|item: Vec<ItemAttribute>| item@.map_values(|a: ItemAttribute| a@))
}

/// The batch write that stores `chunk`: its cities' items, in order, into the table.
pub open spec fn batch_of(table: Seq<char>, items: Seq<Seq<(Seq<char>, Seq<char>)>>, chunk: Seq<CityView>) -> bool {
    &&& table == TABLE_NAME@
    &&& items == chunk.map_values(|c: CityView| city_item(c))
}

/// What a worker does next.
#[derive(Debug)]
pub enum WorkerStep {
    /// Send this batch write, for these cities.
    Write(BatchWrite, Vec<City>),
    /// Stop.
    Stop,
}

/// What a worker does once the batch write has come back.
#[derive(Debug)]
pub enum WriteOutcome {
    /// The cities were stored: report each of them as loaded.
    Loaded(Vec<City>),
    /// The write failed: hand the chunk to the retry queue.
    Retry(RetryCommand),
}

/// Writes chunks of cities into DynamoDB.
pub struct DynamoDBWorker;

fn copy_city(c: &City) -> (res: City)
    ensures
        res@ == c@,
{
    City { id: c.id.clone(), name: c.name.clone(), state: c.state.clone(), country: c.country.clone() }
}

impl DynamoDBWorker {
    /// The batch write that stores the chunk.
    pub fn batch_write(chunk: &Vec<City>) -> (res: BatchWrite)
        ensures
            batch_of(res.table_name@, items_view(res.items@), crate::structures::cities_view(chunk@)),
    {
        let mut items: Vec<Vec<ItemAttribute>> = Vec::new();
        let mut i: usize = 0;
        while i < chunk.len()
            invariant
                i <= chunk@.len(),
                items_view(items@) == crate::structures::cities_view(chunk@).take(i as int).map_values(
                    |c: CityView| city_item(c),
                ),
            decreases chunk@.len() - i,
        {
            let ghost before = items_view(items@);
            let item = copy_city(&chunk[i]).into_item();
            items.push(item);
            assert(items_view(items@) =~= before.push(city_item(chunk@[i as int]@)));
            assert(crate::structures::cities_view(chunk@).take(i + 1).map_values(
                |c: CityView| city_item(c),
            ) =~= before.push(city_item(chunk@[i as int]@)));
            i = i + 1;
        }
        assert(crate::structures::cities_view(chunk@).take(chunk@.len() as int) =~= crate::structures::cities_view(chunk@));
        BatchWrite { table_name: String::from_str(TABLE_NAME), items }
    }

    /// The next step for a command: a chunk to load becomes its batch write; `End`
    /// stops the worker.
    pub fn step(command: WorkerCommand) -> (res: WorkerStep)
        ensures
            match command {
                WorkerCommand::Load(chunk) => match res {
                    WorkerStep::Write(batch, cities) => cities == chunk && batch_of(
                        batch.table_name@,
                        items_view(batch.items@),
                        crate::structures::cities_view(chunk@),
                    ),
                    WorkerStep::Stop => false,
                },
                WorkerCommand::End => res is Stop,
            },
    {
        match command {
            WorkerCommand::Load(chunk) => {
                let batch = Self::batch_write(&chunk);
                WorkerStep::Write(batch, chunk)
            },
            WorkerCommand::End => WorkerStep::Stop,
        }
    }

    /// After the batch write: the cities are reported loaded when it succeeded, and the
    /// chunk goes to the retry queue when it failed.
    pub fn after_write(chunk: Vec<City>, written: bool) -> (res: WriteOutcome)
        ensures
            written ==> res == WriteOutcome::Loaded(chunk),
            !written ==> res == WriteOutcome::Retry(RetryCommand::Retry(chunk)),
    {
        if written {
            WriteOutcome::Loaded(chunk)
        } else {
            WriteOutcome::Retry(RetryCommand::Retry(chunk))
        }
    }
}

} // verus!

verus! {

/// A batch write stores the chunk whole and unchanged: one item per city, in the
/// chunk's order, each of which reads back as its city.
pub proof fn lemma_batch_keeps_chunk(
    table: Seq<char>,
    items: Seq<Seq<(Seq<char>, Seq<char>)>>,
    chunk: Seq<CityView>,
)
    requires
        batch_of(table, items, chunk),
    ensures
        items.len() == chunk.len(),
        forall|i: int| 0 <= i < chunk.len() ==> city_of_item(#[trigger] items[i]) == Some(chunk[i]),
{
    assert forall|i: int| 0 <= i < chunk.len() implies city_of_item(#[trigger] items[i]) == Some(
        chunk[i],
    ) by {
        lemma_item_keeps_city(chunk[i]);
    }
}

} // verus!
