use vstd::prelude::*;

use crate::retry_queue::RetryCommand;
use crate::structures::{cities_view, City, CityView};

verus! {

/// How many workers write in parallel.
pub const P_TASKS: usize = 4;

/// How many items DynamoDB takes in one batch write.
pub const BATCH_SIZE: usize = 25;

/// Hands the chunks to the workers in turn.
pub struct Loader {
    next_worker: usize,
}

/// The worker that gets the `k`-th chunk, counting from 0.
pub open spec fn worker_of(k: nat) -> int {
    (k % (P_TASKS as nat)) as int
}

impl Loader {
    #[verifier::type_invariant]
    spec fn inv(self) -> bool {
        self.next_worker < P_TASKS
    }

    /// The worker that gets the next chunk.
    pub closed spec fn next_worker(&self) -> int {
        self.next_worker as int
    }

    /// A loader whose first chunk goes to worker 0.
    pub fn new() -> (res: Loader)
        ensures
            res.next_worker() == 0,
    {
        Loader { next_worker: 0 }
    }

    /// The worker for the next chunk; the one after it gets the following chunk,
    /// and after the last worker comes the first again.
    pub fn assign(&mut self) -> (worker: usize)
        ensures
            worker == old(self).next_worker(),
            worker < P_TASKS,
            final(self).next_worker() == (worker + 1) % (P_TASKS as int),
    {
        proof {
            use_type_invariant(&*self);
        }
        let worker = self.next_worker;
        self.next_worker = (worker + 1) % P_TASKS;
        worker
    }
}

/// What becomes of a chunk handed to a channel.
#[derive(Debug)]
pub enum Handoff {
    /// The channel took it.
    Taken,
    /// The channel was closed: `replace` names the worker to start anew in place of
    /// the closed one (none when the chunk went to all workers at once), and `retry`
    /// goes to the retry queue.
    Undelivered { replace: Option<usize>, retry: RetryCommand },
}

impl Loader {
    /// Decides what follows the handoff of `cities` to `worker` (or to the workers'
    /// common channel): nothing when the channel took them; else the worker is
    /// replaced and the chunk goes to the retry queue.
    pub fn after_send(worker: Option<usize>, cities: Vec<City>, taken: bool) -> (res: Handoff)
        ensures
            taken ==> res is Taken,
            !taken ==> res == (Handoff::Undelivered {
                replace: worker,
                retry: RetryCommand::Retry(cities),
            }),
    {
        if taken {
            Handoff::Taken
        } else {
            Handoff::Undelivered { replace: worker, retry: RetryCommand::Retry(cities) }
        }
    }
}

impl Default for Loader {
    /// A loader whose first chunk goes to worker 0.
    fn default() -> (res: Loader)
        ensures
            res.next_worker() == 0,
    {
        Loader::new()
    }
}

/// Turn by turn: when the worker of the `k`-th chunk is `worker_of(k)`, the next chunk
/// goes to `worker_of(k + 1)`; so from a new loader, chunk `k` goes to worker `k % 4`
/// and each worker gets every fourth chunk.
pub proof fn lemma_round_robin(k: nat)
    ensures
        0 <= worker_of(k) < P_TASKS,
        (worker_of(k) + 1) % (P_TASKS as int) == worker_of(k + 1),
        worker_of(0) == 0,
{
    assert(((k % 4) + 1) % 4 == (k + 1) % 4) by (nonlinear_arith);
}

/// Gathers the cities of the stream into batches of `BATCH_SIZE`.
pub struct Chunker {
    pending: Vec<City>,
}

impl View for Chunker {
    type V = Seq<CityView>;

    closed spec fn view(&self) -> Seq<CityView> {
        cities_view(self.pending@)
    }
}

impl Chunker {
    #[verifier::type_invariant]
    spec fn inv(self) -> bool {
        self.pending@.len() < BATCH_SIZE
    }

    /// A chunker that holds no city.
    pub fn new() -> (res: Chunker)
        ensures
            res@ == Seq::<CityView>::empty(),
    {
        let res = Chunker { pending: Vec::new() };
        assert(res@ =~= Seq::<CityView>::empty());
        res
    }

    /// Takes the next city; hands out the batch when it makes it full.
    pub fn push(&mut self, city: City) -> (res: Option<Vec<City>>)
        ensures
            old(self)@.len() < BATCH_SIZE,
            final(self)@.len() < BATCH_SIZE,
            old(self)@.len() + 1 == BATCH_SIZE ==> (res matches Some(batch) && cities_view(batch@)
                == old(self)@.push(city@) && final(self)@ == Seq::<CityView>::empty()),
            old(self)@.len() + 1 < BATCH_SIZE ==> (res is None && final(self)@ == old(self)@.push(
                city@,
            )),
    {
        proof {
            use_type_invariant(&*self);
        }
        let ghost before = self@;
        let mut pending: Vec<City> = Vec::new();
        std::mem::swap(&mut pending, &mut self.pending);
        pending.push(city);
        assert(cities_view(pending@) =~= before.push(city@));
        if pending.len() == BATCH_SIZE {
            assert(self@ =~= Seq::<CityView>::empty());
            Some(pending)
        } else {
            self.pending = pending;
            None
        }
    }

    /// The end of the stream: the last batch, if any city is left.
    pub fn finish(self) -> (res: Option<Vec<City>>)
        ensures
            self@.len() < BATCH_SIZE,
            self@.len() > 0 ==> (res matches Some(batch) && cities_view(batch@) == self@),
            self@.len() == 0 ==> res is None,
    {
        proof {
            use_type_invariant(&self);
        }
        if self.pending.len() > 0 {
            Some(self.pending)
        } else {
            None
        }
    }
}

/// The batches handed out and the cities still held after `inputs`, from a chunker
/// that held `pending` (the steps of `push`).
pub open spec fn chunk_run(pending: Seq<CityView>, inputs: Seq<CityView>) -> (Seq<Seq<CityView>>, Seq<CityView>)
    decreases inputs.len(),
{
    if inputs.len() == 0 {
        (Seq::empty(), pending)
    } else {
        let (out, held) = chunk_run(pending, inputs.drop_last());
        if held.len() + 1 == BATCH_SIZE {
            (out.push(held.push(inputs.last())), Seq::empty())
        } else {
            (out, held.push(inputs.last()))
        }
    }
}

/// The batches one after the other.
pub open spec fn concat_batches(batches: Seq<Seq<CityView>>) -> Seq<CityView>
    decreases batches.len(),
{
    if batches.len() == 0 {
        Seq::empty()
    } else {
        concat_batches(batches.drop_last()) + batches.last()
    }
}

/// The batches of a stream, with the last one that `finish` hands out.
pub open spec fn all_batches(inputs: Seq<CityView>) -> Seq<Seq<CityView>> {
    let (out, held) = chunk_run(Seq::empty(), inputs);
    if held.len() > 0 {
        out.push(held)
    } else {
        out
    }
}

/// DynamoDB takes at most 25 items in one batch write: the batches of a stream hold
/// its cities in order, none lost and none repeated, every batch holds 25 cities but
/// the last, which holds from 1 to 25.
pub proof fn lemma_batches_of_25(inputs: Seq<CityView>)
    ensures
        concat_batches(all_batches(inputs)) == inputs,
        forall|i: int|
            0 <= i < all_batches(inputs).len() - 1 ==> (#[trigger] all_batches(inputs)[i]).len()
                == BATCH_SIZE,
        all_batches(inputs).len() > 0 ==> 0 < all_batches(inputs).last().len() <= BATCH_SIZE,
{
    lemma_chunk_run(inputs);
    let (out, held) = chunk_run(Seq::empty(), inputs);
    if held.len() > 0 {
        assert(out.push(held).drop_last() =~= out);
    }
}

proof fn lemma_chunk_run(inputs: Seq<CityView>)
    ensures
        ({
            let (out, held) = chunk_run(Seq::empty(), inputs);
            &&& concat_batches(out) + held == inputs
            &&& held.len() < BATCH_SIZE
            &&& forall|i: int| 0 <= i < out.len() ==> (#[trigger] out[i]).len() == BATCH_SIZE
        }),
    decreases inputs.len(),
{
    if inputs.len() == 0 {
        assert(concat_batches(Seq::<Seq<CityView>>::empty()) + Seq::<CityView>::empty() =~= inputs);
    } else {
        let dl = inputs.drop_last();
        lemma_chunk_run(dl);
        let (out, held) = chunk_run(Seq::empty(), dl);
        let x = inputs.last();
        assert(inputs =~= dl.push(x));
        if held.len() + 1 == BATCH_SIZE {
            let out2 = out.push(held.push(x));
            assert(out2.drop_last() =~= out);
            assert(concat_batches(out2) + Seq::<CityView>::empty() =~= inputs);
        } else {
            assert(concat_batches(out) + held.push(x) =~= inputs);
        }
    }
}

} // verus!
