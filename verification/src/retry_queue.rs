use std::collections::HashMap;
use std::collections::hash_map::DefaultHasher;
use std::hash::Hasher;
use vstd::prelude::*;
use vstd::std_specs::hash::DefaultHasherAdditionalSpecFns;
use vstd::utf8::{encode_scalar, encode_utf8};

use crate::structures::{cities_view, City, CityView};

verus! {

/// How often a chunk is sent back to the workers before the queue gives it up.
pub const MAX_ATTEMPTS: u8 = 3;

/// What the retry queue receives.
#[derive(Debug)]
pub enum RetryCommand {
    /// A chunk that could not be loaded.
    Retry(Vec<City>),
    /// Stop the queue.
    End,
}

/// What the retry queue does with a command.
#[derive(Debug)]
pub enum RetryAction {
    /// Send the chunk to the workers again.
    Resend(Vec<City>),
    /// The chunk failed too often: drop it.
    GiveUp,
    /// Stop the queue.
    Stop,
}

/// How often the chunk with hash `key` has failed, according to `m`.
pub open spec fn attempts_in(m: Map<u64, u8>, key: u64) -> int {
    if m.contains_key(key) {
        m[key] as int
    } else {
        0
    }
}

/// The failure counts after one more failure of the chunk with hash `key`; a count
/// stops at 255, the largest that its `u8` holds.
pub open spec fn after_failure(m: Map<u64, u8>, key: u64) -> Map<u64, u8> {
    m.insert(key, if attempts_in(m, key) < 255 { (attempts_in(m, key) + 1) as u8 } else { 255u8 })
}

/// Whether that failure is still retried: it is one of the first three.
pub open spec fn retried(m: Map<u64, u8>, key: u64) -> bool {
    attempts_in(m, key) + 1 <= MAX_ATTEMPTS
}

/// The failure counts after the failures `keys`, one after the other.
pub open spec fn replay(m: Map<u64, u8>, keys: Seq<u64>) -> Map<u64, u8>
    decreases keys.len(),
{
    if keys.len() == 0 {
        m
    } else {
        after_failure(replay(m, keys.drop_last()), keys.last())
    }
}

/// How many of the failures `keys` of the chunk `key` are retried.
pub open spec fn resends(m: Map<u64, u8>, keys: Seq<u64>, key: u64) -> int
    decreases keys.len(),
{
    if keys.len() == 0 {
        0
    } else {
        resends(m, keys.drop_last(), key) + if keys.last() == key && retried(
            replay(m, keys.drop_last()),
            key,
        ) {
            1int
        } else {
            0int
        }
    }
}

/// How often `key` occurs in `keys`.
pub open spec fn occurrences(keys: Seq<u64>, key: u64) -> int
    decreases keys.len(),
{
    if keys.len() == 0 {
        0
    } else {
        occurrences(keys.drop_last(), key) + if keys.last() == key {
            1int
        } else {
            0int
        }
    }
}

/// Counts the failures of each chunk, by the hash of the chunk.
pub struct RetryQueue {
    retries: HashMap<u64, u8>,
}

impl View for RetryQueue {
    type V = Map<u64, u8>;

    closed spec fn view(&self) -> Map<u64, u8> {
        self.retries@
    }
}

/// A text as the key of a chunk holds it: its UTF-8 bytes, then the byte `0xff`,
/// which UTF-8 never uses, so that one text cannot run into the next.
pub open spec fn field_bytes(text: Seq<char>) -> Seq<u8> {
    encode_utf8(text).push(0xffu8)
}

/// The bytes the key of a chunk is computed from: city after city, its id, name, state
/// and county.
pub open spec fn chunk_bytes(chunk: Seq<CityView>) -> Seq<u8>
    decreases chunk.len(),
{
    if chunk.len() == 0 {
        Seq::empty()
    } else {
        let c = chunk.last();
        chunk_bytes(chunk.drop_last()) + field_bytes(c.id) + field_bytes(c.name) + field_bytes(
            c.state,
        ) + field_bytes(c.country)
    }
}

/// Appends `text` to `bytes` as a chunk key holds it.
fn append_field(bytes: &mut Vec<u8>, text: &str)
    ensures
        final(bytes)@ == old(bytes)@ + field_bytes(text@),
{
    bytes.extend_from_slice(text.as_bytes());
    bytes.push(0xffu8);
    assert(final(bytes)@ =~= old(bytes)@ + field_bytes(text@));
}

impl RetryQueue {
    /// A queue that has seen no failure.
    pub fn new() -> (res: RetryQueue)
        ensures
            res@ == Map::<u64, u8>::empty(),
    {
        RetryQueue { retries: HashMap::new() }
    }

    /// The key under which the failures of a chunk are counted: what a fresh
    /// `DefaultHasher` gives once it was fed the bytes `chunk_bytes` of the chunk.
    pub fn chunk_key(chunk: &Vec<City>) -> (res: u64)
        ensures
            res == DefaultHasher::spec_finish(seq![chunk_bytes(cities_view(chunk@))]),
    {
        let mut bytes: Vec<u8> = Vec::new();
        let mut i: usize = 0;
        while i < chunk.len()
            invariant
                i <= chunk@.len(),
                bytes@ == chunk_bytes(cities_view(chunk@.take(i as int))),
            decreases chunk@.len() - i,
        {
            let c = &chunk[i];
            append_field(&mut bytes, c.id.as_str());
            append_field(&mut bytes, c.name.as_str());
            append_field(&mut bytes, c.state.as_str());
            append_field(&mut bytes, c.country.as_str());
            proof {
                let done = cities_view(chunk@.take(i as int));
                assert(cities_view(chunk@.take(i + 1)) =~= done.push(c@));
                assert(cities_view(chunk@.take(i + 1)).drop_last() =~= done);
            }
            i = i + 1;
        }
        assert(chunk@.take(chunk@.len() as int) =~= chunk@);
        let mut hasher = DefaultHasher::new();
        hasher.write(bytes.as_slice());
        assert(hasher@ =~= seq![chunk_bytes(cities_view(chunk@))]);
        hasher.finish()
    }

    /// How often the chunk with hash `key` has failed.
    pub fn attempts(&self, key: u64) -> (res: u8)
        ensures
            res == attempts_in(self@, key),
    {
        match self.retries.get(&key) {
            Some(n) => *n,
            None => 0,
        }
    }

    /// Counts one more failure of the chunk with hash `key` (a count stops at 255);
    /// true when the chunk is to be sent to the workers again, that is for its first
    /// three failures.
    pub fn record(&mut self, key: u64) -> (resend: bool)
        ensures
            final(self)@ == after_failure(old(self)@, key),
            resend == retried(old(self)@, key),
    {
        let attempts = match self.retries.get(&key) {
            Some(n) => n.saturating_add(1),
            None => 1,
        };
        self.retries.insert(key, attempts);
        attempts <= MAX_ATTEMPTS
    }

    /// Handles one command: a failed chunk is counted under `key` and sent again for
    /// its first three failures, then given up; `End` stops the queue.
    pub fn handle(&mut self, command: RetryCommand, key: u64) -> (res: RetryAction)
        ensures
            match command {
                RetryCommand::Retry(chunk) => {
                    &&& final(self)@ == after_failure(old(self)@, key)
                    &&& retried(old(self)@, key) ==> res == RetryAction::Resend(chunk)
                    &&& !retried(old(self)@, key) ==> res is GiveUp
                },
                RetryCommand::End => final(self)@ == old(self)@ && res is Stop,
            },
    {
        match command {
            RetryCommand::Retry(chunk) => {
                if self.record(key) {
                    RetryAction::Resend(chunk)
                } else {
                    RetryAction::GiveUp
                }
            },
            RetryCommand::End => RetryAction::Stop,
        }
    }
}

/// The smaller of `a` and `b`.
pub open spec fn min_int(a: int, b: int) -> int {
    if a < b {
        a
    } else {
        b
    }
}

/// Each failure of a chunk adds one to its count, up to 255, and leaves the other
/// counts alone.
proof fn lemma_replay_counts(keys: Seq<u64>, key: u64)
    ensures
        attempts_in(replay(Map::empty(), keys), key) == min_int(occurrences(keys, key), 255),
    decreases keys.len(),
{
    if keys.len() > 0 {
        lemma_occurrences_prefix(keys, key);
        lemma_replay_counts(keys.drop_last(), key);
    }
}

proof fn lemma_occurrences_prefix(keys: Seq<u64>, key: u64)
    requires
        keys.len() > 0,
    ensures
        occurrences(keys.drop_last(), key) <= occurrences(keys, key),
        occurrences(keys, key) >= 0,
    decreases keys.len(),
{
    if keys.len() > 1 {
        lemma_occurrences_prefix(keys.drop_last(), key);
    }
}

/// A chunk that fails again and again is sent back to the workers three times, then
/// given up: from a fresh queue, of `n` failures of one chunk the first `min(n, 3)`
/// are retried, however large `n` is.
pub proof fn lemma_at_most_three_retries(keys: Seq<u64>, key: u64)
    ensures
        resends(Map::empty(), keys, key) == min_int(occurrences(keys, key), 3),
    decreases keys.len(),
{
    if keys.len() > 0 {
        let dl = keys.drop_last();
        lemma_at_most_three_retries(dl, key);
        lemma_replay_counts(dl, key);
        lemma_occurrences_prefix(keys, key);
        if dl.len() > 0 {
            lemma_occurrences_prefix(dl, key);
        }
    }
}

/// Whether a failure is retried depends on the failures of its own chunk alone: the
/// failure at position `i` of `keys` is sent to the workers again exactly when its
/// chunk failed fewer than three times before it, whatever other chunks did.
pub proof fn lemma_retry_decision(keys: Seq<u64>, i: int)
    requires
        0 <= i < keys.len(),
    ensures
        retried(replay(Map::empty(), keys.take(i)), keys[i])
            <==> occurrences(keys.take(i), keys[i]) < 3,
{
    lemma_replay_counts(keys.take(i), keys[i]);
}

/// Failures of other chunks never use up a chunk's retries: two runs in which the
/// chunk `key` fails equally often resend it equally often.
pub proof fn lemma_retries_per_chunk(keys: Seq<u64>, other: Seq<u64>, key: u64)
    requires
        occurrences(keys, key) == occurrences(other, key),
    ensures
        resends(Map::empty(), keys, key) == resends(Map::empty(), other, key),
{
    lemma_at_most_three_retries(keys, key);
    lemma_at_most_three_retries(other, key);
}

} // verus!

verus! {

/// No byte of a UTF-8 encoded scalar is `0xff`.
proof fn lemma_scalar_no_ff(v: u32)
    ensures
        forall|k: int| 0 <= k < encode_scalar(v).len() ==> encode_scalar(v)[k] != 0xffu8,
{
    assert(vstd::utf8::leading_byte_width_1(v) != 0xffu8) by (bit_vector);
    assert(vstd::utf8::leading_byte_width_2(v) != 0xffu8) by (bit_vector);
    assert(vstd::utf8::leading_byte_width_3(v) != 0xffu8) by (bit_vector);
    assert(vstd::utf8::leading_byte_width_4(v) != 0xffu8) by (bit_vector);
    assert(vstd::utf8::last_continuation_byte(v) != 0xffu8) by (bit_vector);
    assert(vstd::utf8::second_last_continuation_byte(v) != 0xffu8) by (bit_vector);
    assert(vstd::utf8::third_last_continuation_byte(v) != 0xffu8) by (bit_vector);
}

/// No byte of UTF-8 encoded text is `0xff`.
proof fn lemma_text_no_ff(text: Seq<char>)
    ensures
        forall|k: int| 0 <= k < encode_utf8(text).len() ==> encode_utf8(text)[k] != 0xffu8,
    decreases text.len(),
{
    if text.len() > 0 {
        lemma_text_no_ff(text.drop_first());
        lemma_scalar_no_ff(text[0] as u32);
        let head = encode_scalar(text[0] as u32);
        let tail = encode_utf8(text.drop_first());
        assert(encode_utf8(text) == head + tail);
        assert forall|k: int| 0 <= k < encode_utf8(text).len() implies encode_utf8(text)[k]
            != 0xffu8 by {
            if k < head.len() {
                assert(encode_utf8(text)[k] == head[k]);
            } else {
                assert(encode_utf8(text)[k] == tail[k - head.len()]);
            }
        }
    }
}

/// Bytes that are empty or end with a field.
spec fn ends_a_field(bytes: Seq<u8>) -> bool {
    bytes.len() == 0 || bytes.last() == 0xffu8
}

/// The last field can be read back from the end: the bytes before it and its text
/// are determined.
proof fn lemma_last_field(p: Seq<u8>, x: Seq<char>, q: Seq<u8>, y: Seq<char>)
    requires
        p + field_bytes(x) == q + field_bytes(y),
        ends_a_field(p),
        ends_a_field(q),
    ensures
        p == q,
        x == y,
{
    broadcast use vstd::utf8::encode_utf8_decode_utf8;

    lemma_text_no_ff(x);
    lemma_text_no_ff(y);
    let ex = encode_utf8(x);
    let ey = encode_utf8(y);
    let w = p + field_bytes(x);
    let w2 = q + field_bytes(y);
    assert(w.len() == p.len() + ex.len() + 1);
    assert(w2.len() == q.len() + ey.len() + 1);
    if ex.len() < ey.len() {
        let k = p.len() - 1;
        assert(w[k] == p[k]);
        assert(w2[k] == field_bytes(y)[k - q.len()]);
        assert(field_bytes(y)[k - q.len()] == ey[k - q.len()]);
    } else if ey.len() < ex.len() {
        let k = q.len() - 1;
        assert(w2[k] == q[k]);
        assert(w[k] == field_bytes(x)[k - p.len()]);
        assert(field_bytes(x)[k - p.len()] == ex[k - p.len()]);
    } else {
        assert(p =~= w.subrange(0, p.len() as int));
        assert(q =~= w2.subrange(0, q.len() as int));
        assert(ex =~= w.subrange(p.len() as int, w.len() - 1));
        assert(ey =~= w2.subrange(q.len() as int, w2.len() - 1));
        assert(vstd::utf8::decode_utf8(ex) == x);
        assert(vstd::utf8::decode_utf8(ey) == y);
    }
}

proof fn lemma_chunk_bytes_end(chunk: Seq<CityView>)
    ensures
        ends_a_field(chunk_bytes(chunk)),
        chunk.len() > 0 ==> chunk_bytes(chunk).len() > 0,
{
}

/// Different chunks are fed to the hasher as different bytes: two chunks whose key
/// bytes agree are the same chunk, so only a collision of the hash itself can make two
/// chunks share a failure count.
pub proof fn lemma_chunk_bytes_injective(a: Seq<CityView>, b: Seq<CityView>)
    requires
        chunk_bytes(a) == chunk_bytes(b),
    ensures
        a == b,
    decreases a.len(),
{
    lemma_chunk_bytes_end(a);
    lemma_chunk_bytes_end(b);
    if a.len() == 0 || b.len() == 0 {
        assert(a.len() == 0 && b.len() == 0);
        assert(a =~= b);
    } else {
        let (ca, cb) = (a.last(), b.last());
        let (ba, bb) = (chunk_bytes(a.drop_last()), chunk_bytes(b.drop_last()));
        lemma_chunk_bytes_end(a.drop_last());
        lemma_chunk_bytes_end(b.drop_last());
        let a3 = ba + field_bytes(ca.id) + field_bytes(ca.name) + field_bytes(ca.state);
        let b3 = bb + field_bytes(cb.id) + field_bytes(cb.name) + field_bytes(cb.state);
        lemma_last_field(a3, ca.country, b3, cb.country);
        let a2 = ba + field_bytes(ca.id) + field_bytes(ca.name);
        let b2 = bb + field_bytes(cb.id) + field_bytes(cb.name);
        lemma_last_field(a2, ca.state, b2, cb.state);
        let a1 = ba + field_bytes(ca.id);
        let b1 = bb + field_bytes(cb.id);
        lemma_last_field(a1, ca.name, b1, cb.name);
        lemma_last_field(ba, ca.id, bb, cb.id);
        lemma_chunk_bytes_injective(a.drop_last(), b.drop_last());
        assert(a =~= a.drop_last().push(ca));
        assert(b =~= b.drop_last().push(cb));
    }
}

} // verus!
