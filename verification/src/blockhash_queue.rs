//! The queue of recent block hashes.

use crate::codec::{
    all_encodable, all_fit, all_valid, distinct, encodable_opt, fits_opt, get_all, get_nested_opt,
    has_distinct_keys, lemma_nested_opt_errors, lemma_parse_all_errors, lemma_parse_all_ok,
    lemma_parse_all_round_trip, lemma_parsed_opt_valid, lemma_round_trip, model_opt, models,
    nested_opt, parse_all, put_all, put_nested_opt, valid_opt, wire_opt, wires, Codec, Keyed,
};
use crate::error::SnapshotError;
use crate::fees::FeeCalculator;
use crate::key::{
    get_key, get_key_opt, last_key, last_key_opt, lemma_key_round_trip, opt_key_bytes,
    put_key_field, put_opt_key_field, wrong_length, Key,
};
use crate::reader::Record;
use crate::repeat::{lemma_matching_after_bytes, lemma_repeated_bytes_ok};
use crate::scalar::required;
use crate::wire::{
    all_bytes, bytes_field, fields_bytes, fields_ok, last_varint, lemma_fields_bytes_concat,
    lemma_fields_bytes_push, lemma_fields_bytes_push_opt, lemma_fields_ok_concat,
    lemma_matching_empty, lemma_matching_push, lemma_matching_push_opt, opt_bytes_field,
    push_opt, repeated_bytes, varint_field, Field, Kind,
};
use crate::writer::put_varint_field;
use vstd::prelude::*;

verus! {

/// What the queue keeps of one block hash.
#[derive(Clone, Copy, Debug, PartialEq, Eq)]
pub struct HashAgeEntry {
    pub hash: Key,
    pub hash_index: u64,
    pub timestamp: u64,
    pub fee_calculator: Option<FeeCalculator>,
}

/// A bounded history of recent block hashes, keyed by hash. It holds at most
/// `max_age + 1` entries.
#[derive(Clone, Debug, PartialEq, Eq)]
pub struct BlockhashQueue {
    pub last_hash_index: u64,
    /// Absent only before the first hash is recorded.
    pub last_hash: Option<Key>,
    pub max_age: u64,
    pub ages: Vec<HashAgeEntry>,
}

/// The mathematical content of a [`BlockhashQueue`].
pub struct BlockhashQueueView {
    pub last_hash_index: u64,
    pub last_hash: Option<Key>,
    pub max_age: u64,
    pub ages: Seq<HashAgeEntry>,
}

impl View for HashAgeEntry {
    type V = HashAgeEntry;

    open spec fn view(&self) -> HashAgeEntry {
        *self
    }
}

impl View for BlockhashQueue {
    type V = BlockhashQueueView;

    open spec fn view(&self) -> BlockhashQueueView {
        BlockhashQueueView {
            last_hash_index: self.last_hash_index,
            last_hash: self.last_hash,
            max_age: self.max_age,
            ages: models(self.ages@),
        }
    }
}

impl Codec for HashAgeEntry {
    open spec fn kind_of(number: u32) -> Option<Kind> {
        if number == 2 || number == 3 {
            Some(Kind::Varint)
        } else if number == 1 || number == 4 {
            Some(Kind::Bytes)
        } else {
            None
        }
    }

    fn kind(number: u32) -> (k: Option<Kind>) {
        if number == 2 || number == 3 {
            Some(Kind::Varint)
        } else if number == 1 || number == 4 {
            Some(Kind::Bytes)
        } else {
            None
        }
    }

    open spec fn fields(m: HashAgeEntry) -> Seq<Field> {
        push_opt(
            Seq::empty()
                .push(bytes_field(1, m.hash.bytes()))
                .push(varint_field(2, m.hash_index))
                .push(varint_field(3, m.timestamp)),
            opt_bytes_field(4, wire_opt::<FeeCalculator>(m.fee_calculator)),
        )
    }

    /// Hash, index and timestamp are required and the hash must have 32
    /// bytes. The fee calculator may be absent.
    open spec fn of_fields(fs: Seq<Field>) -> Result<HashAgeEntry, SnapshotError> {
        if last_key(fs, 1) is None || last_varint(fs, 2) is None || last_varint(fs, 3) is None {
            Err(SnapshotError::MalformedSnapshot)
        } else {
            match nested_opt::<FeeCalculator>(fs, 4) {
                Err(e) => Err(e),
                Ok(fee_calculator) => Ok(
                    HashAgeEntry {
                        hash: last_key(fs, 1)->Some_0,
                        hash_index: last_varint(fs, 2)->Some_0,
                        timestamp: last_varint(fs, 3)->Some_0,
                        fee_calculator,
                    },
                ),
            }
        }
    }

    open spec fn valid(m: HashAgeEntry) -> bool {
        valid_opt::<FeeCalculator>(m.fee_calculator)
    }

    open spec fn encodable(m: HashAgeEntry) -> bool {
        encodable_opt::<FeeCalculator>(m.fee_calculator)
    }

    open spec fn fits(m: HashAgeEntry) -> bool {
        fits_opt::<FeeCalculator>(m.fee_calculator)
    }

    fn encode(&self) -> (r: Result<Vec<u8>, SnapshotError>) {
        broadcast use lemma_fields_bytes_push, lemma_fields_bytes_push_opt;

        let mut out: Vec<u8> = Vec::new();
        put_key_field(&mut out, 1, &self.hash);
        put_varint_field(&mut out, 2, self.hash_index);
        put_varint_field(&mut out, 3, self.timestamp);
        assert(model_opt(self.fee_calculator) == self.fee_calculator);
        put_nested_opt(&mut out, 4, &self.fee_calculator)?;
        assert(fields_bytes(Seq::<Field>::empty()) =~= Seq::<u8>::empty());
        assert(out@ =~= fields_bytes(Self::fields(self@)));
        Ok(out)
    }

    fn from_record(rec: &Record) -> (r: Result<HashAgeEntry, SnapshotError>) {
        let hash = required(get_key(rec, 1))?;
        let hash_index = required(rec.varint(2))?;
        let timestamp = required(rec.varint(3))?;
        let fee_calculator = get_nested_opt::<FeeCalculator>(rec, 4)?;
        assert(model_opt(fee_calculator) == fee_calculator);
        Ok(HashAgeEntry { hash, hash_index, timestamp, fee_calculator })
    }

    proof fn lemma_fields_round_trip(m: HashAgeEntry) {
        broadcast use lemma_matching_push, lemma_matching_empty, lemma_matching_push_opt;

        lemma_key_round_trip(m.hash);
        if m.fee_calculator is Some {
            lemma_round_trip::<FeeCalculator>(m.fee_calculator->Some_0);
        }
    }

    open spec fn can_fail_with(e: SnapshotError) -> bool {
        e == SnapshotError::MalformedSnapshot
    }

    proof fn lemma_error_kinds(fs: Seq<Field>) {
        lemma_nested_opt_errors::<FeeCalculator>(fs, 4);
    }

    proof fn lemma_decoded_valid(fs: Seq<Field>) {
        lemma_parsed_opt_valid::<FeeCalculator>(fs, 4);
    }
}

impl Keyed for HashAgeEntry {
    open spec fn key_of(m: HashAgeEntry) -> Key {
        m.hash
    }

    fn key(&self) -> (k: Key) {
        self.hash
    }
}

/// The queue holds no more entries than its maximum age allows.
pub open spec fn within_capacity(entries: nat, max_age: u64) -> bool {
    entries <= max_age + 1
}

impl Codec for BlockhashQueue {
    open spec fn kind_of(number: u32) -> Option<Kind> {
        if number == 1 || number == 3 {
            Some(Kind::Varint)
        } else if number == 2 || number == 4 {
            Some(Kind::Bytes)
        } else {
            None
        }
    }

    fn kind(number: u32) -> (k: Option<Kind>) {
        if number == 1 || number == 3 {
            Some(Kind::Varint)
        } else if number == 2 || number == 4 {
            Some(Kind::Bytes)
        } else {
            None
        }
    }

    open spec fn fields(m: BlockhashQueueView) -> Seq<Field> {
        push_opt(
            Seq::empty().push(varint_field(1, m.last_hash_index)),
            opt_bytes_field(2, opt_key_bytes(m.last_hash)),
        ).push(varint_field(3, m.max_age)) + repeated_bytes(4, wires::<HashAgeEntry>(m.ages))
    }

    /// Index and maximum age are required; the last hash may be absent and
    /// must have 32 bytes where present. Every entry must decode and no hash
    /// may occur twice: each of these is a malformed snapshot. A well-formed
    /// record with more than `max_age + 1` entries violates the invariant of
    /// the queue.
    open spec fn of_fields(fs: Seq<Field>) -> Result<BlockhashQueueView, SnapshotError> {
        if last_varint(fs, 1) is None || last_varint(fs, 3) is None {
            Err(SnapshotError::MalformedSnapshot)
        } else {
            match last_key_opt(fs, 2) {
                Err(e) => Err(e),
                Ok(last_hash) => match parse_all::<HashAgeEntry>(all_bytes(fs, 4)) {
                    Err(e) => Err(e),
                    Ok(ages) => if !distinct::<HashAgeEntry>(ages) {
                        Err(SnapshotError::MalformedSnapshot)
                    } else if !within_capacity(ages.len(), last_varint(fs, 3)->Some_0) {
                        Err(SnapshotError::InvariantViolation)
                    } else {
                        Ok(
                            BlockhashQueueView {
                                last_hash_index: last_varint(fs, 1)->Some_0,
                                last_hash,
                                max_age: last_varint(fs, 3)->Some_0,
                                ages,
                            },
                        )
                    },
                },
            }
        }
    }

    open spec fn valid(m: BlockhashQueueView) -> bool {
        &&& all_valid::<HashAgeEntry>(m.ages)
        &&& distinct::<HashAgeEntry>(m.ages)
        &&& within_capacity(m.ages.len(), m.max_age)
    }

    open spec fn encodable(m: BlockhashQueueView) -> bool {
        all_encodable::<HashAgeEntry>(m.ages)
    }

    open spec fn fits(m: BlockhashQueueView) -> bool {
        all_fit::<HashAgeEntry>(m.ages)
    }

    fn encode(&self) -> (r: Result<Vec<u8>, SnapshotError>) {
        broadcast use lemma_fields_bytes_push, lemma_fields_bytes_push_opt;

        let mut out: Vec<u8> = Vec::new();
        put_varint_field(&mut out, 1, self.last_hash_index);
        put_opt_key_field(&mut out, 2, &self.last_hash);
        put_varint_field(&mut out, 3, self.max_age);
        put_all(&mut out, 4, &self.ages)?;
        proof {
            let m = self@;
            let a = push_opt(
                Seq::empty().push(varint_field(1, m.last_hash_index)),
                opt_bytes_field(2, opt_key_bytes(m.last_hash)),
            ).push(varint_field(3, m.max_age));
            assert(fields_bytes(Seq::<Field>::empty()) =~= Seq::<u8>::empty());
            lemma_fields_bytes_concat(a, repeated_bytes(4, wires::<HashAgeEntry>(m.ages)));
            assert(out@ =~= fields_bytes(Self::fields(m)));
        }
        Ok(out)
    }

    fn from_record(rec: &Record) -> (r: Result<BlockhashQueue, SnapshotError>) {
        let last_hash_index = required(rec.varint(1))?;
        let max_age = required(rec.varint(3))?;
        let last_hash = get_key_opt(rec, 2)?;
        let ages = get_all::<HashAgeEntry>(rec, 4)?;
        if !has_distinct_keys(&ages) {
            return Err(SnapshotError::MalformedSnapshot);
        }
        let n: u64 = ages.len() as u64;
        if n > 0 && n - 1 > max_age {
            return Err(SnapshotError::InvariantViolation);
        }
        Ok(BlockhashQueue { last_hash_index, last_hash, max_age, ages })
    }

    proof fn lemma_fields_round_trip(m: BlockhashQueueView) {
        broadcast use
            lemma_matching_push,
            lemma_matching_empty,
            lemma_matching_push_opt,
            lemma_matching_after_bytes,
        ;

        let a = push_opt(
            Seq::empty().push(varint_field(1, m.last_hash_index)),
            opt_bytes_field(2, opt_key_bytes(m.last_hash)),
        ).push(varint_field(3, m.max_age));
        let w4 = wires::<HashAgeEntry>(m.ages);
        let fs = Self::fields(m);
        if m.last_hash is Some {
            lemma_key_round_trip(m.last_hash->Some_0);
        }
        lemma_repeated_bytes_ok(4, w4);
        assert(fields_ok(a));
        lemma_fields_ok_concat(a, repeated_bytes(4, w4));
        assert(all_bytes(fs, 4) =~= w4);
        lemma_parse_all_round_trip::<HashAgeEntry>(m.ages);
    }

    /// Malformed, or well formed and against an invariant.
    open spec fn can_fail_with(e: SnapshotError) -> bool {
        e == SnapshotError::MalformedSnapshot || e == SnapshotError::InvariantViolation
    }

    proof fn lemma_error_kinds(fs: Seq<Field>) {
        lemma_parse_all_errors::<HashAgeEntry>(all_bytes(fs, 4));
    }

    proof fn lemma_decoded_valid(fs: Seq<Field>) {
        lemma_parse_all_ok::<HashAgeEntry>(all_bytes(fs, 4));
    }
}

/// Duplicate keys: a queue in which a hash occurs twice is a malformed
/// snapshot, whatever else it holds and however many entries it has.
pub proof fn lemma_queue_duplicate_refused(fs: Seq<Field>)
    requires
        parse_all::<HashAgeEntry>(all_bytes(fs, 4)) is Ok,
        !distinct::<HashAgeEntry>(parse_all::<HashAgeEntry>(all_bytes(fs, 4))->Ok_0),
    ensures
        BlockhashQueue::of_fields(fs) == Err::<BlockhashQueueView, SnapshotError>(
            SnapshotError::MalformedSnapshot,
        ),
{
}

/// Queue bound: a well-formed queue with more than `max_age + 1` entries
/// violates the invariant.
pub proof fn lemma_queue_overflow_refused(fs: Seq<Field>)
    requires
        last_varint(fs, 1) is Some,
        last_varint(fs, 3) is Some,
        last_key_opt(fs, 2) is Ok,
        parse_all::<HashAgeEntry>(all_bytes(fs, 4)) is Ok,
        distinct::<HashAgeEntry>(parse_all::<HashAgeEntry>(all_bytes(fs, 4))->Ok_0),
        parse_all::<HashAgeEntry>(all_bytes(fs, 4))->Ok_0.len() > last_varint(fs, 3)->Some_0 + 1,
    ensures
        BlockhashQueue::of_fields(fs) == Err::<BlockhashQueueView, SnapshotError>(
            SnapshotError::InvariantViolation,
        ),
{
}

/// Queue bound: a queue that decodes holds at most `max_age + 1` entries.
pub proof fn lemma_queue_within_capacity(fs: Seq<Field>)
    requires
        BlockhashQueue::of_fields(fs) is Ok,
    ensures
        BlockhashQueue::of_fields(fs)->Ok_0.ages.len() <= BlockhashQueue::of_fields(
            fs,
        )->Ok_0.max_age + 1,
{
}

/// Key length: a block hash that is not 32 bytes long makes the record a
/// malformed snapshot.
pub proof fn lemma_age_key_length(fs: Seq<Field>)
    requires
        wrong_length(fs, 1),
    ensures
        HashAgeEntry::of_fields(fs) == Err::<HashAgeEntry, SnapshotError>(
            SnapshotError::MalformedSnapshot,
        ),
{
}

/// Key length: a last hash that is not 32 bytes long makes the record a
/// malformed snapshot.
pub proof fn lemma_queue_key_length(fs: Seq<Field>)
    requires
        wrong_length(fs, 2),
    ensures
        BlockhashQueue::of_fields(fs) == Err::<BlockhashQueueView, SnapshotError>(
            SnapshotError::MalformedSnapshot,
        ),
{
}

} // verus!
