//! The scalar fields of the ledger state.

use crate::codec::Codec;
use crate::error::SnapshotError;
use crate::key::{
    get_key, get_key_opt, last_key, last_key_opt, lemma_key_round_trip, opt_key_bytes,
    put_key_field, put_opt_key_field, wrong_length, Key,
};
use crate::reader::Record;
use crate::scalar::{
    get_flag, last_flag, lemma_signed_round_trip, required, signed_from_wire, signed_of_wire,
    signed_to_wire, signed_wire,
};
use crate::wire::{
    bytes_field, fields_bytes, fixed64_field, last_fixed64, last_varint,
    lemma_fields_bytes_push, lemma_fields_bytes_push_opt, lemma_matching_empty,
    lemma_matching_push, lemma_matching_push_opt, opt_bytes_field, opt_varint_field, push_opt,
    varint_field, Field, Kind,
};
use crate::writer::{
    bool_value, put_bool_field, put_fixed64_field, put_opt_varint_field, put_varint_field,
};
use vstd::prelude::*;

verus! {

/// Counters, timing constants and hashes of one ledger state.
#[derive(Clone, Copy, Debug, PartialEq, Eq)]
pub struct ScalarHeader {
    pub epoch: u64,
    pub block_height: u64,
    pub slot: u64,
    pub parent_slot: u64,
    pub hash: Key,
    pub parent_hash: Key,
    pub epoch_accounts_hash: Option<Key>,
    pub signature_count: u64,
    pub capitalization: u64,
    pub transaction_count: u64,
    pub tick_height: u64,
    pub max_tick_height: u64,
    pub hashes_per_tick: Option<u64>,
    pub ticks_per_slot: u64,
    /// Nanoseconds per slot. The wire holds 64 bits of it: a wider value
    /// cannot be encoded.
    pub ns_per_slot: u128,
    /// Bit pattern of the binary64 number of slots per year.
    pub slots_per_year: u64,
    pub genesis_creation_time: i64,
    pub collector_id: Key,
    pub collector_fees: u64,
    pub collected_rent: u64,
    pub accounts_data_size: u64,
    pub is_delta: bool,
}

impl View for ScalarHeader {
    type V = ScalarHeader;

    open spec fn view(&self) -> ScalarHeader {
        *self
    }
}

impl ScalarHeader {
    /// The fields up to the first one that may be absent.
    pub open spec fn leading_fields(self) -> Seq<Field> {
        Seq::empty()
            .push(varint_field(1, self.epoch))
            .push(varint_field(2, self.block_height))
            .push(varint_field(3, self.slot))
            .push(varint_field(4, self.parent_slot))
            .push(bytes_field(5, self.hash.bytes()))
            .push(bytes_field(6, self.parent_hash.bytes()))
    }

    /// The fields between the two that may be absent.
    pub open spec fn middle_fields(self, fs: Seq<Field>) -> Seq<Field> {
        fs.push(varint_field(8, self.signature_count))
            .push(varint_field(9, self.capitalization))
            .push(varint_field(10, self.transaction_count))
            .push(varint_field(11, self.tick_height))
            .push(varint_field(12, self.max_tick_height))
    }

    /// The fields after the last one that may be absent.
    pub open spec fn trailing_fields(self, fs: Seq<Field>) -> Seq<Field> {
        fs.push(varint_field(14, self.ticks_per_slot))
            .push(varint_field(15, self.ns_per_slot as u64))
            .push(fixed64_field(16, self.slots_per_year))
            .push(varint_field(17, signed_wire(self.genesis_creation_time)))
            .push(bytes_field(18, self.collector_id.bytes()))
            .push(varint_field(19, self.collector_fees))
            .push(varint_field(20, self.collected_rent))
            .push(varint_field(21, self.accounts_data_size))
            .push(varint_field(22, bool_value(self.is_delta)))
    }

    /// Every required field is present and within its domain.
    pub open spec fn complete(fs: Seq<Field>) -> bool {
        &&& last_varint(fs, 1) is Some
        &&& last_varint(fs, 2) is Some
        &&& last_varint(fs, 3) is Some
        &&& last_varint(fs, 4) is Some
        &&& last_key(fs, 5) is Some
        &&& last_key(fs, 6) is Some
        &&& last_key_opt(fs, 7) is Ok
        &&& last_varint(fs, 8) is Some
        &&& last_varint(fs, 9) is Some
        &&& last_varint(fs, 10) is Some
        &&& last_varint(fs, 11) is Some
        &&& last_varint(fs, 12) is Some
        &&& last_varint(fs, 14) is Some
        &&& last_varint(fs, 15) is Some
        &&& last_fixed64(fs, 16) is Some
        &&& last_varint(fs, 17) is Some
        &&& last_key(fs, 18) is Some
        &&& last_varint(fs, 19) is Some
        &&& last_varint(fs, 20) is Some
        &&& last_varint(fs, 21) is Some
        &&& last_flag(fs, 22) is Some
    }

    /// The header that complete fields stand for.
    pub open spec fn assemble(fs: Seq<Field>) -> ScalarHeader {
        ScalarHeader {
            epoch: last_varint(fs, 1)->Some_0,
            block_height: last_varint(fs, 2)->Some_0,
            slot: last_varint(fs, 3)->Some_0,
            parent_slot: last_varint(fs, 4)->Some_0,
            hash: last_key(fs, 5)->Some_0,
            parent_hash: last_key(fs, 6)->Some_0,
            epoch_accounts_hash: last_key_opt(fs, 7)->Ok_0,
            signature_count: last_varint(fs, 8)->Some_0,
            capitalization: last_varint(fs, 9)->Some_0,
            transaction_count: last_varint(fs, 10)->Some_0,
            tick_height: last_varint(fs, 11)->Some_0,
            max_tick_height: last_varint(fs, 12)->Some_0,
            hashes_per_tick: last_varint(fs, 13),
            ticks_per_slot: last_varint(fs, 14)->Some_0,
            ns_per_slot: last_varint(fs, 15)->Some_0 as u128,
            slots_per_year: last_fixed64(fs, 16)->Some_0,
            genesis_creation_time: signed_of_wire(last_varint(fs, 17)->Some_0),
            collector_id: last_key(fs, 18)->Some_0,
            collector_fees: last_varint(fs, 19)->Some_0,
            collected_rent: last_varint(fs, 20)->Some_0,
            accounts_data_size: last_varint(fs, 21)->Some_0,
            is_delta: last_flag(fs, 22)->Some_0,
        }
    }
}

impl Codec for ScalarHeader {
    open spec fn kind_of(number: u32) -> Option<Kind> {
        if (1 <= number && number <= 4) || (8 <= number && number <= 15) || number == 17 || (19
            <= number && number <= 22) {
            Some(Kind::Varint)
        } else if (5 <= number && number <= 7) || number == 18 {
            Some(Kind::Bytes)
        } else if number == 16 {
            Some(Kind::Fixed64)
        } else {
            None
        }
    }

    fn kind(number: u32) -> (k: Option<Kind>) {
        if (1 <= number && number <= 4) || (8 <= number && number <= 15) || number == 17 || (19
            <= number && number <= 22) {
            Some(Kind::Varint)
        } else if (5 <= number && number <= 7) || number == 18 {
            Some(Kind::Bytes)
        } else if number == 16 {
            Some(Kind::Fixed64)
        } else {
            None
        }
    }

    open spec fn fields(m: ScalarHeader) -> Seq<Field> {
        m.trailing_fields(
            push_opt(
                m.middle_fields(
                    push_opt(
                        m.leading_fields(),
                        opt_bytes_field(7, opt_key_bytes(m.epoch_accounts_hash)),
                    ),
                ),
                opt_varint_field(13, m.hashes_per_tick),
            ),
        )
    }

    /// Every field but the epoch accounts hash and the hashes per tick is
    /// required. Hashes and keys must have 32 bytes and the flag must be 0
    /// or 1.
    open spec fn of_fields(fs: Seq<Field>) -> Result<ScalarHeader, SnapshotError> {
        if ScalarHeader::complete(fs) {
            Ok(ScalarHeader::assemble(fs))
        } else {
            Err(SnapshotError::MalformedSnapshot)
        }
    }

    open spec fn valid(m: ScalarHeader) -> bool {
        true
    }

    /// The nanoseconds per slot fit 64 bits.
    open spec fn encodable(m: ScalarHeader) -> bool {
        m.ns_per_slot <= u64::MAX
    }

    open spec fn fits(m: ScalarHeader) -> bool {
        true
    }

    fn encode(&self) -> (r: Result<Vec<u8>, SnapshotError>) {
        broadcast use lemma_fields_bytes_push, lemma_fields_bytes_push_opt;

        if self.ns_per_slot > u64::MAX as u128 {
            return Err(SnapshotError::RangeOverflow);
        }
        let mut out: Vec<u8> = Vec::new();
        put_varint_field(&mut out, 1, self.epoch);
        put_varint_field(&mut out, 2, self.block_height);
        put_varint_field(&mut out, 3, self.slot);
        put_varint_field(&mut out, 4, self.parent_slot);
        put_key_field(&mut out, 5, &self.hash);
        put_key_field(&mut out, 6, &self.parent_hash);
        put_opt_key_field(&mut out, 7, &self.epoch_accounts_hash);
        put_varint_field(&mut out, 8, self.signature_count);
        put_varint_field(&mut out, 9, self.capitalization);
        put_varint_field(&mut out, 10, self.transaction_count);
        put_varint_field(&mut out, 11, self.tick_height);
        put_varint_field(&mut out, 12, self.max_tick_height);
        put_opt_varint_field(&mut out, 13, self.hashes_per_tick);
        put_varint_field(&mut out, 14, self.ticks_per_slot);
        put_varint_field(&mut out, 15, self.ns_per_slot as u64);
        put_fixed64_field(&mut out, 16, self.slots_per_year);
        put_varint_field(&mut out, 17, signed_to_wire(self.genesis_creation_time));
        put_key_field(&mut out, 18, &self.collector_id);
        put_varint_field(&mut out, 19, self.collector_fees);
        put_varint_field(&mut out, 20, self.collected_rent);
        put_varint_field(&mut out, 21, self.accounts_data_size);
        put_bool_field(&mut out, 22, self.is_delta);
        assert(fields_bytes(Seq::<Field>::empty()) =~= Seq::<u8>::empty());
        assert(out@ =~= fields_bytes(Self::fields(self@)));
        Ok(out)
    }

    fn from_record(rec: &Record) -> (r: Result<ScalarHeader, SnapshotError>) {
        let epoch = required(rec.varint(1))?;
        let block_height = required(rec.varint(2))?;
        let slot = required(rec.varint(3))?;
        let parent_slot = required(rec.varint(4))?;
        let hash = required(get_key(rec, 5))?;
        let parent_hash = required(get_key(rec, 6))?;
        let epoch_accounts_hash = get_key_opt(rec, 7)?;
        let signature_count = required(rec.varint(8))?;
        let capitalization = required(rec.varint(9))?;
        let transaction_count = required(rec.varint(10))?;
        let tick_height = required(rec.varint(11))?;
        let max_tick_height = required(rec.varint(12))?;
        let hashes_per_tick = rec.varint(13);
        let ticks_per_slot = required(rec.varint(14))?;
        let ns_per_slot = required(rec.varint(15))?;
        let slots_per_year = required(rec.fixed64(16))?;
        let genesis_creation_time = required(rec.varint(17))?;
        let collector_id = required(get_key(rec, 18))?;
        let collector_fees = required(rec.varint(19))?;
        let collected_rent = required(rec.varint(20))?;
        let accounts_data_size = required(rec.varint(21))?;
        let is_delta = required(get_flag(rec, 22))?;
        Ok(
            ScalarHeader {
                epoch,
                block_height,
                slot,
                parent_slot,
                hash,
                parent_hash,
                epoch_accounts_hash,
                signature_count,
                capitalization,
                transaction_count,
                tick_height,
                max_tick_height,
                hashes_per_tick,
                ticks_per_slot,
                ns_per_slot: ns_per_slot as u128,
                slots_per_year,
                genesis_creation_time: signed_from_wire(genesis_creation_time),
                collector_id,
                collector_fees,
                collected_rent,
                accounts_data_size,
                is_delta,
            },
        )
    }

    proof fn lemma_fields_round_trip(m: ScalarHeader) {
        broadcast use lemma_matching_push, lemma_matching_empty, lemma_matching_push_opt;

        let fs = Self::fields(m);
        lemma_key_round_trip(m.hash);
        lemma_key_round_trip(m.parent_hash);
        lemma_key_round_trip(m.collector_id);
        if m.epoch_accounts_hash is Some {
            lemma_key_round_trip(m.epoch_accounts_hash->Some_0);
        }
        lemma_signed_round_trip(m.genesis_creation_time);
        assert(crate::wire::fields_ok(fs));
        assert(ScalarHeader::complete(fs));
        assert(ScalarHeader::assemble(fs) == m);
    }

    open spec fn can_fail_with(e: SnapshotError) -> bool {
        e == SnapshotError::MalformedSnapshot
    }

    proof fn lemma_error_kinds(fs: Seq<Field>) {
    }

    proof fn lemma_decoded_valid(fs: Seq<Field>) {
    }
}

/// Key length: a hash or a collector key that is not 32 bytes long makes the record a
/// malformed snapshot.
pub proof fn lemma_header_key_length(fs: Seq<Field>)
    requires
        wrong_length(fs, 5) || wrong_length(fs, 6) || wrong_length(fs, 7) || wrong_length(fs, 18),
    ensures
        ScalarHeader::of_fields(fs) == Err::<ScalarHeader, SnapshotError>(
            SnapshotError::MalformedSnapshot,
        ),
{
}

} // verus!
