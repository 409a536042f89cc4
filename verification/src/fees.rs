//! Fee parameters.

use crate::codec::Codec;
use crate::error::SnapshotError;
use crate::reader::Record;
use crate::scalar::{get_bounded, last_bounded, required};
use crate::wire::{
    fields_bytes, last_varint, lemma_fields_bytes_push, lemma_matching_empty,
    lemma_matching_push, varint_field, Field, Kind,
};
use crate::writer::put_varint_field;
use vstd::prelude::*;

verus! {

/// Largest burn percentage.
pub const MAX_PERCENT: u64 = 100;

/// The fee per signature in force when a block hash was recorded.
#[derive(Clone, Copy, Debug, PartialEq, Eq)]
pub struct FeeCalculator {
    pub lamports_per_signature: u64,
}

/// The parameters that steer the fee per signature.
#[derive(Clone, Copy, Debug, PartialEq, Eq)]
pub struct FeeRateGovernor {
    pub lamports_per_signature: u64,
    pub target_signatures_per_slot: u64,
    pub min_lamports_per_signature: u64,
    pub max_lamports_per_signature: u64,
    /// Share of each fee that is burnt, 0 to 100.
    pub burn_percent: u8,
}

impl View for FeeCalculator {
    type V = FeeCalculator;

    open spec fn view(&self) -> FeeCalculator {
        *self
    }
}

impl View for FeeRateGovernor {
    type V = FeeRateGovernor;

    open spec fn view(&self) -> FeeRateGovernor {
        *self
    }
}

impl Codec for FeeCalculator {
    open spec fn kind_of(number: u32) -> Option<Kind> {
        if number == 1 {
            Some(Kind::Varint)
        } else {
            None
        }
    }

    fn kind(number: u32) -> (k: Option<Kind>) {
        if number == 1 {
            Some(Kind::Varint)
        } else {
            None
        }
    }

    open spec fn fields(m: FeeCalculator) -> Seq<Field> {
        Seq::empty().push(varint_field(1, m.lamports_per_signature))
    }

    /// The one field is required.
    open spec fn of_fields(fs: Seq<Field>) -> Result<FeeCalculator, SnapshotError> {
        match last_varint(fs, 1) {
            Some(v) => Ok(FeeCalculator { lamports_per_signature: v }),
            None => Err(SnapshotError::MalformedSnapshot),
        }
    }

    open spec fn valid(m: FeeCalculator) -> bool {
        true
    }

    open spec fn encodable(m: FeeCalculator) -> bool {
        true
    }

    open spec fn fits(m: FeeCalculator) -> bool {
        true
    }

    fn encode(&self) -> (r: Result<Vec<u8>, SnapshotError>) {
        broadcast use lemma_fields_bytes_push;

        let mut out: Vec<u8> = Vec::new();
        put_varint_field(&mut out, 1, self.lamports_per_signature);
        assert(fields_bytes(Seq::<Field>::empty()) =~= Seq::<u8>::empty());
        assert(out@ =~= fields_bytes(Self::fields(self@)));
        Ok(out)
    }

    fn from_record(rec: &Record) -> (r: Result<FeeCalculator, SnapshotError>) {
        let lamports_per_signature = required(rec.varint(1))?;
        Ok(FeeCalculator { lamports_per_signature })
    }

    proof fn lemma_fields_round_trip(m: FeeCalculator) {
        broadcast use lemma_matching_push, lemma_matching_empty;

    }

    open spec fn can_fail_with(e: SnapshotError) -> bool {
        e == SnapshotError::MalformedSnapshot
    }

    proof fn lemma_error_kinds(fs: Seq<Field>) {
    }

    proof fn lemma_decoded_valid(fs: Seq<Field>) {
    }
}

impl Codec for FeeRateGovernor {
    open spec fn kind_of(number: u32) -> Option<Kind> {
        if (1 <= number && number <= 5) {
            Some(Kind::Varint)
        } else {
            None
        }
    }

    fn kind(number: u32) -> (k: Option<Kind>) {
        if (1 <= number && number <= 5) {
            Some(Kind::Varint)
        } else {
            None
        }
    }

    open spec fn fields(m: FeeRateGovernor) -> Seq<Field> {
        Seq::empty()
            .push(varint_field(1, m.lamports_per_signature))
            .push(varint_field(2, m.target_signatures_per_slot))
            .push(varint_field(3, m.min_lamports_per_signature))
            .push(varint_field(4, m.max_lamports_per_signature))
            .push(varint_field(5, m.burn_percent as u64))
    }

    /// Every field is required; the burn percentage must be at most 100.
    open spec fn of_fields(fs: Seq<Field>) -> Result<FeeRateGovernor, SnapshotError> {
        if last_varint(fs, 1) is Some && last_varint(fs, 2) is Some && last_varint(fs, 3) is Some
            && last_varint(fs, 4) is Some && last_bounded(fs, 5, MAX_PERCENT) is Some {
            Ok(
                FeeRateGovernor {
                    lamports_per_signature: last_varint(fs, 1)->Some_0,
                    target_signatures_per_slot: last_varint(fs, 2)->Some_0,
                    min_lamports_per_signature: last_varint(fs, 3)->Some_0,
                    max_lamports_per_signature: last_varint(fs, 4)->Some_0,
                    burn_percent: last_bounded(fs, 5, MAX_PERCENT)->Some_0 as u8,
                },
            )
        } else {
            Err(SnapshotError::MalformedSnapshot)
        }
    }

    open spec fn valid(m: FeeRateGovernor) -> bool {
        m.burn_percent <= MAX_PERCENT
    }

    open spec fn encodable(m: FeeRateGovernor) -> bool {
        true
    }

    open spec fn fits(m: FeeRateGovernor) -> bool {
        true
    }

    fn encode(&self) -> (r: Result<Vec<u8>, SnapshotError>) {
        broadcast use lemma_fields_bytes_push;

        let mut out: Vec<u8> = Vec::new();
        put_varint_field(&mut out, 1, self.lamports_per_signature);
        put_varint_field(&mut out, 2, self.target_signatures_per_slot);
        put_varint_field(&mut out, 3, self.min_lamports_per_signature);
        put_varint_field(&mut out, 4, self.max_lamports_per_signature);
        put_varint_field(&mut out, 5, self.burn_percent as u64);
        assert(fields_bytes(Seq::<Field>::empty()) =~= Seq::<u8>::empty());
        assert(out@ =~= fields_bytes(Self::fields(self@)));
        Ok(out)
    }

    fn from_record(rec: &Record) -> (r: Result<FeeRateGovernor, SnapshotError>) {
        let lamports_per_signature = required(rec.varint(1))?;
        let target_signatures_per_slot = required(rec.varint(2))?;
        let min_lamports_per_signature = required(rec.varint(3))?;
        let max_lamports_per_signature = required(rec.varint(4))?;
        let burn_percent = required(get_bounded(rec, 5, MAX_PERCENT))?;
        Ok(
            FeeRateGovernor {
                lamports_per_signature,
                target_signatures_per_slot,
                min_lamports_per_signature,
                max_lamports_per_signature,
                burn_percent: burn_percent as u8,
            },
        )
    }

    proof fn lemma_fields_round_trip(m: FeeRateGovernor) {
        broadcast use lemma_matching_push, lemma_matching_empty;

    }

    open spec fn can_fail_with(e: SnapshotError) -> bool {
        e == SnapshotError::MalformedSnapshot
    }

    proof fn lemma_error_kinds(fs: Seq<Field>) {
    }

    proof fn lemma_decoded_valid(fs: Seq<Field>) {
    }
}

} // verus!
