//! Rent parameters, the epoch schedule, and the rent collector that holds
//! both as of one epoch.

use crate::codec::{
    get_nested, lemma_nested_errors, lemma_parsed_valid, lemma_round_trip, nested, nested_fits,
    put_nested, wire, Codec,
};
use crate::error::SnapshotError;
use crate::fees::MAX_PERCENT;
use crate::reader::Record;
use crate::scalar::{get_bounded, get_flag, last_bounded, last_flag, required};
use crate::wire::{
    bytes_field, fields_bytes, fixed64_field, last_bytes, last_fixed64, last_varint,
    lemma_fields_bytes_push, lemma_matching_empty, lemma_matching_push, varint_field, Field, Kind,
};
use crate::writer::{bool_value, put_bool_field, put_fixed64_field, put_varint_field};
use vstd::prelude::*;

verus! {

/// Epoch length and warm-up.
#[derive(Clone, Copy, Debug, PartialEq, Eq)]
pub struct EpochSchedule {
    pub slots_per_epoch: u64,
    pub leader_schedule_slot_offset: u64,
    pub warmup: bool,
    pub first_normal_epoch: u64,
    pub first_normal_slot: u64,
}

/// Rent parameters.
#[derive(Clone, Copy, Debug, PartialEq, Eq)]
pub struct Rent {
    pub lamports_per_byte_year: u64,
    /// Bit pattern of the binary64 exemption threshold, in years.
    pub exemption_threshold: u64,
    /// Share of collected rent that is burnt, 0 to 100.
    pub burn_percent: u8,
}

/// The rent parameters with the epoch and schedule at which they were taken.
#[derive(Clone, Copy, Debug, PartialEq, Eq)]
pub struct RentCollector {
    pub epoch: u64,
    pub epoch_schedule: EpochSchedule,
    /// Bit pattern of the binary64 number of slots per year.
    pub slots_per_year: u64,
    pub rent: Rent,
}

impl View for EpochSchedule {
    type V = EpochSchedule;

    open spec fn view(&self) -> EpochSchedule {
        *self
    }
}

impl View for Rent {
    type V = Rent;

    open spec fn view(&self) -> Rent {
        *self
    }
}

impl View for RentCollector {
    type V = RentCollector;

    open spec fn view(&self) -> RentCollector {
        *self
    }
}

impl Codec for EpochSchedule {
    open spec fn kind_of(number: u32) -> Option<Kind> {
        if (1 <= number && number <= 5) {
            Some(Kind::Varint)
        } else {
            None
        }
    }

    fn kind(number: u32) -> (k: Option<Kind>) {
        if (1 <= number && number <= 5) {
            Some(Kind::Varint)
        } else {
            None
        }
    }

    open spec fn fields(m: EpochSchedule) -> Seq<Field> {
        Seq::empty()
            .push(varint_field(1, m.slots_per_epoch))
            .push(varint_field(2, m.leader_schedule_slot_offset))
            .push(varint_field(3, bool_value(m.warmup)))
            .push(varint_field(4, m.first_normal_epoch))
            .push(varint_field(5, m.first_normal_slot))
    }

    /// Every field is required; the flag must be 0 or 1.
    open spec fn of_fields(fs: Seq<Field>) -> Result<EpochSchedule, SnapshotError> {
        if last_varint(fs, 1) is Some && last_varint(fs, 2) is Some && last_flag(fs, 3) is Some
            && last_varint(fs, 4) is Some && last_varint(fs, 5) is Some {
            Ok(
                EpochSchedule {
                    slots_per_epoch: last_varint(fs, 1)->Some_0,
                    leader_schedule_slot_offset: last_varint(fs, 2)->Some_0,
                    warmup: last_flag(fs, 3)->Some_0,
                    first_normal_epoch: last_varint(fs, 4)->Some_0,
                    first_normal_slot: last_varint(fs, 5)->Some_0,
                },
            )
        } else {
            Err(SnapshotError::MalformedSnapshot)
        }
    }

    open spec fn valid(m: EpochSchedule) -> bool {
        true
    }

    open spec fn encodable(m: EpochSchedule) -> bool {
        true
    }

    open spec fn fits(m: EpochSchedule) -> bool {
        true
    }

    fn encode(&self) -> (r: Result<Vec<u8>, SnapshotError>) {
        broadcast use lemma_fields_bytes_push;

        let mut out: Vec<u8> = Vec::new();
        put_varint_field(&mut out, 1, self.slots_per_epoch);
        put_varint_field(&mut out, 2, self.leader_schedule_slot_offset);
        put_bool_field(&mut out, 3, self.warmup);
        put_varint_field(&mut out, 4, self.first_normal_epoch);
        put_varint_field(&mut out, 5, self.first_normal_slot);
        assert(fields_bytes(Seq::<Field>::empty()) =~= Seq::<u8>::empty());
        assert(out@ =~= fields_bytes(Self::fields(self@)));
        Ok(out)
    }

    fn from_record(rec: &Record) -> (r: Result<EpochSchedule, SnapshotError>) {
        let slots_per_epoch = required(rec.varint(1))?;
        let leader_schedule_slot_offset = required(rec.varint(2))?;
        let warmup = required(get_flag(rec, 3))?;
        let first_normal_epoch = required(rec.varint(4))?;
        let first_normal_slot = required(rec.varint(5))?;
        Ok(
            EpochSchedule {
                slots_per_epoch,
                leader_schedule_slot_offset,
                warmup,
                first_normal_epoch,
                first_normal_slot,
            },
        )
    }

    proof fn lemma_fields_round_trip(m: EpochSchedule) {
        broadcast use lemma_matching_push, lemma_matching_empty;

    }

    open spec fn can_fail_with(e: SnapshotError) -> bool {
        e == SnapshotError::MalformedSnapshot
    }

    proof fn lemma_error_kinds(fs: Seq<Field>) {
    }

    proof fn lemma_decoded_valid(fs: Seq<Field>) {
    }
}

impl Codec for Rent {
    open spec fn kind_of(number: u32) -> Option<Kind> {
        if number == 1 || number == 3 {
            Some(Kind::Varint)
        } else if number == 2 {
            Some(Kind::Fixed64)
        } else {
            None
        }
    }

    fn kind(number: u32) -> (k: Option<Kind>) {
        if number == 1 || number == 3 {
            Some(Kind::Varint)
        } else if number == 2 {
            Some(Kind::Fixed64)
        } else {
            None
        }
    }

    open spec fn fields(m: Rent) -> Seq<Field> {
        Seq::empty()
            .push(varint_field(1, m.lamports_per_byte_year))
            .push(fixed64_field(2, m.exemption_threshold))
            .push(varint_field(3, m.burn_percent as u64))
    }

    /// Every field is required; the burn percentage must be at most 100.
    open spec fn of_fields(fs: Seq<Field>) -> Result<Rent, SnapshotError> {
        if last_varint(fs, 1) is Some && last_fixed64(fs, 2) is Some && last_bounded(
            fs,
            3,
            MAX_PERCENT,
        ) is Some {
            Ok(
                Rent {
                    lamports_per_byte_year: last_varint(fs, 1)->Some_0,
                    exemption_threshold: last_fixed64(fs, 2)->Some_0,
                    burn_percent: last_bounded(fs, 3, MAX_PERCENT)->Some_0 as u8,
                },
            )
        } else {
            Err(SnapshotError::MalformedSnapshot)
        }
    }

    open spec fn valid(m: Rent) -> bool {
        m.burn_percent <= MAX_PERCENT
    }

    open spec fn encodable(m: Rent) -> bool {
        true
    }

    open spec fn fits(m: Rent) -> bool {
        true
    }

    fn encode(&self) -> (r: Result<Vec<u8>, SnapshotError>) {
        broadcast use lemma_fields_bytes_push;

        let mut out: Vec<u8> = Vec::new();
        put_varint_field(&mut out, 1, self.lamports_per_byte_year);
        put_fixed64_field(&mut out, 2, self.exemption_threshold);
        put_varint_field(&mut out, 3, self.burn_percent as u64);
        assert(fields_bytes(Seq::<Field>::empty()) =~= Seq::<u8>::empty());
        assert(out@ =~= fields_bytes(Self::fields(self@)));
        Ok(out)
    }

    fn from_record(rec: &Record) -> (r: Result<Rent, SnapshotError>) {
        let lamports_per_byte_year = required(rec.varint(1))?;
        let exemption_threshold = required(rec.fixed64(2))?;
        let burn_percent = required(get_bounded(rec, 3, MAX_PERCENT))?;
        Ok(Rent { lamports_per_byte_year, exemption_threshold, burn_percent: burn_percent as u8 })
    }

    proof fn lemma_fields_round_trip(m: Rent) {
        broadcast use lemma_matching_push, lemma_matching_empty;

    }

    open spec fn can_fail_with(e: SnapshotError) -> bool {
        e == SnapshotError::MalformedSnapshot
    }

    proof fn lemma_error_kinds(fs: Seq<Field>) {
    }

    proof fn lemma_decoded_valid(fs: Seq<Field>) {
    }
}

impl Codec for RentCollector {
    open spec fn kind_of(number: u32) -> Option<Kind> {
        if number == 1 {
            Some(Kind::Varint)
        } else if number == 2 || number == 4 {
            Some(Kind::Bytes)
        } else if number == 3 {
            Some(Kind::Fixed64)
        } else {
            None
        }
    }

    fn kind(number: u32) -> (k: Option<Kind>) {
        if number == 1 {
            Some(Kind::Varint)
        } else if number == 2 || number == 4 {
            Some(Kind::Bytes)
        } else if number == 3 {
            Some(Kind::Fixed64)
        } else {
            None
        }
    }

    open spec fn fields(m: RentCollector) -> Seq<Field> {
        Seq::empty()
            .push(varint_field(1, m.epoch))
            .push(bytes_field(2, wire::<EpochSchedule>(m.epoch_schedule)))
            .push(fixed64_field(3, m.slots_per_year))
            .push(bytes_field(4, wire::<Rent>(m.rent)))
    }

    /// Every field is required. The schedule is decoded before the rent.
    open spec fn of_fields(fs: Seq<Field>) -> Result<RentCollector, SnapshotError> {
        if last_varint(fs, 1) is None || last_fixed64(fs, 3) is None {
            Err(SnapshotError::MalformedSnapshot)
        } else {
            match nested::<EpochSchedule>(fs, 2) {
                Err(e) => Err(e),
                Ok(epoch_schedule) => match nested::<Rent>(fs, 4) {
                    Err(e) => Err(e),
                    Ok(rent) => Ok(
                        RentCollector {
                            epoch: last_varint(fs, 1)->Some_0,
                            epoch_schedule,
                            slots_per_year: last_fixed64(fs, 3)->Some_0,
                            rent,
                        },
                    ),
                },
            }
        }
    }

    open spec fn valid(m: RentCollector) -> bool {
        EpochSchedule::valid(m.epoch_schedule) && Rent::valid(m.rent)
    }

    open spec fn encodable(m: RentCollector) -> bool {
        EpochSchedule::encodable(m.epoch_schedule) && Rent::encodable(m.rent)
    }

    open spec fn fits(m: RentCollector) -> bool {
        nested_fits::<EpochSchedule>(m.epoch_schedule) && nested_fits::<Rent>(m.rent)
    }

    fn encode(&self) -> (r: Result<Vec<u8>, SnapshotError>) {
        broadcast use lemma_fields_bytes_push;

        let mut out: Vec<u8> = Vec::new();
        put_varint_field(&mut out, 1, self.epoch);
        put_nested(&mut out, 2, &self.epoch_schedule)?;
        put_fixed64_field(&mut out, 3, self.slots_per_year);
        put_nested(&mut out, 4, &self.rent)?;
        assert(fields_bytes(Seq::<Field>::empty()) =~= Seq::<u8>::empty());
        assert(out@ =~= fields_bytes(Self::fields(self@)));
        Ok(out)
    }

    fn from_record(rec: &Record) -> (r: Result<RentCollector, SnapshotError>) {
        let epoch = required(rec.varint(1))?;
        let slots_per_year = required(rec.fixed64(3))?;
        let epoch_schedule = get_nested::<EpochSchedule>(rec, 2)?;
        let rent = get_nested::<Rent>(rec, 4)?;
        Ok(RentCollector { epoch, epoch_schedule, slots_per_year, rent })
    }

    proof fn lemma_fields_round_trip(m: RentCollector) {
        broadcast use lemma_matching_push, lemma_matching_empty;

        lemma_round_trip::<EpochSchedule>(m.epoch_schedule);
        lemma_round_trip::<Rent>(m.rent);
    }

    open spec fn can_fail_with(e: SnapshotError) -> bool {
        e == SnapshotError::MalformedSnapshot
    }

    proof fn lemma_error_kinds(fs: Seq<Field>) {
        lemma_nested_errors::<EpochSchedule>(fs, 2);
        lemma_nested_errors::<Rent>(fs, 4);
    }

    proof fn lemma_decoded_valid(fs: Seq<Field>) {
        lemma_parsed_valid::<EpochSchedule>(last_bytes(fs, 2)->Some_0);
        lemma_parsed_valid::<Rent>(last_bytes(fs, 4)->Some_0);
    }
}

} // verus!
