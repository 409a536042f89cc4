//! Inflation parameters.

use crate::codec::Codec;
use crate::error::SnapshotError;
use crate::reader::Record;
use crate::scalar::required;
use crate::wire::{
    fields_bytes, fixed64_field, last_fixed64, lemma_fields_bytes_push, lemma_matching_empty,
    lemma_matching_push, Field, Kind,
};
use crate::writer::put_fixed64_field;
use vstd::prelude::*;

verus! {

/// The five parameters of the inflation curve, each the bit pattern of a
/// binary64 number. The codec carries them through unchanged.
#[derive(Clone, Copy, Debug, PartialEq, Eq)]
pub struct Inflation {
    pub initial: u64,
    pub terminal: u64,
    pub taper: u64,
    pub foundation: u64,
    pub foundation_term: u64,
}

impl View for Inflation {
    type V = Inflation;

    open spec fn view(&self) -> Inflation {
        *self
    }
}

impl Codec for Inflation {
    open spec fn kind_of(number: u32) -> Option<Kind> {
        if (1 <= number && number <= 5) {
            Some(Kind::Fixed64)
        } else {
            None
        }
    }

    fn kind(number: u32) -> (k: Option<Kind>) {
        if (1 <= number && number <= 5) {
            Some(Kind::Fixed64)
        } else {
            None
        }
    }

    open spec fn fields(m: Inflation) -> Seq<Field> {
        Seq::empty()
            .push(fixed64_field(1, m.initial))
            .push(fixed64_field(2, m.terminal))
            .push(fixed64_field(3, m.taper))
            .push(fixed64_field(4, m.foundation))
            .push(fixed64_field(5, m.foundation_term))
    }

    /// Every field is required.
    open spec fn of_fields(fs: Seq<Field>) -> Result<Inflation, SnapshotError> {
        if last_fixed64(fs, 1) is Some && last_fixed64(fs, 2) is Some && last_fixed64(fs, 3) is Some
            && last_fixed64(fs, 4) is Some && last_fixed64(fs, 5) is Some {
            Ok(
                Inflation {
                    initial: last_fixed64(fs, 1)->Some_0,
                    terminal: last_fixed64(fs, 2)->Some_0,
                    taper: last_fixed64(fs, 3)->Some_0,
                    foundation: last_fixed64(fs, 4)->Some_0,
                    foundation_term: last_fixed64(fs, 5)->Some_0,
                },
            )
        } else {
            Err(SnapshotError::MalformedSnapshot)
        }
    }

    open spec fn valid(m: Inflation) -> bool {
        true
    }

    open spec fn encodable(m: Inflation) -> bool {
        true
    }

    open spec fn fits(m: Inflation) -> bool {
        true
    }

    fn encode(&self) -> (r: Result<Vec<u8>, SnapshotError>) {
        broadcast use lemma_fields_bytes_push;

        let mut out: Vec<u8> = Vec::new();
        put_fixed64_field(&mut out, 1, self.initial);
        put_fixed64_field(&mut out, 2, self.terminal);
        put_fixed64_field(&mut out, 3, self.taper);
        put_fixed64_field(&mut out, 4, self.foundation);
        put_fixed64_field(&mut out, 5, self.foundation_term);
        assert(fields_bytes(Seq::<Field>::empty()) =~= Seq::<u8>::empty());
        assert(out@ =~= fields_bytes(Self::fields(self@)));
        Ok(out)
    }

    fn from_record(rec: &Record) -> (r: Result<Inflation, SnapshotError>) {
        let initial = required(rec.fixed64(1))?;
        let terminal = required(rec.fixed64(2))?;
        let taper = required(rec.fixed64(3))?;
        let foundation = required(rec.fixed64(4))?;
        let foundation_term = required(rec.fixed64(5))?;
        Ok(Inflation { initial, terminal, taper, foundation, foundation_term })
    }

    proof fn lemma_fields_round_trip(m: Inflation) {
        broadcast use lemma_matching_push, lemma_matching_empty;

    }

    open spec fn can_fail_with(e: SnapshotError) -> bool {
        e == SnapshotError::MalformedSnapshot
    }

    proof fn lemma_error_kinds(fs: Seq<Field>) {
    }

    proof fn lemma_decoded_valid(fs: Seq<Field>) {
    }
}

} // verus!
