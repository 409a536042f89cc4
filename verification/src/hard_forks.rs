//! Hard forks.

use crate::codec::Codec;
use crate::error::SnapshotError;
use crate::reader::Record;
use crate::scalar::required;
use crate::wire::{
    fields_bytes, last_varint, lemma_fields_bytes_push, lemma_matching_empty,
    lemma_matching_push, varint_field, Field, Kind,
};
use crate::writer::put_varint_field;
use vstd::prelude::*;

verus! {

/// One entry of the hard-fork list: a slot and its activation count. The
/// list keeps the order in which the forks were registered.
#[derive(Clone, Copy, Debug, PartialEq, Eq)]
pub struct HardFork {
    pub slot: u64,
    pub count: u64,
}

impl View for HardFork {
    type V = HardFork;

    open spec fn view(&self) -> HardFork {
        *self
    }
}

impl Codec for HardFork {
    open spec fn kind_of(number: u32) -> Option<Kind> {
        if number == 1 || number == 2 {
            Some(Kind::Varint)
        } else {
            None
        }
    }

    fn kind(number: u32) -> (k: Option<Kind>) {
        if number == 1 || number == 2 {
            Some(Kind::Varint)
        } else {
            None
        }
    }

    open spec fn fields(m: HardFork) -> Seq<Field> {
        Seq::empty().push(varint_field(1, m.slot)).push(varint_field(2, m.count))
    }

    /// Both fields are required.
    open spec fn of_fields(fs: Seq<Field>) -> Result<HardFork, SnapshotError> {
        if last_varint(fs, 1) is Some && last_varint(fs, 2) is Some {
            Ok(HardFork { slot: last_varint(fs, 1)->Some_0, count: last_varint(fs, 2)->Some_0 })
        } else {
            Err(SnapshotError::MalformedSnapshot)
        }
    }

    open spec fn valid(m: HardFork) -> bool {
        true
    }

    open spec fn encodable(m: HardFork) -> bool {
        true
    }

    open spec fn fits(m: HardFork) -> bool {
        true
    }

    fn encode(&self) -> (r: Result<Vec<u8>, SnapshotError>) {
        broadcast use lemma_fields_bytes_push;

        let mut out: Vec<u8> = Vec::new();
        put_varint_field(&mut out, 1, self.slot);
        put_varint_field(&mut out, 2, self.count);
        assert(fields_bytes(Seq::<Field>::empty()) =~= Seq::<u8>::empty());
        assert(out@ =~= fields_bytes(Self::fields(self@)));
        Ok(out)
    }

    fn from_record(rec: &Record) -> (r: Result<HardFork, SnapshotError>) {
        let slot = required(rec.varint(1))?;
        let count = required(rec.varint(2))?;
        Ok(HardFork { slot, count })
    }

    proof fn lemma_fields_round_trip(m: HardFork) {
        broadcast use lemma_matching_push, lemma_matching_empty;

    }

    open spec fn can_fail_with(e: SnapshotError) -> bool {
        e == SnapshotError::MalformedSnapshot
    }

    proof fn lemma_error_kinds(fs: Seq<Field>) {
    }

    proof fn lemma_decoded_valid(fs: Seq<Field>) {
    }
}

} // verus!
