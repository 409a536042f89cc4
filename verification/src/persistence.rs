//! What an incremental snapshot records of itself and of the full snapshot
//! that it is layered on.

use crate::codec::Codec;
use crate::error::SnapshotError;
use crate::key::{get_key, last_key, lemma_key_round_trip, put_key_field, wrong_length, Key};
use crate::reader::Record;
use crate::scalar::required;
use crate::wire::{
    bytes_field, fields_bytes, last_varint, lemma_fields_bytes_push, lemma_matching_empty,
    lemma_matching_push, varint_field, Field, Kind,
};
use crate::writer::put_varint_field;
use vstd::prelude::*;

verus! {

/// Slot, content hash and capitalization of the full snapshot, and the same
/// three of the incremental layer. A snapshot without this record is a full
/// one.
#[derive(Clone, Copy, Debug, PartialEq, Eq)]
pub struct IncrementalSnapshotPersistence {
    pub full_slot: u64,
    pub full_hash: Key,
    pub full_capitalization: u64,
    pub incremental_slot: u64,
    pub incremental_hash: Key,
    pub incremental_capitalization: u64,
}

impl View for IncrementalSnapshotPersistence {
    type V = IncrementalSnapshotPersistence;

    open spec fn view(&self) -> IncrementalSnapshotPersistence {
        *self
    }
}

impl Codec for IncrementalSnapshotPersistence {
    open spec fn kind_of(number: u32) -> Option<Kind> {
        if number == 1 || number == 3 || number == 4 || number == 6 {
            Some(Kind::Varint)
        } else if number == 2 || number == 5 {
            Some(Kind::Bytes)
        } else {
            None
        }
    }

    fn kind(number: u32) -> (k: Option<Kind>) {
        if number == 1 || number == 3 || number == 4 || number == 6 {
            Some(Kind::Varint)
        } else if number == 2 || number == 5 {
            Some(Kind::Bytes)
        } else {
            None
        }
    }

    open spec fn fields(m: IncrementalSnapshotPersistence) -> Seq<Field> {
        Seq::empty()
            .push(varint_field(1, m.full_slot))
            .push(bytes_field(2, m.full_hash.bytes()))
            .push(varint_field(3, m.full_capitalization))
            .push(varint_field(4, m.incremental_slot))
            .push(bytes_field(5, m.incremental_hash.bytes()))
            .push(varint_field(6, m.incremental_capitalization))
    }

    /// Every field is required; both hashes must have 32 bytes.
    open spec fn of_fields(fs: Seq<Field>) -> Result<
        IncrementalSnapshotPersistence,
        SnapshotError,
    > {
        if last_varint(fs, 1) is Some && last_key(fs, 2) is Some && last_varint(fs, 3) is Some
            && last_varint(fs, 4) is Some && last_key(fs, 5) is Some && last_varint(fs, 6) is Some {
            Ok(
                IncrementalSnapshotPersistence {
                    full_slot: last_varint(fs, 1)->Some_0,
                    full_hash: last_key(fs, 2)->Some_0,
                    full_capitalization: last_varint(fs, 3)->Some_0,
                    incremental_slot: last_varint(fs, 4)->Some_0,
                    incremental_hash: last_key(fs, 5)->Some_0,
                    incremental_capitalization: last_varint(fs, 6)->Some_0,
                },
            )
        } else {
            Err(SnapshotError::MalformedSnapshot)
        }
    }

    open spec fn valid(m: IncrementalSnapshotPersistence) -> bool {
        true
    }

    open spec fn encodable(m: IncrementalSnapshotPersistence) -> bool {
        true
    }

    open spec fn fits(m: IncrementalSnapshotPersistence) -> bool {
        true
    }

    fn encode(&self) -> (r: Result<Vec<u8>, SnapshotError>) {
        broadcast use lemma_fields_bytes_push;

        let mut out: Vec<u8> = Vec::new();
        put_varint_field(&mut out, 1, self.full_slot);
        put_key_field(&mut out, 2, &self.full_hash);
        put_varint_field(&mut out, 3, self.full_capitalization);
        put_varint_field(&mut out, 4, self.incremental_slot);
        put_key_field(&mut out, 5, &self.incremental_hash);
        put_varint_field(&mut out, 6, self.incremental_capitalization);
        assert(fields_bytes(Seq::<Field>::empty()) =~= Seq::<u8>::empty());
        assert(out@ =~= fields_bytes(Self::fields(self@)));
        Ok(out)
    }

    fn from_record(rec: &Record) -> (r: Result<IncrementalSnapshotPersistence, SnapshotError>) {
        let full_slot = required(rec.varint(1))?;
        let full_hash = required(get_key(rec, 2))?;
        let full_capitalization = required(rec.varint(3))?;
        let incremental_slot = required(rec.varint(4))?;
        let incremental_hash = required(get_key(rec, 5))?;
        let incremental_capitalization = required(rec.varint(6))?;
        Ok(
            IncrementalSnapshotPersistence {
                full_slot,
                full_hash,
                full_capitalization,
                incremental_slot,
                incremental_hash,
                incremental_capitalization,
            },
        )
    }

    proof fn lemma_fields_round_trip(m: IncrementalSnapshotPersistence) {
        broadcast use lemma_matching_push, lemma_matching_empty;

        lemma_key_round_trip(m.full_hash);
        lemma_key_round_trip(m.incremental_hash);
    }

    open spec fn can_fail_with(e: SnapshotError) -> bool {
        e == SnapshotError::MalformedSnapshot
    }

    proof fn lemma_error_kinds(fs: Seq<Field>) {
    }

    proof fn lemma_decoded_valid(fs: Seq<Field>) {
    }
}

/// Key length: a hash that is not 32 bytes long makes the record a
/// malformed snapshot.
pub proof fn lemma_persistence_key_length(fs: Seq<Field>)
    requires
        wrong_length(fs, 2) || wrong_length(fs, 5),
    ensures
        IncrementalSnapshotPersistence::of_fields(fs) == Err::<
            IncrementalSnapshotPersistence,
            SnapshotError,
        >(SnapshotError::MalformedSnapshot),
{
}

} // verus!
