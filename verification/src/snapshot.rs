//! The snapshot: a ledger state under a schema version, as bytes.

use crate::bank::{lemma_bank_malformed_part_refused, Bank, BankView};
use crate::stakes::{Stakes, StakesView};
use crate::codec::{
    get_nested, lemma_malformed_fields_refused, lemma_nested_errors, lemma_parsed_valid,
    lemma_round_trip, nested, nested_fits, put_nested, wire, Codec,
};
use crate::equivalence::{equivalent, lemma_equivalent_reflexive};
use crate::error::SnapshotError;
use crate::reader::read_record;
use crate::wire::{
    bytes_field, fields_bytes, fields_ok, last_bytes, last_varint, lemma_fields_bytes_push,
    lemma_fields_round_trip, lemma_matching_empty, lemma_matching_insert, lemma_matching_push,
    lemma_only_kind_insert, only_kind, parse_fields, varint_field, Field, Kind,
};
use crate::writer::put_varint_field;
use vstd::prelude::*;

verus! {

/// The schema version that this codec writes, and the newest that it reads.
pub const SCHEMA_VERSION: u64 = 1;

/// The fields of a snapshot: the schema version, then the ledger state.
pub open spec fn snapshot_fields(m: BankView) -> Seq<Field> {
    Seq::empty().push(varint_field(1, SCHEMA_VERSION)).push(bytes_field(2, wire::<Bank>(m)))
}

/// The bytes of a snapshot.
pub open spec fn snapshot_bytes(m: BankView) -> Seq<u8> {
    fields_bytes(snapshot_fields(m))
}

/// What encoding a ledger state gives: its snapshot, or a range overflow
/// where one of its values is too wide for the wire.
pub open spec fn encode_snapshot(m: BankView) -> Result<Seq<u8>, SnapshotError> {
    if Bank::encodable(m) {
        Ok(snapshot_bytes(m))
    } else {
        Err(SnapshotError::RangeOverflow)
    }
}

/// The ledger state that the fields of a snapshot stand for. The version is
/// required and must be a varint; a version above [`SCHEMA_VERSION`] is
/// unsupported, whatever else the snapshot holds. After that, the ledger
/// state is required and must be a run of bytes.
pub open spec fn snapshot_of_fields(fs: Seq<Field>) -> Result<BankView, SnapshotError> {
    if !only_kind(fs, 1, Kind::Varint) {
        Err(SnapshotError::MalformedSnapshot)
    } else {
        match last_varint(fs, 1) {
            None => Err(SnapshotError::MalformedSnapshot),
            Some(v) => if v > SCHEMA_VERSION {
                Err(SnapshotError::UnsupportedVersion)
            } else if !only_kind(fs, 2, Kind::Bytes) {
                Err(SnapshotError::MalformedSnapshot)
            } else {
                nested::<Bank>(fs, 2)
            },
        }
    }
}

/// What decoding a run of bytes gives: the ledger state, or why there is
/// none. Bytes that are not a whole number of well-formed fields are a
/// malformed snapshot.
pub open spec fn parse_snapshot(s: Seq<u8>) -> Result<BankView, SnapshotError> {
    match parse_fields(s) {
        Some(fs) => snapshot_of_fields(fs),
        None => Err(SnapshotError::MalformedSnapshot),
    }
}

/// Every byte payload of the snapshot of this state is short enough for its
/// 64-bit length prefix. This holds of every state whose snapshot was built
/// in memory.
pub open spec fn representable(m: BankView) -> bool {
    nested_fits::<Bank>(m)
}

/// Encodes a frozen ledger state as a snapshot.
pub fn snapshot_bank(bank: &Bank) -> (r: Result<Vec<u8>, SnapshotError>)
    ensures
        match r {
            Ok(out) => encode_snapshot(bank@) == Ok::<Seq<u8>, SnapshotError>(out@)
                && representable(bank@),
            Err(e) => encode_snapshot(bank@) == Err::<Seq<u8>, SnapshotError>(e),
        },
{
    broadcast use lemma_fields_bytes_push;

    let mut out: Vec<u8> = Vec::new();
    put_varint_field(&mut out, 1, SCHEMA_VERSION);
    put_nested(&mut out, 2, bank)?;
    assert(fields_bytes(Seq::<Field>::empty()) =~= Seq::<u8>::empty());
    assert(out@ =~= snapshot_bytes(bank@));
    Ok(out)
}

/// Decodes a snapshot into a ledger state. The state that comes back is
/// valid and can be encoded again.
pub fn rebuild_bank(bytes: &[u8]) -> (r: Result<Bank, SnapshotError>)
    ensures
        match r {
            Ok(bank) => parse_snapshot(bytes@) == Ok::<BankView, SnapshotError>(bank@)
                && Bank::valid(bank@) && Bank::encodable(bank@),
            Err(e) => parse_snapshot(bytes@) == Err::<BankView, SnapshotError>(e) && e
                != SnapshotError::RangeOverflow,
        },
{
    proof {
        lemma_decoding_errors(bytes@);
    }
    let rec = match read_record(bytes) {
        Some(rec) => rec,
        None => {
            return Err(SnapshotError::MalformedSnapshot);
        },
    };
    if !rec.only_kind(1, Kind::Varint) {
        return Err(SnapshotError::MalformedSnapshot);
    }
    let version = match rec.varint(1) {
        Some(v) => v,
        None => {
            return Err(SnapshotError::MalformedSnapshot);
        },
    };
    if version > SCHEMA_VERSION {
        return Err(SnapshotError::UnsupportedVersion);
    }
    if !rec.only_kind(2, Kind::Bytes) {
        return Err(SnapshotError::MalformedSnapshot);
    }
    let bank = get_nested::<Bank>(&rec, 2)?;
    proof {
        lemma_parsed_valid::<Bank>(last_bytes(rec@, 2)->Some_0);
    }
    Ok(bank)
}

/// Decodes a snapshot and encodes what was decoded: the snapshot in the
/// form in which this codec writes it, without the fields that the schema
/// does not know. It fails exactly where decoding fails, and what comes back
/// decodes to the same ledger state as the input.
pub fn normalize_snapshot(bytes: &[u8]) -> (r: Result<Vec<u8>, SnapshotError>)
    ensures
        match r {
            Ok(out) => parse_snapshot(bytes@) is Ok && parse_snapshot(out@) == parse_snapshot(
                bytes@,
            ) && encode_snapshot(parse_snapshot(bytes@)->Ok_0) == Ok::<Seq<u8>, SnapshotError>(
                out@,
            ),
            Err(e) => parse_snapshot(bytes@) == Err::<BankView, SnapshotError>(e),
        },
{
    let bank = rebuild_bank(bytes)?;
    // what was decoded can be encoded: this never fails
    let out = snapshot_bank(&bank)?;
    proof {
        lemma_snapshot_round_trip(bank@);
    }
    Ok(out)
}

/// Round trip: the snapshot of a valid ledger state decodes to that state.
pub proof fn lemma_snapshot_round_trip(m: BankView)
    requires
        Bank::valid(m),
        representable(m),
        encode_snapshot(m) is Ok,
    ensures
        parse_snapshot(encode_snapshot(m)->Ok_0) == Ok::<BankView, SnapshotError>(m),
{
    broadcast use lemma_matching_push, lemma_matching_empty;

    let fs = snapshot_fields(m);
    assert(fields_ok(fs));
    lemma_fields_round_trip(fs);
    lemma_round_trip::<Bank>(m);
}

/// Round trip, by meaning: the snapshot of a valid ledger state decodes to
/// an equivalent state.
pub proof fn lemma_snapshot_round_trip_equivalent(m: BankView)
    requires
        Bank::valid(m),
        representable(m),
        encode_snapshot(m) is Ok,
    ensures
        parse_snapshot(encode_snapshot(m)->Ok_0) is Ok,
        equivalent(parse_snapshot(encode_snapshot(m)->Ok_0)->Ok_0, m),
{
    lemma_snapshot_round_trip(m);
    lemma_equivalent_reflexive(m);
}

/// What the decoder accepts is a valid ledger state that can be encoded.
pub proof fn lemma_decoded_snapshot_valid(s: Seq<u8>)
    requires
        parse_snapshot(s) is Ok,
    ensures
        Bank::valid(parse_snapshot(s)->Ok_0),
        encode_snapshot(parse_snapshot(s)->Ok_0) is Ok,
{
    let fs = parse_fields(s)->Some_0;
    lemma_parsed_valid::<Bank>(last_bytes(fs, 2)->Some_0);
}

/// Re-encoding: where the decoder accepts bytes, it also accepts the
/// snapshot of the state that it decoded, and decodes it to the same state.
pub proof fn lemma_reencode_stable(s: Seq<u8>)
    requires
        parse_snapshot(s) is Ok,
        representable(parse_snapshot(s)->Ok_0),
    ensures
        encode_snapshot(parse_snapshot(s)->Ok_0) is Ok,
        parse_snapshot(encode_snapshot(parse_snapshot(s)->Ok_0)->Ok_0) == parse_snapshot(s),
{
    lemma_decoded_snapshot_valid(s);
    lemma_snapshot_round_trip(parse_snapshot(s)->Ok_0);
}

/// Narrowing: a state whose nanoseconds per slot need more than 64 bits is
/// refused with a range overflow.
pub proof fn lemma_wide_duration_refused(m: BankView)
    requires
        m.header.ns_per_slot > u64::MAX,
    ensures
        encode_snapshot(m) == Err::<Seq<u8>, SnapshotError>(SnapshotError::RangeOverflow),
{
}

/// A snapshot that declares a newer schema version is unsupported, whatever
/// else it holds.
pub proof fn lemma_newer_version_unsupported(fs: Seq<Field>)
    requires
        only_kind(fs, 1, Kind::Varint),
        last_varint(fs, 1) matches Some(v) && v > SCHEMA_VERSION,
    ensures
        snapshot_of_fields(fs) == Err::<BankView, SnapshotError>(
            SnapshotError::UnsupportedVersion,
        ),
{
}

/// Forward compatibility: a top-level field under a number that the schema
/// does not use, wherever it stands, changes nothing of what a snapshot
/// stands for.
pub proof fn lemma_unknown_field_ignored(a: Seq<Field>, f: Field, b: Seq<Field>)
    requires
        f.number > 2,
    ensures
        snapshot_of_fields(a.push(f) + b) == snapshot_of_fields(a + b),
{
    broadcast use lemma_matching_insert;

    lemma_only_kind_insert(a, f, b, 1, Kind::Varint);
    lemma_only_kind_insert(a, f, b, 2, Kind::Bytes);
    assert(last_varint(a.push(f) + b, 1) == last_varint(a + b, 1));
    assert(last_bytes(a.push(f) + b, 2) == last_bytes(a + b, 2));
}

/// Decoding refuses with one of three errors, never with a range overflow.
pub proof fn lemma_decoding_errors(s: Seq<u8>)
    ensures
        parse_snapshot(s) matches Err(e) ==> e == SnapshotError::MalformedSnapshot || e
            == SnapshotError::InvariantViolation || e == SnapshotError::UnsupportedVersion,
{
    if parse_fields(s) is Some {
        lemma_nested_errors::<Bank>(parse_fields(s)->Some_0, 2);
    }
}

/// A snapshot of a supported version whose ledger state is malformed is a
/// malformed snapshot.
pub proof fn lemma_malformed_bank_refused(fs: Seq<Field>)
    requires
        only_kind(fs, 1, Kind::Varint),
        last_varint(fs, 1) matches Some(v) && v <= SCHEMA_VERSION,
        nested::<Bank>(fs, 2) == Err::<BankView, SnapshotError>(SnapshotError::MalformedSnapshot),
    ensures
        snapshot_of_fields(fs) == Err::<BankView, SnapshotError>(SnapshotError::MalformedSnapshot),
{
}

/// Structure before invariants, from the bytes down: a snapshot of a
/// supported version whose stake bundle is malformed (a key that occurs
/// twice, a key that is not 32 bytes long, an entry that does not decode) is
/// a malformed snapshot, whatever its queue holds.
pub proof fn lemma_malformed_stakes_refused(s: Seq<u8>)
    requires
        parse_fields(s) is Some,
        ({
            let fs = parse_fields(s)->Some_0;
            &&& only_kind(fs, 1, Kind::Varint)
            &&& last_varint(fs, 1) matches Some(v) && v <= SCHEMA_VERSION
            &&& last_bytes(fs, 2) is Some
            &&& parse_fields(last_bytes(fs, 2)->Some_0) is Some
        }),
        ({
            let bank_fields = parse_fields(last_bytes(parse_fields(s)->Some_0, 2)->Some_0)->Some_0;
            &&& last_bytes(bank_fields, 10) is Some
            &&& parse_fields(last_bytes(bank_fields, 10)->Some_0) is Some
            &&& Stakes::of_fields(parse_fields(last_bytes(bank_fields, 10)->Some_0)->Some_0)
                == Err::<StakesView, SnapshotError>(SnapshotError::MalformedSnapshot)
        }),
    ensures
        parse_snapshot(s) == Err::<BankView, SnapshotError>(SnapshotError::MalformedSnapshot),
{
    let fs = parse_fields(s)->Some_0;
    let bank_bytes = last_bytes(fs, 2)->Some_0;
    let bank_fields = parse_fields(bank_bytes)->Some_0;
    let stakes_bytes = last_bytes(bank_fields, 10)->Some_0;
    lemma_malformed_fields_refused::<Stakes>(stakes_bytes);
    lemma_bank_malformed_part_refused(bank_fields);
    lemma_malformed_fields_refused::<Bank>(bank_bytes);
}

} // verus!
