//! What every record type of the snapshot offers: its fields, its encoder,
//! its decoder, and the proof that decoding undoes encoding.

use crate::error::SnapshotError;
use crate::key::Key;
use crate::reader::{read_record, slices_view, Record};
use crate::repeat::{chunks_view, distinct_keys, put_repeated};
use crate::wire::{
    all_bytes, bytes_field, fields_bytes, last_bytes, lemma_fields_round_trip, opt_bytes,
    conforms, opt_bytes_field, parse_fields, repeated_bytes, Field, Kind, MAX_FIELD_NUMBER,
};
use crate::writer::put_bytes_field;
use vstd::prelude::*;

verus! {

/// A record type of the snapshot. `Self::V` is its mathematical content.
pub trait Codec: View + Sized {
    /// The kind of payload that the schema gives a field number, or `None`
    /// where the schema does not use the number.
    spec fn kind_of(number: u32) -> Option<Kind>;

    /// The kind of payload that the schema gives a field number.
    fn kind(number: u32) -> (k: Option<Kind>)
        ensures
            k == Self::kind_of(number),
    ;

    /// The fields that the content is written as.
    spec fn fields(m: Self::V) -> Seq<Field>;

    /// The content that a list of fields stands for, or why there is none.
    /// It is asked of fields that have the kinds of the schema only.
    spec fn of_fields(fs: Seq<Field>) -> Result<Self::V, SnapshotError>;

    /// The content meets the domain rules that the decoder enforces.
    spec fn valid(m: Self::V) -> bool;

    /// Every value of the content is within the width of its wire field.
    spec fn encodable(m: Self::V) -> bool;

    /// Every byte payload written for the content is short enough for its
    /// 64-bit length prefix.
    spec fn fits(m: Self::V) -> bool;

    /// Encodes the record. Fails only where a value is too wide for the wire.
    fn encode(&self) -> (r: Result<Vec<u8>, SnapshotError>)
        ensures
            match r {
                Ok(out) => Self::encodable(self@) && Self::fits(self@) && out@ == fields_bytes(
                    Self::fields(self@),
                ),
                Err(e) => !Self::encodable(self@) && e == SnapshotError::RangeOverflow,
            },
    ;

    /// Rebuilds the record from its fields.
    fn from_record(rec: &Record) -> (r: Result<Self, SnapshotError>)
        ensures
            match r {
                Ok(x) => Self::of_fields(rec@) == Ok::<Self::V, SnapshotError>(x@),
                Err(e) => Self::of_fields(rec@) == Err::<Self::V, SnapshotError>(e),
            },
    ;

    /// The fields of valid content are read back as that content.
    proof fn lemma_fields_round_trip(m: Self::V)
        requires
            Self::valid(m),
            Self::encodable(m),
            Self::fits(m),
        ensures
            crate::wire::fields_ok(Self::fields(m)),
            forall|i: int|
                0 <= i < Self::fields(m).len() ==> conforms(
                    Self::kind_of((#[trigger] Self::fields(m)[i]).number),
                    Self::fields(m)[i],
                ),
            Self::of_fields(Self::fields(m)) == Ok::<Self::V, SnapshotError>(m),
    ;

    /// The errors with which the decoder of this record type refuses fields.
    spec fn can_fail_with(e: SnapshotError) -> bool;

    /// The decoder refuses with no other error than those.
    proof fn lemma_error_kinds(fs: Seq<Field>)
        requires
            Self::of_fields(fs) is Err,
        ensures
            Self::can_fail_with(Self::of_fields(fs)->Err_0),
    ;

    /// What the decoder accepts is valid and can be encoded again.
    proof fn lemma_decoded_valid(fs: Seq<Field>)
        requires
            Self::of_fields(fs) is Ok,
        ensures
            Self::valid(Self::of_fields(fs)->Ok_0),
            Self::encodable(Self::of_fields(fs)->Ok_0),
    ;
}

/// The bytes that the content is written as.
#[verifier::opaque]
pub open spec fn wire<T: Codec>(m: T::V) -> Seq<u8> {
    fields_bytes(T::fields(m))
}

/// Every field under a number that the schema uses has the kind that the
/// schema gives it. Fields under other numbers are free.
pub open spec fn typed<T: Codec>(fs: Seq<Field>) -> bool {
    forall|i: int| 0 <= i < fs.len() ==> conforms(T::kind_of((#[trigger] fs[i]).number), fs[i])
}

/// The content that a run of bytes stands for, or why there is none. Bytes
/// that are not a whole number of well-formed fields, and a field of
/// another kind than the schema gives its number, are a malformed snapshot.
#[verifier::opaque]
pub open spec fn parse<T: Codec>(s: Seq<u8>) -> Result<T::V, SnapshotError> {
    match parse_fields(s) {
        Some(fs) => if typed::<T>(fs) {
            T::of_fields(fs)
        } else {
            Err(SnapshotError::MalformedSnapshot)
        },
        None => Err(SnapshotError::MalformedSnapshot),
    }
}

/// Bytes that do not decode are malformed, or refused with one of the
/// errors of their record type.
pub proof fn lemma_parse_errors<T: Codec>(s: Seq<u8>)
    ensures
        parse::<T>(s) matches Err(e) ==> e == SnapshotError::MalformedSnapshot || T::can_fail_with(
            e,
        ),
{
    reveal(parse);
    if parse_fields(s) is Some {
        let fs = parse_fields(s)->Some_0;
        if typed::<T>(fs) && T::of_fields(fs) is Err {
            T::lemma_error_kinds(fs);
        }
    }
}

/// Whether a record has the kinds of the schema does not depend on a field
/// under a number that the schema does not use, wherever the field stands.
pub proof fn lemma_typed_insert<T: Codec>(a: Seq<Field>, f: Field, b: Seq<Field>)
    requires
        T::kind_of(f.number) is None,
    ensures
        typed::<T>(a.push(f) + b) == typed::<T>(a + b),
{
    let g = a.push(f) + b;
    let h = a + b;
    if typed::<T>(g) {
        assert forall|i: int| 0 <= i < h.len() implies conforms(
            T::kind_of((#[trigger] h[i]).number),
            h[i],
        ) by {
            if i < a.len() {
                assert(g[i] == h[i]);
            } else {
                assert(g[i + 1] == h[i]);
            }
        }
    }
    if typed::<T>(h) {
        assert forall|i: int| 0 <= i < g.len() implies conforms(
            T::kind_of((#[trigger] g[i]).number),
            g[i],
        ) by {
            if i < a.len() {
                assert(g[i] == h[i]);
            } else if i > a.len() {
                assert(g[i] == h[i - 1]);
            }
        }
    }
}

/// Bytes whose fields are malformed are malformed.
pub proof fn lemma_malformed_fields_refused<T: Codec>(s: Seq<u8>)
    requires
        parse_fields(s) is Some,
        T::of_fields(parse_fields(s)->Some_0) == Err::<T::V, SnapshotError>(
            SnapshotError::MalformedSnapshot,
        ),
    ensures
        parse::<T>(s) == Err::<T::V, SnapshotError>(SnapshotError::MalformedSnapshot),
{
    reveal(parse);
}

/// Whether every field under a number of the schema has the kind that the
/// schema gives it.
pub fn has_schema_kinds<T: Codec>(rec: &Record) -> (r: bool)
    ensures
        r == typed::<T>(rec@),
{
    let n: usize = rec.entries.len();
    let mut i: usize = 0;
    while i < n
        invariant
            n == rec.entries@.len(),
            i <= n,
            forall|j: int|
                0 <= j < i ==> conforms(T::kind_of((#[trigger] rec@[j]).number), rec@[j]),
        decreases n - i,
    {
        let e = rec.entries[i];
        match T::kind(e.number) {
            Some(k) => {
                if e.value.kind() != k {
                    assert(!conforms(T::kind_of(rec@[i as int].number), rec@[i as int]));
                    return false;
                }
            },
            None => {},
        }
        i = i + 1;
    }
    true
}

/// Decoding undoes encoding.
pub proof fn lemma_round_trip<T: Codec>(m: T::V)
    requires
        T::valid(m),
        T::encodable(m),
        T::fits(m),
    ensures
        parse::<T>(wire::<T>(m)) == Ok::<T::V, SnapshotError>(m),
{
    reveal(wire);
    reveal(parse);
    T::lemma_fields_round_trip(m);
    lemma_fields_round_trip(T::fields(m));
}

/// Decodes a record from its bytes.
pub fn decode<T: Codec>(bytes: &[u8]) -> (r: Result<T, SnapshotError>)
    ensures
        match r {
            Ok(x) => parse::<T>(bytes@) == Ok::<T::V, SnapshotError>(x@),
            Err(e) => parse::<T>(bytes@) == Err::<T::V, SnapshotError>(e),
        },
{
    reveal(parse);
    match read_record(bytes) {
        Some(rec) => if has_schema_kinds::<T>(&rec) {
            T::from_record(&rec)
        } else {
            Err(SnapshotError::MalformedSnapshot)
        },
        None => Err(SnapshotError::MalformedSnapshot),
    }
}

// ---------------------------------------------------------------------------
// Sequences of records

/// The contents of a list of records.
pub open spec fn models<T: Codec>(xs: Seq<T>) -> Seq<T::V> {
    Seq::new(xs.len(), |i: int| xs[i]@)
}

/// The encodings of a list of contents, in order.
pub open spec fn wires<T: Codec>(ms: Seq<T::V>) -> Seq<Seq<u8>> {
    Seq::new(ms.len(), |i: int| wire::<T>(ms[i]))
}

/// Every item is valid.
pub open spec fn all_valid<T: Codec>(ms: Seq<T::V>) -> bool {
    forall|i: int| 0 <= i < ms.len() ==> T::valid(#[trigger] ms[i])
}

/// Every item can be encoded.
pub open spec fn all_encodable<T: Codec>(ms: Seq<T::V>) -> bool {
    forall|i: int| 0 <= i < ms.len() ==> T::encodable(#[trigger] ms[i])
}

/// Every item, and its encoding, is short enough for a length prefix.
pub open spec fn all_fit<T: Codec>(ms: Seq<T::V>) -> bool {
    forall|i: int|
        0 <= i < ms.len() ==> T::fits(#[trigger] ms[i]) && wire::<T>(ms[i]).len() <= u64::MAX
}

/// Decodes every item in order. The first item that fails decides the error.
pub open spec fn parse_all<T: Codec>(items: Seq<Seq<u8>>) -> Result<Seq<T::V>, SnapshotError>
    decreases items.len(),
{
    if items.len() == 0 {
        Ok(Seq::empty())
    } else {
        match parse_all::<T>(items.drop_last()) {
            Err(e) => Err(e),
            Ok(init) => match parse::<T>(items.last()) {
                Ok(x) => Ok(init.push(x)),
                Err(e) => Err(e),
            },
        }
    }
}

/// Decoding one more item extends the result by it.
pub proof fn lemma_parse_all_step<T: Codec>(items: Seq<Seq<u8>>, i: int)
    requires
        0 <= i < items.len(),
    ensures
        parse_all::<T>(items.take(i + 1)) == match parse_all::<T>(items.take(i)) {
            Err(e) => Err(e),
            Ok(init) => match parse::<T>(items[i]) {
                Ok(x) => Ok(init.push(x)),
                Err(e) => Err(e),
            },
        },
{
    assert(items.take(i + 1).drop_last() =~= items.take(i));
    assert(items.take(i + 1).last() == items[i]);
}

/// An error among the first items is the error of the whole sequence.
pub proof fn lemma_parse_all_err<T: Codec>(items: Seq<Seq<u8>>, i: int)
    requires
        0 <= i <= items.len(),
        parse_all::<T>(items.take(i)) is Err,
    ensures
        parse_all::<T>(items) == parse_all::<T>(items.take(i)),
    decreases items.len() - i,
{
    if i == items.len() {
        assert(items.take(i) =~= items);
    } else {
        lemma_parse_all_step::<T>(items, i);
        lemma_parse_all_err::<T>(items, i + 1);
    }
}

/// Where all items decode, the result has one valid entry per item.
pub proof fn lemma_parse_all_ok<T: Codec>(items: Seq<Seq<u8>>)
    requires
        parse_all::<T>(items) is Ok,
    ensures
        parse_all::<T>(items)->Ok_0.len() == items.len(),
        forall|i: int|
            0 <= i < items.len() ==> parse::<T>(#[trigger] items[i]) == Ok::<T::V, SnapshotError>(
                parse_all::<T>(items)->Ok_0[i],
            ),
        all_valid::<T>(parse_all::<T>(items)->Ok_0),
        all_encodable::<T>(parse_all::<T>(items)->Ok_0),
    decreases items.len(),
{
    if items.len() > 0 {
        lemma_parse_all_ok::<T>(items.drop_last());
        let out = parse_all::<T>(items)->Ok_0;
        let init = parse_all::<T>(items.drop_last())->Ok_0;
        assert forall|i: int| 0 <= i < items.len() implies parse::<T>(#[trigger] items[i]) == Ok::<
            T::V,
            SnapshotError,
        >(out[i]) by {
            if i < items.len() - 1 {
                assert(items.drop_last()[i] == items[i]);
            }
        }
        reveal(parse);
        T::lemma_decoded_valid(parse_fields(items.last())->Some_0);
        assert forall|i: int| 0 <= i < out.len() implies T::valid(#[trigger] out[i])
            && T::encodable(out[i]) by {
            if i < out.len() - 1 {
                assert(out[i] == init[i]);
            }
        }
    }
}

/// Decoding the encodings of a sequence gives the sequence back.
pub proof fn lemma_parse_all_round_trip<T: Codec>(ms: Seq<T::V>)
    requires
        all_valid::<T>(ms),
        all_encodable::<T>(ms),
        all_fit::<T>(ms),
    ensures
        parse_all::<T>(wires::<T>(ms)) == Ok::<Seq<T::V>, SnapshotError>(ms),
    decreases ms.len(),
{
    let items = wires::<T>(ms);
    if ms.len() == 0 {
        assert(ms =~= Seq::<T::V>::empty());
    } else {
        let init = ms.drop_last();
        assert(all_valid::<T>(init) && all_encodable::<T>(init) && all_fit::<T>(init)) by {
            assert forall|i: int| 0 <= i < init.len() implies T::valid(#[trigger] init[i])
                && T::encodable(init[i]) && T::fits(init[i]) && wire::<T>(init[i]).len()
                <= u64::MAX by {
                assert(init[i] == ms[i]);
            }
        }
        lemma_parse_all_round_trip::<T>(init);
        assert(items.drop_last() =~= wires::<T>(init));
        assert(items.last() == wire::<T>(ms.last()));
        lemma_round_trip::<T>(ms.last());
        assert(init.push(ms.last()) =~= ms);
    }
}

/// Encodes every record of a list. Fails where one of them cannot be encoded.
pub fn encode_all<T: Codec>(xs: &Vec<T>) -> (r: Result<Vec<Vec<u8>>, SnapshotError>)
    ensures
        match r {
            Ok(chunks) => all_encodable::<T>(models(xs@)) && all_fit::<T>(models(xs@))
                && chunks_view(chunks@) == wires::<T>(models(xs@)),
            Err(e) => !all_encodable::<T>(models(xs@)) && e == SnapshotError::RangeOverflow,
        },
{
    reveal(wire);
    let ghost ms = models(xs@);
    let mut chunks: Vec<Vec<u8>> = Vec::new();
    let n: usize = xs.len();
    let mut i: usize = 0;
    while i < n
        invariant
            n == xs@.len(),
            i <= n,
            ms == models(xs@),
            chunks@.len() == i,
            forall|j: int|
                0 <= j < i ==> T::encodable(#[trigger] ms[j]) && T::fits(ms[j]) && chunks@[j]@
                    == wire::<T>(ms[j]),
        decreases n - i,
    {
        proof {
            reveal(wire);
        }
        match xs[i].encode() {
            Ok(b) => {
                chunks.push(b);
            },
            Err(e) => {
                assert(!T::encodable(ms[i as int]));
                return Err(e);
            },
        }
        i = i + 1;
    }
    assert(chunks_view(chunks@) =~= wires::<T>(ms));
    assert forall|j: int| 0 <= j < ms.len() implies T::fits(#[trigger] ms[j]) && wire::<T>(
        ms[j],
    ).len() <= u64::MAX by {
        assert(chunks@[j].len() == chunks@[j]@.len());
    }
    Ok(chunks)
}

/// Decodes every item of a list, in order.
pub fn decode_all<T: Codec>(items: &Vec<&[u8]>) -> (r: Result<Vec<T>, SnapshotError>)
    ensures
        match r {
            Ok(xs) => parse_all::<T>(slices_view(items@)) == Ok::<Seq<T::V>, SnapshotError>(
                models(xs@),
            ),
            Err(e) => parse_all::<T>(slices_view(items@)) == Err::<Seq<T::V>, SnapshotError>(e),
        },
{
    let ghost raw = slices_view(items@);
    let mut out: Vec<T> = Vec::new();
    let n: usize = items.len();
    let mut i: usize = 0;
    assert(models(out@) =~= Seq::<T::V>::empty());
    while i < n
        invariant
            n == items@.len(),
            i <= n,
            raw == slices_view(items@),
            parse_all::<T>(raw.take(i as int)) == Ok::<Seq<T::V>, SnapshotError>(models(out@)),
        decreases n - i,
    {
        proof {
            lemma_parse_all_step::<T>(raw, i as int);
        }
        let ghost before = models(out@);
        match decode::<T>(items[i]) {
            Ok(x) => {
                out.push(x);
                assert(models(out@) =~= before.push(x@));
            },
            Err(e) => {
                proof {
                    lemma_parse_all_err::<T>(raw, i + 1);
                }
                return Err(e);
            },
        }
        i = i + 1;
    }
    assert(raw.take(n as int) =~= raw);
    Ok(out)
}

/// A list that does not decode is malformed, or refused with one of the
/// errors of its record type.
pub proof fn lemma_parse_all_errors<T: Codec>(items: Seq<Seq<u8>>)
    ensures
        parse_all::<T>(items) matches Err(e) ==> e == SnapshotError::MalformedSnapshot
            || T::can_fail_with(e),
    decreases items.len(),
{
    if items.len() > 0 {
        lemma_parse_all_errors::<T>(items.drop_last());
        lemma_parse_errors::<T>(items.last());
    }
}

/// Appends one byte field per record of the list, all under `number`.
pub fn put_all<T: Codec>(out: &mut Vec<u8>, number: u32, xs: &Vec<T>) -> (r: Result<
    (),
    SnapshotError,
>)
    requires
        1 <= number <= MAX_FIELD_NUMBER,
    ensures
        match r {
            Ok(_) => all_encodable::<T>(models(xs@)) && all_fit::<T>(models(xs@)) && final(out)@
                == old(out)@ + fields_bytes(repeated_bytes(number, wires::<T>(models(xs@)))),
            Err(e) => !all_encodable::<T>(models(xs@)) && e == SnapshotError::RangeOverflow,
        },
{
    let chunks = encode_all(xs)?;
    put_repeated(out, number, &chunks);
    Ok(())
}

/// Decodes all byte fields with this number, in wire order.
pub fn get_all<T: Codec>(rec: &Record, number: u32) -> (r: Result<Vec<T>, SnapshotError>)
    ensures
        match r {
            Ok(xs) => parse_all::<T>(all_bytes(rec@, number)) == Ok::<Seq<T::V>, SnapshotError>(
                models(xs@),
            ),
            Err(e) => parse_all::<T>(all_bytes(rec@, number)) == Err::<Seq<T::V>, SnapshotError>(
                e,
            ),
        },
{
    let items = rec.all_bytes(number);
    decode_all::<T>(&items)
}

// ---------------------------------------------------------------------------
// Nested records

/// The record nested under the last byte field with this number. A missing
/// field is a malformed snapshot.
pub open spec fn nested<T: Codec>(fs: Seq<Field>, number: u32) -> Result<T::V, SnapshotError> {
    match last_bytes(fs, number) {
        Some(b) => parse::<T>(b),
        None => Err(SnapshotError::MalformedSnapshot),
    }
}

/// The record nested under the last byte field with this number, or `None`
/// where there is no such field.
pub open spec fn nested_opt<T: Codec>(fs: Seq<Field>, number: u32) -> Result<
    Option<T::V>,
    SnapshotError,
> {
    match last_bytes(fs, number) {
        Some(b) => match parse::<T>(b) {
            Ok(m) => Ok(Some(m)),
            Err(e) => Err(e),
        },
        None => Ok(None),
    }
}

/// The content of an optional record.
pub open spec fn model_opt<T: Codec>(x: Option<T>) -> Option<T::V> {
    match x {
        Some(v) => Some(v@),
        None => None,
    }
}

/// The nested record fits: its own payloads and its encoding.
pub open spec fn nested_fits<T: Codec>(m: T::V) -> bool {
    T::fits(m) && wire::<T>(m).len() <= u64::MAX
}

/// Appends a record as a byte field.
pub fn put_nested<T: Codec>(out: &mut Vec<u8>, number: u32, x: &T) -> (r: Result<
    (),
    SnapshotError,
>)
    requires
        1 <= number <= MAX_FIELD_NUMBER,
    ensures
        match r {
            Ok(_) => T::encodable(x@) && nested_fits::<T>(x@) && final(out)@ == old(out)@
                + bytes_field(number, wire::<T>(x@)).bytes(),
            Err(e) => !T::encodable(x@) && e == SnapshotError::RangeOverflow,
        },
{
    reveal(wire);
    let b = x.encode()?;
    put_bytes_field(out, number, b.as_slice());
    Ok(())
}

/// A nested record that does not decode is malformed, or refused with one
/// of the errors of its record type.
pub proof fn lemma_nested_errors<T: Codec>(fs: Seq<Field>, number: u32)
    ensures
        nested::<T>(fs, number) matches Err(e) ==> e == SnapshotError::MalformedSnapshot
            || T::can_fail_with(e),
{
    if last_bytes(fs, number) is Some {
        lemma_parse_errors::<T>(last_bytes(fs, number)->Some_0);
    }
}

/// An optional nested record that does not decode is malformed, or refused
/// with one of the errors of its record type.
pub proof fn lemma_nested_opt_errors<T: Codec>(fs: Seq<Field>, number: u32)
    ensures
        nested_opt::<T>(fs, number) matches Err(e) ==> e == SnapshotError::MalformedSnapshot
            || T::can_fail_with(e),
{
    if last_bytes(fs, number) is Some {
        lemma_parse_errors::<T>(last_bytes(fs, number)->Some_0);
    }
}

/// The encoding of a record that may be absent.
pub open spec fn wire_opt<T: Codec>(o: Option<T::V>) -> Option<Seq<u8>> {
    match o {
        Some(m) => Some(wire::<T>(m)),
        None => None,
    }
}

/// Validity of a record that may be absent.
pub open spec fn valid_opt<T: Codec>(o: Option<T::V>) -> bool {
    o matches Some(m) ==> T::valid(m)
}

/// A record that may be absent can be encoded.
pub open spec fn encodable_opt<T: Codec>(o: Option<T::V>) -> bool {
    o matches Some(m) ==> T::encodable(m)
}

/// A record that may be absent fits.
pub open spec fn fits_opt<T: Codec>(o: Option<T::V>) -> bool {
    o matches Some(m) ==> nested_fits::<T>(m)
}

/// Appends a record as a byte field where there is one, and nothing where
/// not.
pub fn put_nested_opt<T: Codec>(out: &mut Vec<u8>, number: u32, o: &Option<T>) -> (r: Result<
    (),
    SnapshotError,
>)
    requires
        1 <= number <= MAX_FIELD_NUMBER,
    ensures
        match r {
            Ok(_) => encodable_opt::<T>(model_opt(*o)) && fits_opt::<T>(model_opt(*o))
                && final(out)@ == old(out)@ + opt_bytes(
                opt_bytes_field(number, wire_opt::<T>(model_opt(*o))),
            ),
            Err(e) => !encodable_opt::<T>(model_opt(*o)) && e == SnapshotError::RangeOverflow,
        },
{
    match o {
        Some(x) => {
            put_nested(out, number, x)?;
            Ok(())
        },
        None => {
            assert(out@ =~= old(out)@ + opt_bytes(
                opt_bytes_field(number, wire_opt::<T>(model_opt(*o))),
            ));
            Ok(())
        },
    }
}

/// An optional nested record that decodes is valid and can be encoded again.
pub proof fn lemma_parsed_opt_valid<T: Codec>(fs: Seq<Field>, number: u32)
    requires
        nested_opt::<T>(fs, number) is Ok,
    ensures
        valid_opt::<T>(nested_opt::<T>(fs, number)->Ok_0),
        encodable_opt::<T>(nested_opt::<T>(fs, number)->Ok_0),
{
    if last_bytes(fs, number) is Some {
        lemma_parsed_valid::<T>(last_bytes(fs, number)->Some_0);
    }
}

/// Decodes the record nested under the last byte field with this number.
pub fn get_nested<T: Codec>(rec: &Record, number: u32) -> (r: Result<T, SnapshotError>)
    ensures
        match r {
            Ok(x) => nested::<T>(rec@, number) == Ok::<T::V, SnapshotError>(x@),
            Err(e) => nested::<T>(rec@, number) == Err::<T::V, SnapshotError>(e),
        },
{
    match rec.bytes(number) {
        Some(b) => decode::<T>(b),
        None => Err(SnapshotError::MalformedSnapshot),
    }
}

/// Decodes the record nested under the last byte field with this number, if
/// there is such a field.
pub fn get_nested_opt<T: Codec>(rec: &Record, number: u32) -> (r: Result<Option<T>, SnapshotError>)
    ensures
        match r {
            Ok(x) => nested_opt::<T>(rec@, number) == Ok::<Option<T::V>, SnapshotError>(
                model_opt(x),
            ),
            Err(e) => nested_opt::<T>(rec@, number) == Err::<Option<T::V>, SnapshotError>(e),
        },
{
    match rec.bytes(number) {
        Some(b) => {
            let x = decode::<T>(b)?;
            Ok(Some(x))
        },
        None => Ok(None),
    }
}

/// A nested record that decodes is valid and can be encoded again.
pub proof fn lemma_parsed_valid<T: Codec>(s: Seq<u8>)
    requires
        parse::<T>(s) is Ok,
    ensures
        T::valid(parse::<T>(s)->Ok_0),
        T::encodable(parse::<T>(s)->Ok_0),
{
    reveal(parse);
    T::lemma_decoded_valid(parse_fields(s)->Some_0);
}

// ---------------------------------------------------------------------------
// Keyed sequences

/// A record that is found by a key within its sequence.
pub trait Keyed: Codec {
    /// The key of the content.
    spec fn key_of(m: Self::V) -> Key;

    /// The key of the record.
    fn key(&self) -> (k: Key)
        ensures
            k == Self::key_of(self@),
    ;
}

/// The keys of a list of contents, in order.
pub open spec fn keys_of<T: Keyed>(ms: Seq<T::V>) -> Seq<Key> {
    Seq::new(ms.len(), |i: int| T::key_of(ms[i]))
}

/// No key occurs twice in the list.
pub open spec fn distinct<T: Keyed>(ms: Seq<T::V>) -> bool {
    keys_of::<T>(ms).no_duplicates()
}

/// Two entries with the same key: the list is not distinct.
pub proof fn lemma_same_key_not_distinct<T: Keyed>(ms: Seq<T::V>, i: int, j: int)
    requires
        0 <= i < j < ms.len(),
        T::key_of(ms[i]) == T::key_of(ms[j]),
    ensures
        !distinct::<T>(ms),
{
    let keys = keys_of::<T>(ms);
    assert(keys[i] == keys[j]);
}

/// Whether no key occurs twice in the list.
pub fn has_distinct_keys<T: Keyed>(xs: &Vec<T>) -> (r: bool)
    ensures
        r == distinct::<T>(models(xs@)),
{
    let mut keys: Vec<Key> = Vec::new();
    let n: usize = xs.len();
    let mut i: usize = 0;
    while i < n
        invariant
            n == xs@.len(),
            i <= n,
            keys@ == keys_of::<T>(models(xs@)).take(i as int),
        decreases n - i,
    {
        let k = xs[i].key();
        keys.push(k);
        assert(keys@ =~= keys_of::<T>(models(xs@)).take(i + 1));
        i = i + 1;
    }
    assert(keys@ =~= keys_of::<T>(models(xs@)));
    distinct_keys(&keys)
}

} // verus!
