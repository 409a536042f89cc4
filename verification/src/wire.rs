//! The field layer of the wire format.
//!
//! A record is a sequence of fields. Each field is a key (field number and
//! wire type, as one varint) followed by a payload: a varint, eight or four
//! little-endian bytes, or a length-prefixed run of bytes. Nested records
//! travel as byte payloads. Group wire types are not part of the format: a
//! field of a group wire type makes the whole record ill-formed, also under
//! a number that no schema uses.

use crate::varint::{
    lemma_varint_prefix_bounds, lemma_varint_round_trip, varint_bytes, varint_prefix,
};
use vstd::bytes::{
    lemma_auto_spec_u32_to_from_le_bytes, lemma_auto_spec_u64_to_from_le_bytes,
    spec_u32_from_le_bytes, spec_u32_to_le_bytes, spec_u64_from_le_bytes, spec_u64_to_le_bytes,
};
use vstd::prelude::*;

verus! {

/// Largest field number that a key can carry.
pub const MAX_FIELD_NUMBER: u32 = 0x1fff_ffff;

/// The mathematical content of a field's payload.
pub enum Payload {
    Varint(u64),
    Fixed64(u64),
    Bytes(Seq<u8>),
    Fixed32(u32),
}

/// The four kinds of payload.
#[derive(Clone, Copy, Debug, PartialEq, Eq, Structural)]
pub enum Kind {
    Varint,
    Fixed64,
    Bytes,
    Fixed32,
}

/// The mathematical content of one field.
pub struct Field {
    pub number: u32,
    pub payload: Payload,
}

impl Payload {
    pub open spec fn kind(self) -> Kind {
        match self {
            Payload::Varint(_) => Kind::Varint,
            Payload::Fixed64(_) => Kind::Fixed64,
            Payload::Bytes(_) => Kind::Bytes,
            Payload::Fixed32(_) => Kind::Fixed32,
        }
    }

    /// The wire type that the key carries for this payload.
    pub open spec fn code(self) -> nat {
        match self {
            Payload::Varint(_) => 0,
            Payload::Fixed64(_) => 1,
            Payload::Bytes(_) => 2,
            Payload::Fixed32(_) => 5,
        }
    }

    /// The bytes of the payload, without the key.
    pub open spec fn bytes(self) -> Seq<u8> {
        match self {
            Payload::Varint(v) => varint_bytes(v as nat),
            Payload::Fixed64(v) => spec_u64_to_le_bytes(v),
            Payload::Bytes(b) => varint_bytes(b.len()) + b,
            Payload::Fixed32(v) => spec_u32_to_le_bytes(v),
        }
    }
}

impl Field {
    /// A field that can be written: its number fits a key and the length of a
    /// byte payload fits its 64-bit prefix.
    pub open spec fn ok(self) -> bool {
        &&& 1 <= self.number <= MAX_FIELD_NUMBER
        &&& (self.payload matches Payload::Bytes(b) ==> b.len() <= u64::MAX)
    }

    /// The value of the key varint.
    pub open spec fn key(self) -> nat {
        self.number as nat * 8 + self.payload.code()
    }

    /// The bytes of the field: key, then payload.
    pub open spec fn bytes(self) -> Seq<u8> {
        varint_bytes(self.key()) + self.payload.bytes()
    }
}

/// The field has the kind that the schema gives its number, if the schema
/// uses that number.
pub open spec fn conforms(k: Option<Kind>, f: Field) -> bool {
    k matches Some(kind) ==> f.payload.kind() == kind
}

/// Every field under this number has this kind.
pub open spec fn only_kind(fs: Seq<Field>, number: u32, kind: Kind) -> bool {
    forall|i: int|
        0 <= i < fs.len() && (#[trigger] fs[i]).number == number ==> fs[i].payload.kind() == kind
}

/// A varint field.
pub open spec fn varint_field(number: u32, v: u64) -> Field {
    Field { number, payload: Payload::Varint(v) }
}

/// A field of eight little-endian bytes.
pub open spec fn fixed64_field(number: u32, v: u64) -> Field {
    Field { number, payload: Payload::Fixed64(v) }
}

/// A field of length-prefixed bytes.
pub open spec fn bytes_field(number: u32, b: Seq<u8>) -> Field {
    Field { number, payload: Payload::Bytes(b) }
}

/// Every field of the sequence can be written.
pub open spec fn fields_ok(fs: Seq<Field>) -> bool {
    forall|i: int| 0 <= i < fs.len() ==> (#[trigger] fs[i]).ok()
}

/// The bytes of a record: its fields one after the other.
pub open spec fn fields_bytes(fs: Seq<Field>) -> Seq<u8>
    decreases fs.len(),
{
    if fs.len() == 0 {
        Seq::empty()
    } else {
        fields_bytes(fs.drop_last()) + fs.last().bytes()
    }
}

/// Reads a payload of wire type `code` from the front of `s`: the payload
/// and the number of bytes it takes.
pub open spec fn parse_payload(code: nat, s: Seq<u8>) -> Option<(Payload, nat)> {
    if code == 0 {
        match varint_prefix(s) {
            Some((v, n)) => Some((Payload::Varint(v as u64), n)),
            None => None,
        }
    } else if code == 1 {
        if s.len() >= 8 {
            Some((Payload::Fixed64(spec_u64_from_le_bytes(s.subrange(0, 8))), 8nat))
        } else {
            None
        }
    } else if code == 2 {
        match varint_prefix(s) {
            Some((len, n)) => if n + len <= s.len() {
                Some((Payload::Bytes(s.subrange(n as int, (n + len) as int)), n + len))
            } else {
                None
            },
            None => None,
        }
    } else if code == 5 {
        if s.len() >= 4 {
            Some((Payload::Fixed32(spec_u32_from_le_bytes(s.subrange(0, 4))), 4nat))
        } else {
            None
        }
    } else {
        None
    }
}

/// Reads one field from the front of `s`: the field and the number of bytes
/// it takes.
pub open spec fn parse_field(s: Seq<u8>) -> Option<(Field, nat)> {
    match varint_prefix(s) {
        Some((key, n)) => if key > u32::MAX || key / 8 == 0 {
            None
        } else {
            match parse_payload(key % 8, s.skip(n as int)) {
                Some((p, m)) => Some((Field { number: (key / 8) as u32, payload: p }, n + m)),
                None => None,
            }
        },
        None => None,
    }
}

/// Reads `s` as a record: the fields in wire order, or `None` where `s` is
/// not a whole number of well-formed fields.
pub open spec fn parse_fields(s: Seq<u8>) -> Option<Seq<Field>>
    decreases s.len(),
{
    if s.len() == 0 {
        Some(Seq::empty())
    } else {
        match parse_field(s) {
            Some((f, n)) => if 0 < n <= s.len() {
                match parse_fields(s.skip(n as int)) {
                    Some(rest) => Some(seq![f] + rest),
                    None => None,
                }
            } else {
                None
            },
            None => None,
        }
    }
}

/// The payloads of the fields with the given number and kind, in wire order.
pub open spec fn matching(fs: Seq<Field>, number: u32, kind: Kind) -> Seq<Payload>
    decreases fs.len(),
{
    if fs.len() == 0 {
        Seq::empty()
    } else {
        let init = matching(fs.drop_last(), number, kind);
        let f = fs.last();
        if f.number == number && f.payload.kind() == kind {
            init.push(f.payload)
        } else {
            init
        }
    }
}

/// The last varint field with this number, if any.
pub open spec fn last_varint(fs: Seq<Field>, number: u32) -> Option<u64> {
    let m = matching(fs, number, Kind::Varint);
    if m.len() == 0 {
        None
    } else {
        Some(m.last()->Varint_0)
    }
}

/// The last 64-bit field with this number, if any.
pub open spec fn last_fixed64(fs: Seq<Field>, number: u32) -> Option<u64> {
    let m = matching(fs, number, Kind::Fixed64);
    if m.len() == 0 {
        None
    } else {
        Some(m.last()->Fixed64_0)
    }
}

/// The last byte field with this number, if any.
pub open spec fn last_bytes(fs: Seq<Field>, number: u32) -> Option<Seq<u8>> {
    let m = matching(fs, number, Kind::Bytes);
    if m.len() == 0 {
        None
    } else {
        Some(m.last()->Bytes_0)
    }
}

/// All byte fields with this number, in wire order.
pub open spec fn all_bytes(fs: Seq<Field>, number: u32) -> Seq<Seq<u8>> {
    let m = matching(fs, number, Kind::Bytes);
    Seq::new(m.len(), |i: int| m[i]->Bytes_0)
}

/// All varint fields with this number, in wire order.
pub open spec fn all_varints(fs: Seq<Field>, number: u32) -> Seq<u64> {
    let m = matching(fs, number, Kind::Varint);
    Seq::new(m.len(), |i: int| m[i]->Varint_0)
}

/// One byte field per item, all under the same number.
pub open spec fn repeated_bytes(number: u32, items: Seq<Seq<u8>>) -> Seq<Field> {
    Seq::new(items.len(), |i: int| bytes_field(number, items[i]))
}

/// One varint field per item, all under the same number.
pub open spec fn repeated_varints(number: u32, items: Seq<u64>) -> Seq<Field> {
    Seq::new(items.len(), |i: int| varint_field(number, items[i]))
}

/// The record with one more field at its end, where there is one.
pub open spec fn push_opt(fs: Seq<Field>, o: Option<Field>) -> Seq<Field> {
    match o {
        Some(f) => fs.push(f),
        None => fs,
    }
}

/// The bytes of a field that may be absent.
pub open spec fn opt_bytes(o: Option<Field>) -> Seq<u8> {
    match o {
        Some(f) => f.bytes(),
        None => Seq::empty(),
    }
}

/// A varint field that is written only where there is a value.
pub open spec fn opt_varint_field(number: u32, o: Option<u64>) -> Option<Field> {
    match o {
        Some(v) => Some(varint_field(number, v)),
        None => None,
    }
}

/// A byte field that is written only where there is a value.
pub open spec fn opt_bytes_field(number: u32, o: Option<Seq<u8>>) -> Option<Field> {
    match o {
        Some(b) => Some(bytes_field(number, b)),
        None => None,
    }
}

// ---------------------------------------------------------------------------
// Facts about writing

/// A field that may be absent adds its bytes, or nothing, at the end.
pub broadcast proof fn lemma_fields_bytes_push_opt(fs: Seq<Field>, o: Option<Field>)
    ensures
        #[trigger] fields_bytes(push_opt(fs, o)) == fields_bytes(fs) + opt_bytes(o),
{
    match o {
        Some(f) => {
            lemma_fields_bytes_push(fs, f);
        },
        None => {
            assert(fields_bytes(fs) + opt_bytes(o) =~= fields_bytes(fs));
        },
    }
}

/// A lookup sees a field that may be absent exactly where it is present and
/// has the number and kind asked for.
pub broadcast proof fn lemma_matching_push_opt(
    fs: Seq<Field>,
    o: Option<Field>,
    number: u32,
    kind: Kind,
)
    ensures
        #[trigger] matching(push_opt(fs, o), number, kind) == match o {
            Some(f) => if f.number == number && f.payload.kind() == kind {
                matching(fs, number, kind).push(f.payload)
            } else {
                matching(fs, number, kind)
            },
            None => matching(fs, number, kind),
        },
{
    match o {
        Some(f) => {
            lemma_matching_push(fs, f, number, kind);
        },
        None => {},
    }
}

/// One more field adds its bytes at the end.
pub broadcast proof fn lemma_fields_bytes_push(fs: Seq<Field>, f: Field)
    ensures
        #[trigger] fields_bytes(fs.push(f)) == fields_bytes(fs) + f.bytes(),
{
    assert(fs.push(f).drop_last() =~= fs);
}

/// The bytes of two runs of fields, one after the other.
pub proof fn lemma_fields_bytes_concat(a: Seq<Field>, b: Seq<Field>)
    ensures
        fields_bytes(a + b) == fields_bytes(a) + fields_bytes(b),
    decreases b.len(),
{
    if b.len() == 0 {
        assert(a + b =~= a);
        assert(fields_bytes(a) + fields_bytes(b) =~= fields_bytes(a));
    } else {
        lemma_fields_bytes_concat(a, b.drop_last());
        assert((a + b).drop_last() =~= a + b.drop_last());
        assert((a + b).last() == b.last());
        assert(fields_bytes(a + b) =~= fields_bytes(a) + fields_bytes(b));
    }
}

/// Two runs of fields that can be written can be written one after the
/// other.
pub proof fn lemma_fields_ok_concat(a: Seq<Field>, b: Seq<Field>)
    requires
        fields_ok(a),
        fields_ok(b),
    ensures
        fields_ok(a + b),
{
    assert forall|i: int| 0 <= i < (a + b).len() implies (#[trigger] (a + b)[i]).ok() by {
        if i < a.len() {
            assert((a + b)[i] == a[i]);
        } else {
            assert((a + b)[i] == b[i - a.len()]);
        }
    }
}

// ---------------------------------------------------------------------------
// Facts about lookups

/// A lookup sees one more field exactly where it has the number and kind
/// asked for.
pub broadcast proof fn lemma_matching_push(fs: Seq<Field>, f: Field, number: u32, kind: Kind)
    ensures
        #[trigger] matching(fs.push(f), number, kind) == if f.number == number && f.payload.kind()
            == kind {
            matching(fs, number, kind).push(f.payload)
        } else {
            matching(fs, number, kind)
        },
{
    assert(fs.push(f).drop_last() =~= fs);
}

/// A lookup finds nothing in an empty record.
pub broadcast proof fn lemma_matching_empty(number: u32, kind: Kind)
    ensures
        #[trigger] matching(Seq::<Field>::empty(), number, kind) == Seq::<Payload>::empty(),
{
}

/// A lookup in two runs of fields finds what it finds in each, in order.
pub proof fn lemma_matching_concat(a: Seq<Field>, b: Seq<Field>, number: u32, kind: Kind)
    ensures
        matching(a + b, number, kind) == matching(a, number, kind) + matching(b, number, kind),
    decreases b.len(),
{
    if b.len() == 0 {
        assert(a + b =~= a);
        assert(matching(a, number, kind) + matching(b, number, kind) =~= matching(
            a,
            number,
            kind,
        ));
    } else {
        lemma_matching_concat(a, b.drop_last(), number, kind);
        assert((a + b).drop_last() =~= a + b.drop_last());
        assert((a + b).last() == b.last());
        assert(matching(a + b, number, kind) =~= matching(a, number, kind) + matching(
            b,
            number,
            kind,
        ));
    }
}

/// A lookup does not see a field under another number, wherever the field
/// stands in the record.
pub broadcast proof fn lemma_matching_insert(
    a: Seq<Field>,
    f: Field,
    b: Seq<Field>,
    number: u32,
    kind: Kind,
)
    requires
        f.number != number,
    ensures
        #[trigger] matching(a.push(f) + b, number, kind) == matching(a + b, number, kind),
{
    lemma_matching_concat(a.push(f), b, number, kind);
    lemma_matching_concat(a, b, number, kind);
    lemma_matching_push(a, f, number, kind);
}

/// Whether every field under a number has a kind does not depend on a field
/// under another number, wherever the field stands in the record.
pub proof fn lemma_only_kind_insert(
    a: Seq<Field>,
    f: Field,
    b: Seq<Field>,
    number: u32,
    kind: Kind,
)
    requires
        f.number != number,
    ensures
        only_kind(a.push(f) + b, number, kind) == only_kind(a + b, number, kind),
{
    let g = a.push(f) + b;
    let h = a + b;
    if only_kind(g, number, kind) {
        assert forall|i: int|
            0 <= i < h.len() && (#[trigger] h[i]).number == number implies h[i].payload.kind()
            == kind by {
            if i < a.len() {
                assert(g[i] == h[i]);
            } else {
                assert(g[i + 1] == h[i]);
            }
        }
    }
    if only_kind(h, number, kind) {
        assert forall|i: int|
            0 <= i < g.len() && (#[trigger] g[i]).number == number implies g[i].payload.kind()
            == kind by {
            if i < a.len() {
                assert(g[i] == h[i]);
            } else if i > a.len() {
                assert(g[i] == h[i - 1]);
            }
        }
    }
}

/// A run of byte fields under one number holds exactly its items under that
/// number and nothing under any other number or kind.
pub proof fn lemma_matching_repeated_bytes(
    tag: u32,
    items: Seq<Seq<u8>>,
    number: u32,
    kind: Kind,
)
    ensures
        (number == tag && kind == Kind::Bytes) ==> matching(
            repeated_bytes(tag, items),
            number,
            kind,
        ) == Seq::new(items.len(), |i: int| Payload::Bytes(items[i])),
        !(number == tag && kind == Kind::Bytes) ==> matching(
            repeated_bytes(tag, items),
            number,
            kind,
        ) == Seq::<Payload>::empty(),
    decreases items.len(),
{
    let fs = repeated_bytes(tag, items);
    if items.len() > 0 {
        lemma_matching_repeated_bytes(tag, items.drop_last(), number, kind);
        assert(fs.drop_last() =~= repeated_bytes(tag, items.drop_last()));
        if number == tag && kind == Kind::Bytes {
            assert(matching(fs, number, kind) =~= Seq::new(
                items.len(),
                |i: int| Payload::Bytes(items[i]),
            ));
        }
    } else {
        assert(matching(fs, number, kind) =~= Seq::new(
            items.len(),
            |i: int| Payload::Bytes(items[i]),
        ));
    }
}

/// A run of varint fields under one number holds exactly its items under
/// that number and nothing under any other number or kind.
pub proof fn lemma_matching_repeated_varints(tag: u32, items: Seq<u64>, number: u32, kind: Kind)
    ensures
        (number == tag && kind == Kind::Varint) ==> matching(
            repeated_varints(tag, items),
            number,
            kind,
        ) == Seq::new(items.len(), |i: int| Payload::Varint(items[i])),
        !(number == tag && kind == Kind::Varint) ==> matching(
            repeated_varints(tag, items),
            number,
            kind,
        ) == Seq::<Payload>::empty(),
    decreases items.len(),
{
    let fs = repeated_varints(tag, items);
    if items.len() > 0 {
        lemma_matching_repeated_varints(tag, items.drop_last(), number, kind);
        assert(fs.drop_last() =~= repeated_varints(tag, items.drop_last()));
        if number == tag && kind == Kind::Varint {
            assert(matching(fs, number, kind) =~= Seq::new(
                items.len(),
                |i: int| Payload::Varint(items[i]),
            ));
        }
    } else {
        assert(matching(fs, number, kind) =~= Seq::new(
            items.len(),
            |i: int| Payload::Varint(items[i]),
        ));
    }
}

// ---------------------------------------------------------------------------
// Reading undoes writing

/// What was read lies within the input and takes at least one byte.
pub proof fn lemma_parse_field_bounds(s: Seq<u8>)
    requires
        parse_field(s) is Some,
    ensures
        0 < parse_field(s)->Some_0.1 <= s.len(),
        parse_field(s)->Some_0.0.number >= 1,
{
    lemma_varint_prefix_bounds(s, 0);
    let n = varint_prefix(s)->Some_0.1;
    let key = varint_prefix(s)->Some_0.0;
    let rest = s.skip(n as int);
    if key % 8 == 0 || key % 8 == 2 {
        lemma_varint_prefix_bounds(rest, 0);
    }
}

/// Reading one field undoes writing it, whatever follows.
pub proof fn lemma_field_round_trip(f: Field, rest: Seq<u8>)
    requires
        f.ok(),
    ensures
        parse_field(f.bytes() + rest) == Some((f, f.bytes().len())),
        f.bytes().len() > 0,
{
    let key = f.key();
    let body = f.payload.bytes();
    let s = f.bytes() + rest;
    assert(key <= u32::MAX);
    lemma_varint_round_trip(key as u64, body + rest);
    let n = varint_bytes(key).len();
    assert(s =~= varint_bytes(key) + (body + rest));
    assert(s.skip(n as int) =~= body + rest);
    assert(key / 8 == f.number && key % 8 == f.payload.code());
    match f.payload {
        Payload::Varint(v) => {
            lemma_varint_round_trip(v, rest);
        },
        Payload::Fixed64(v) => {
            lemma_auto_spec_u64_to_from_le_bytes();
            assert((body + rest).subrange(0, 8) =~= body);
        },
        Payload::Bytes(b) => {
            lemma_varint_round_trip(b.len() as u64, b + rest);
            let m = varint_bytes(b.len()).len();
            assert(body + rest =~= varint_bytes(b.len()) + (b + rest));
            assert((body + rest).subrange(m as int, (m + b.len()) as int) =~= b);
        },
        Payload::Fixed32(v) => {
            lemma_auto_spec_u32_to_from_le_bytes();
            assert((body + rest).subrange(0, 4) =~= body);
        },
    }
}

/// Reading a record undoes writing it.
pub proof fn lemma_fields_round_trip(fs: Seq<Field>)
    requires
        fields_ok(fs),
    ensures
        parse_fields(fields_bytes(fs)) == Some(fs),
    decreases fs.len(),
{
    if fs.len() > 0 {
        let f = fs[0];
        let tail = fs.skip(1);
        assert(fs =~= seq![f] + tail);
        lemma_fields_bytes_concat(seq![f], tail);
        lemma_fields_bytes_push(Seq::empty(), f);
        assert(seq![f] =~= Seq::<Field>::empty().push(f));
        assert(fields_bytes(Seq::<Field>::empty()) =~= Seq::<u8>::empty());
        assert(fields_bytes(seq![f]) =~= f.bytes());
        lemma_field_round_trip(f, fields_bytes(tail));
        assert(fields_ok(tail)) by {
            assert forall|i: int| 0 <= i < tail.len() implies (#[trigger] tail[i]).ok() by {
                assert(tail[i] == fs[i + 1]);
            }
        }
        lemma_fields_round_trip(tail);
        let s = fields_bytes(fs);
        assert(s.skip(f.bytes().len() as int) =~= fields_bytes(tail));
    }
}

} // verus!
