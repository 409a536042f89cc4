//! Splitting a byte buffer into fields and looking fields up by number.

use crate::varint::read_varint;
use crate::wire::{
    all_bytes, all_varints, last_bytes, last_fixed64, last_varint, lemma_parse_field_bounds,
    matching, only_kind, parse_field, parse_fields, Field, Kind, Payload,
};
use vstd::bytes::{u32_from_le_bytes, u64_from_le_bytes};
use vstd::prelude::*;
use vstd::slice::slice_subrange;

verus! {

/// The payload of a field as read: byte payloads borrow from the input.
#[derive(Clone, Copy)]
pub enum Value<'a> {
    Varint(u64),
    Fixed64(u64),
    Bytes(&'a [u8]),
    Fixed32(u32),
}

/// A field as read.
#[derive(Clone, Copy)]
pub struct Entry<'a> {
    pub number: u32,
    pub value: Value<'a>,
}

/// The fields of one record, in wire order.
pub struct Record<'a> {
    pub entries: Vec<Entry<'a>>,
}

impl<'a> View for Value<'a> {
    type V = Payload;

    open spec fn view(&self) -> Payload {
        match *self {
            Value::Varint(v) => Payload::Varint(v),
            Value::Fixed64(v) => Payload::Fixed64(v),
            Value::Bytes(b) => Payload::Bytes(b@),
            Value::Fixed32(v) => Payload::Fixed32(v),
        }
    }
}

impl<'a> Value<'a> {
    /// The kind of the payload.
    pub fn kind(&self) -> (k: Kind)
        ensures
            k == self@.kind(),
    {
        match self {
            Value::Varint(_) => Kind::Varint,
            Value::Fixed64(_) => Kind::Fixed64,
            Value::Bytes(_) => Kind::Bytes,
            Value::Fixed32(_) => Kind::Fixed32,
        }
    }
}

impl<'a> View for Entry<'a> {
    type V = Field;

    open spec fn view(&self) -> Field {
        Field { number: self.number, payload: self.value@ }
    }
}

impl<'a> View for Record<'a> {
    type V = Seq<Field>;

    open spec fn view(&self) -> Seq<Field> {
        Seq::new(self.entries@.len(), |i: int| self.entries@[i]@)
    }
}

/// The contents of a list of borrowed byte runs.
pub open spec fn slices_view<'a>(v: Seq<&'a [u8]>) -> Seq<Seq<u8>> {
    Seq::new(v.len(), |i: int| v[i]@)
}

/// The fields read so far, followed by what the rest of the input holds.
pub open spec fn prepend(acc: Seq<Field>, tail: Option<Seq<Field>>) -> Option<Seq<Field>> {
    match tail {
        Some(t) => Some(acc + t),
        None => None,
    }
}

/// Reads the field that starts at `pos`: the field and the position after it.
fn read_entry<'a>(bytes: &'a [u8], pos: usize) -> (r: Option<(Entry<'a>, usize)>)
    requires
        pos <= bytes@.len(),
    ensures
        match r {
            Some((e, next)) => pos < next <= bytes@.len() && parse_field(bytes@.skip(pos as int))
                == Some((e@, (next - pos) as nat)),
            None => parse_field(bytes@.skip(pos as int)) is None,
        },
{
    let ghost input = bytes@.skip(pos as int);
    let (key, start) = match read_varint(bytes, pos) {
        Some(x) => x,
        None => {
            return None;
        },
    };
    if key > u32::MAX as u64 {
        return None;
    }
    let number: u32 = (key / 8) as u32;
    if number == 0 {
        return None;
    }
    let code: u64 = key % 8;
    let ghost body = bytes@.skip(start as int);
    assert(input.skip(start - pos) =~= body);
    let len: usize = bytes.len();
    if code == 0 {
        match read_varint(bytes, start) {
            Some((v, after)) => Some((Entry { number, value: Value::Varint(v) }, after)),
            None => None,
        }
    } else if code == 1 {
        if len - start < 8 {
            None
        } else {
            let chunk = slice_subrange(bytes, start, start + 8);
            assert(chunk@ =~= body.subrange(0, 8));
            let v: u64 = u64_from_le_bytes(chunk);
            Some((Entry { number, value: Value::Fixed64(v) }, start + 8))
        }
    } else if code == 2 {
        match read_varint(bytes, start) {
            Some((l, after)) => {
                if l > (len - after) as u64 {
                    None
                } else {
                    let end: usize = after + l as usize;
                    let data = slice_subrange(bytes, after, end);
                    assert(data@ =~= body.subrange(after - start, after - start + l));
                    Some((Entry { number, value: Value::Bytes(data) }, end))
                }
            },
            None => None,
        }
    } else if code == 5 {
        if len - start < 4 {
            None
        } else {
            let chunk = slice_subrange(bytes, start, start + 4);
            assert(chunk@ =~= body.subrange(0, 4));
            let v: u32 = u32_from_le_bytes(chunk);
            Some((Entry { number, value: Value::Fixed32(v) }, start + 4))
        }
    } else {
        None
    }
}

/// Splits `bytes` into its fields, or returns `None` where `bytes` is not a
/// whole number of well-formed fields.
pub fn read_record<'a>(bytes: &'a [u8]) -> (r: Option<Record<'a>>)
    ensures
        match r {
            Some(rec) => parse_fields(bytes@) == Some(rec@),
            None => parse_fields(bytes@) is None,
        },
{
    let mut rec = Record { entries: Vec::new() };
    let mut pos: usize = 0;
    let len: usize = bytes.len();
    assert(bytes@.skip(0) =~= bytes@);
    assert(rec@ + parse_fields(bytes@)->Some_0 =~= parse_fields(bytes@)->Some_0);
    while pos < len
        invariant
            len == bytes@.len(),
            pos <= len,
            parse_fields(bytes@) == prepend(rec@, parse_fields(bytes@.skip(pos as int))),
        decreases len - pos,
    {
        let ghost rest = bytes@.skip(pos as int);
        let ghost acc = rec@;
        match read_entry(bytes, pos) {
            None => {
                return None;
            },
            Some((e, next)) => {
                proof {
                    lemma_parse_field_bounds(rest);
                    assert(rest.skip(next - pos) =~= bytes@.skip(next as int));
                }
                rec.entries.push(e);
                proof {
                    assert(rec@ =~= acc.push(e@));
                    let tail = parse_fields(bytes@.skip(next as int));
                    if tail is Some {
                        assert(acc + (seq![e@] + tail->Some_0) =~= acc.push(e@) + tail->Some_0);
                    }
                }
                pos = next;
            },
        }
    }
    assert(bytes@.skip(pos as int) =~= Seq::<u8>::empty());
    assert(rec@ + Seq::<Field>::empty() =~= rec@);
    Some(rec)
}

impl<'a> Record<'a> {
    /// Whether every field under this number has this kind.
    pub fn only_kind(&self, number: u32, kind: Kind) -> (r: bool)
        ensures
            r == only_kind(self@, number, kind),
    {
        let n: usize = self.entries.len();
        let mut i: usize = 0;
        while i < n
            invariant
                n == self.entries@.len(),
                i <= n,
                forall|j: int|
                    0 <= j < i && (#[trigger] self@[j]).number == number ==> self@[j].payload.kind()
                        == kind,
            decreases n - i,
        {
            let e = self.entries[i];
            if e.number == number && e.value.kind() != kind {
                assert(self@[i as int].number == number && self@[i as int].payload.kind() != kind);
                return false;
            }
            i = i + 1;
        }
        true
    }

    /// The last varint field with this number.
    pub fn varint(&self, number: u32) -> (r: Option<u64>)
        ensures
            r == last_varint(self@, number),
    {
        let mut i: usize = self.entries.len();
        assert(self@.take(i as int) =~= self@);
        while i > 0
            invariant
                i <= self.entries@.len(),
                matching(self@, number, Kind::Varint) == matching(
                    self@.take(i as int),
                    number,
                    Kind::Varint,
                ),
            decreases i,
        {
            i = i - 1;
            let e = self.entries[i];
            proof {
                assert(self@.take(i + 1).drop_last() =~= self@.take(i as int));
                assert(self@.take(i + 1).last() == e@);
            }
            if e.number == number {
                if let Value::Varint(v) = e.value {
                    return Some(v);
                }
            }
        }
        None
    }

    /// The last 64-bit field with this number.
    pub fn fixed64(&self, number: u32) -> (r: Option<u64>)
        ensures
            r == last_fixed64(self@, number),
    {
        let mut i: usize = self.entries.len();
        assert(self@.take(i as int) =~= self@);
        while i > 0
            invariant
                i <= self.entries@.len(),
                matching(self@, number, Kind::Fixed64) == matching(
                    self@.take(i as int),
                    number,
                    Kind::Fixed64,
                ),
            decreases i,
        {
            i = i - 1;
            let e = self.entries[i];
            proof {
                assert(self@.take(i + 1).drop_last() =~= self@.take(i as int));
                assert(self@.take(i + 1).last() == e@);
            }
            if e.number == number {
                if let Value::Fixed64(v) = e.value {
                    return Some(v);
                }
            }
        }
        None
    }

    /// The last byte field with this number.
    pub fn bytes(&self, number: u32) -> (r: Option<&'a [u8]>)
        ensures
            match r {
                Some(b) => last_bytes(self@, number) == Some(b@),
                None => last_bytes(self@, number) is None,
            },
    {
        let mut i: usize = self.entries.len();
        assert(self@.take(i as int) =~= self@);
        while i > 0
            invariant
                i <= self.entries@.len(),
                matching(self@, number, Kind::Bytes) == matching(
                    self@.take(i as int),
                    number,
                    Kind::Bytes,
                ),
            decreases i,
        {
            i = i - 1;
            let e = self.entries[i];
            proof {
                assert(self@.take(i + 1).drop_last() =~= self@.take(i as int));
                assert(self@.take(i + 1).last() == e@);
            }
            if e.number == number {
                if let Value::Bytes(b) = e.value {
                    return Some(b);
                }
            }
        }
        None
    }

    /// All byte fields with this number, in wire order.
    pub fn all_bytes(&self, number: u32) -> (r: Vec<&'a [u8]>)
        ensures
            slices_view(r@) == all_bytes(self@, number),
    {
        let mut out: Vec<&'a [u8]> = Vec::new();
        let mut i: usize = 0;
        let n: usize = self.entries.len();
        assert(slices_view(out@) =~= all_bytes(self@.take(0), number));
        while i < n
            invariant
                n == self.entries@.len(),
                i <= n,
                slices_view(out@) == all_bytes(self@.take(i as int), number),
            decreases n - i,
        {
            let e = self.entries[i];
            let ghost before = out@;
            proof {
                assert(self@.take(i + 1).drop_last() =~= self@.take(i as int));
                assert(self@.take(i + 1).last() == e@);
            }
            if e.number == number {
                if let Value::Bytes(b) = e.value {
                    out.push(b);
                    proof {
                        let prev = all_bytes(self@.take(i as int), number);
                        let next = all_bytes(self@.take(i + 1), number);
                        assert(next.len() == prev.len() + 1);
                        assert forall|j: int| 0 <= j < next.len() implies slices_view(out@)[j]
                            == next[j] by {
                            if j < prev.len() {
                                assert(slices_view(before)[j] == prev[j]);
                            }
                        }
                    }
                    assert(slices_view(out@) =~= all_bytes(self@.take(i + 1), number));
                }
            }
            assert(slices_view(out@) =~= all_bytes(self@.take(i + 1), number));
            i = i + 1;
        }
        assert(self@.take(n as int) =~= self@);
        out
    }

    /// All varint fields with this number, in wire order.
    pub fn all_varints(&self, number: u32) -> (r: Vec<u64>)
        ensures
            r@ == all_varints(self@, number),
    {
        let mut out: Vec<u64> = Vec::new();
        let mut i: usize = 0;
        let n: usize = self.entries.len();
        assert(out@ =~= all_varints(self@.take(0), number));
        while i < n
            invariant
                n == self.entries@.len(),
                i <= n,
                out@ == all_varints(self@.take(i as int), number),
            decreases n - i,
        {
            let e = self.entries[i];
            proof {
                assert(self@.take(i + 1).drop_last() =~= self@.take(i as int));
                assert(self@.take(i + 1).last() == e@);
            }
            if e.number == number {
                if let Value::Varint(v) = e.value {
                    out.push(v);
                    assert(out@ =~= all_varints(self@.take(i + 1), number));
                }
            }
            assert(out@ =~= all_varints(self@.take(i + 1), number));
            i = i + 1;
        }
        assert(self@.take(n as int) =~= self@);
        out
    }
}

} // verus!
