//! 32-byte identifiers: account keys and content hashes.

use crate::reader::{slices_view, Record};
use crate::repeat::{chunks_view, put_repeated};
use crate::error::SnapshotError;
use crate::wire::{
    all_bytes, bytes_field, fields_bytes, last_bytes, opt_bytes, opt_bytes_field,
    repeated_bytes, Field, MAX_FIELD_NUMBER,
};
use crate::writer::put_bytes_field;
use vstd::bytes::{
    lemma_auto_spec_u128_to_from_le_bytes, spec_u128_from_le_bytes, spec_u128_to_le_bytes,
    u128_from_le_bytes, u128_to_le_bytes,
};
use vstd::prelude::*;
use vstd::slice::slice_subrange;

verus! {

/// Length in bytes of every key and hash on the wire.
pub const KEY_LEN: usize = 32;

/// A 32-byte identifier, held as two little-endian halves so that two keys
/// are equal exactly when their bytes are.
#[derive(Clone, Copy, Debug, PartialEq, Eq, Hash, Structural)]
pub struct Key {
    /// Bytes 0 to 15, little-endian.
    pub lo: u128,
    /// Bytes 16 to 31, little-endian.
    pub hi: u128,
}

impl Key {
    /// The 32 bytes of the key.
    pub open spec fn bytes(self) -> Seq<u8> {
        spec_u128_to_le_bytes(self.lo) + spec_u128_to_le_bytes(self.hi)
    }

    /// The key with the given 32 bytes.
    pub fn from_array(a: &[u8; 32]) -> (k: Key)
        ensures
            k == key_of_bytes(a@),
    {
        let s = a.as_slice();
        let lo = u128_from_le_bytes(slice_subrange(s, 0, 16));
        let hi = u128_from_le_bytes(slice_subrange(s, 16, 32));
        Key { lo, hi }
    }

    /// The key that stands for a number.
    pub fn from_number(n: u64) -> (k: Key)
        ensures
            k == number_key(n),
    {
        Key { lo: n as u128, hi: 0 }
    }

    /// The key with the given bytes, or `None` unless there are exactly 32.
    pub fn from_slice(s: &[u8]) -> (r: Option<Key>)
        ensures
            r == key_of_wire(s@),
    {
        if s.len() != KEY_LEN {
            None
        } else {
            let lo = u128_from_le_bytes(slice_subrange(s, 0, 16));
            let hi = u128_from_le_bytes(slice_subrange(s, 16, 32));
            Some(Key { lo, hi })
        }
    }

    /// The 32 bytes of the key, in a vector.
    pub fn to_vec(&self) -> (v: Vec<u8>)
        ensures
            v@ == self.bytes(),
            v@.len() == 32,
    {
        let mut v = u128_to_le_bytes(self.lo);
        let mut w = u128_to_le_bytes(self.hi);
        v.append(&mut w);
        v
    }

    /// The 32 bytes of the key, in an array.
    pub fn to_array(&self) -> (a: [u8; 32])
        ensures
            a@ == self.bytes(),
    {
        let v = self.to_vec();
        let mut a: [u8; 32] = [0u8; 32];
        let mut i: usize = 0;
        while i < 32
            invariant
                i <= 32,
                v@.len() == 32,
                forall|j: int| 0 <= j < i ==> a@[j] == v@[j],
            decreases 32 - i,
        {
            a[i] = v[i];
            i = i + 1;
        }
        assert(a@ =~= v@);
        a
    }
}

/// The key that stands for a number, for sequences that are keyed by one.
pub open spec fn number_key(n: u64) -> Key {
    Key { lo: n as u128, hi: 0 }
}

/// The key that 32 bytes stand for.
pub open spec fn key_of_bytes(b: Seq<u8>) -> Key {
    Key {
        lo: spec_u128_from_le_bytes(b.subrange(0, 16)),
        hi: spec_u128_from_le_bytes(b.subrange(16, 32)),
    }
}

/// The key that a byte payload stands for: defined for 32 bytes only.
pub open spec fn key_of_wire(b: Seq<u8>) -> Option<Key> {
    if b.len() == 32 {
        Some(key_of_bytes(b))
    } else {
        None
    }
}

/// The last byte field with this number, read as a key. `None` where the
/// field is absent or not 32 bytes long.
pub open spec fn last_key(fs: Seq<Field>, number: u32) -> Option<Key> {
    match last_bytes(fs, number) {
        Some(b) => key_of_wire(b),
        None => None,
    }
}

/// The last byte field with this number, read as a key that may be absent.
/// A field that is present must be 32 bytes long.
pub open spec fn last_key_opt(fs: Seq<Field>, number: u32) -> Result<Option<Key>, SnapshotError> {
    match last_bytes(fs, number) {
        Some(b) => match key_of_wire(b) {
            Some(k) => Ok(Some(k)),
            None => Err(SnapshotError::MalformedSnapshot),
        },
        None => Ok(None),
    }
}

/// The bytes of a key that may be absent.
pub open spec fn opt_key_bytes(o: Option<Key>) -> Option<Seq<u8>> {
    match o {
        Some(k) => Some(k.bytes()),
        None => None,
    }
}

/// A key has 32 bytes, and they determine it.
pub proof fn lemma_key_round_trip(k: Key)
    ensures
        k.bytes().len() == 32,
        key_of_bytes(k.bytes()) == k,
        key_of_wire(k.bytes()) == Some(k),
{
    lemma_auto_spec_u128_to_from_le_bytes();
    let b = k.bytes();
    assert(b.subrange(0, 16) =~= spec_u128_to_le_bytes(k.lo));
    assert(b.subrange(16, 32) =~= spec_u128_to_le_bytes(k.hi));
}

/// Any 32 bytes are the bytes of the key they stand for.
pub proof fn lemma_bytes_round_trip(b: Seq<u8>)
    requires
        b.len() == 32,
    ensures
        key_of_bytes(b).bytes() == b,
{
    lemma_auto_spec_u128_to_from_le_bytes();
    let lo = b.subrange(0, 16);
    let hi = b.subrange(16, 32);
    assert(spec_u128_to_le_bytes(spec_u128_from_le_bytes(lo)) == lo);
    assert(spec_u128_to_le_bytes(spec_u128_from_le_bytes(hi)) == hi);
    assert(lo + hi =~= b);
}

/// The key field with this number is present and not 32 bytes long.
pub open spec fn wrong_length(fs: Seq<Field>, number: u32) -> bool {
    last_bytes(fs, number) matches Some(b) && b.len() != 32
}

/// A required key field whose payload is not 32 bytes long is read as
/// absent, and an optional one as malformed.
pub proof fn lemma_wrong_length_refused(fs: Seq<Field>, number: u32)
    requires
        wrong_length(fs, number),
    ensures
        last_key(fs, number) is None,
        last_key_opt(fs, number) == Err::<Option<Key>, SnapshotError>(
            SnapshotError::MalformedSnapshot,
        ),
{
}

/// Two runs of 32 bytes stand for the same key only if they are equal.
pub proof fn lemma_key_injective(a: Seq<u8>, b: Seq<u8>)
    requires
        a.len() == 32,
        b.len() == 32,
        key_of_bytes(a) == key_of_bytes(b),
    ensures
        a == b,
{
    lemma_bytes_round_trip(a);
    lemma_bytes_round_trip(b);
}

/// Appends a key as a byte field.
pub fn put_key_field(out: &mut Vec<u8>, number: u32, k: &Key)
    requires
        1 <= number <= MAX_FIELD_NUMBER,
    ensures
        final(out)@ == old(out)@ + bytes_field(number, k.bytes()).bytes(),
{
    let v = k.to_vec();
    put_bytes_field(out, number, v.as_slice());
}

/// The last byte field with this number, read as a key.
pub fn get_key(rec: &Record, number: u32) -> (r: Option<Key>)
    ensures
        r == last_key(rec@, number),
{
    match rec.bytes(number) {
        Some(b) => Key::from_slice(b),
        None => None,
    }
}

/// Appends a key as a byte field where there is one, and nothing where not.
pub fn put_opt_key_field(out: &mut Vec<u8>, number: u32, o: &Option<Key>)
    requires
        1 <= number <= MAX_FIELD_NUMBER,
    ensures
        final(out)@ == old(out)@ + opt_bytes(opt_bytes_field(number, opt_key_bytes(*o))),
{
    match o {
        Some(k) => {
            put_key_field(out, number, k);
        },
        None => {
            assert(out@ =~= old(out)@ + opt_bytes(opt_bytes_field(number, opt_key_bytes(*o))));
        },
    }
}

/// The last byte field with this number, read as a key that may be absent.
pub fn get_key_opt(rec: &Record, number: u32) -> (r: Result<Option<Key>, SnapshotError>)
    ensures
        r == last_key_opt(rec@, number),
{
    match rec.bytes(number) {
        Some(b) => match Key::from_slice(b) {
            Some(k) => Ok(Some(k)),
            None => Err(SnapshotError::MalformedSnapshot),
        },
        None => Ok(None),
    }
}

// ---------------------------------------------------------------------------
// Lists of keys

/// The bytes of each key of a list.
pub open spec fn keys_bytes(keys: Seq<Key>) -> Seq<Seq<u8>> {
    Seq::new(keys.len(), |i: int| keys[i].bytes())
}

/// The keys that a list of byte payloads stands for: defined where every
/// payload has 32 bytes.
pub open spec fn keys_of_wire(items: Seq<Seq<u8>>) -> Option<Seq<Key>>
    decreases items.len(),
{
    if items.len() == 0 {
        Some(Seq::empty())
    } else {
        match (keys_of_wire(items.drop_last()), key_of_wire(items.last())) {
            (Some(init), Some(k)) => Some(init.push(k)),
            _ => None,
        }
    }
}

/// Reading a list of keys undoes writing it.
pub proof fn lemma_keys_round_trip(keys: Seq<Key>)
    ensures
        keys_of_wire(keys_bytes(keys)) == Some(keys),
        forall|i: int| 0 <= i < keys.len() ==> (#[trigger] keys_bytes(keys)[i]).len() == 32,
    decreases keys.len(),
{
    let items = keys_bytes(keys);
    if keys.len() == 0 {
        assert(keys =~= Seq::<Key>::empty());
    } else {
        lemma_keys_round_trip(keys.drop_last());
        assert(items.drop_last() =~= keys_bytes(keys.drop_last()));
        lemma_key_round_trip(keys.last());
        assert(keys.drop_last().push(keys.last()) =~= keys);
    }
    assert forall|i: int| 0 <= i < keys.len() implies (#[trigger] keys_bytes(keys)[i]).len()
        == 32 by {
        lemma_key_round_trip(keys[i]);
    }
}

/// Appends one byte field per key, all under `number`.
pub fn put_keys(out: &mut Vec<u8>, number: u32, keys: &Vec<Key>)
    requires
        1 <= number <= MAX_FIELD_NUMBER,
    ensures
        final(out)@ == old(out)@ + fields_bytes(repeated_bytes(number, keys_bytes(keys@))),
{
    let mut chunks: Vec<Vec<u8>> = Vec::new();
    let n: usize = keys.len();
    let mut i: usize = 0;
    while i < n
        invariant
            n == keys@.len(),
            i <= n,
            chunks@.len() == i,
            chunks_view(chunks@) == keys_bytes(keys@).take(i as int),
        decreases n - i,
    {
        let v = keys[i].to_vec();
        let ghost before = chunks@;
        chunks.push(v);
        assert forall|j: int| 0 <= j < i + 1 implies chunks_view(chunks@)[j] == keys_bytes(
            keys@,
        ).take(i + 1)[j] by {
            if j < i {
                assert(chunks_view(before)[j] == keys_bytes(keys@).take(i as int)[j]);
            }
        }
        assert(chunks_view(chunks@) =~= keys_bytes(keys@).take(i + 1));
        i = i + 1;
    }
    assert(keys_bytes(keys@).take(n as int) =~= keys_bytes(keys@));
    put_repeated(out, number, &chunks);
}

/// All byte fields with this number, read as keys; `None` where one of them
/// is not 32 bytes long.
pub fn get_keys(rec: &Record, number: u32) -> (r: Option<Vec<Key>>)
    ensures
        match r {
            Some(keys) => keys_of_wire(all_bytes(rec@, number)) == Some(keys@),
            None => keys_of_wire(all_bytes(rec@, number)) is None,
        },
{
    let items = rec.all_bytes(number);
    let ghost raw = slices_view(items@);
    let mut keys: Vec<Key> = Vec::new();
    let n: usize = items.len();
    let mut i: usize = 0;
    assert(raw.take(0) =~= Seq::<Seq<u8>>::empty());
    while i < n
        invariant
            n == items@.len(),
            i <= n,
            raw == slices_view(items@),
            raw == all_bytes(rec@, number),
            keys_of_wire(raw.take(i as int)) == Some(keys@),
        decreases n - i,
    {
        proof {
            assert(raw.take(i + 1).drop_last() =~= raw.take(i as int));
            assert(raw.take(i + 1).last() == raw[i as int]);
        }
        match Key::from_slice(items[i]) {
            Some(k) => {
                keys.push(k);
            },
            None => {
                proof {
                    assert(key_of_wire(raw.take(i + 1).last()) is None);
                    assert(keys_of_wire(raw.take(i + 1)) is None);
                    lemma_keys_prefix_none(raw, i + 1);
                }
                return None;
            },
        }
        i = i + 1;
    }
    assert(raw.take(n as int) =~= raw);
    Some(keys)
}

/// A list of keys with a payload that is not 32 bytes long stands for
/// nothing.
pub proof fn lemma_keys_wrong_length(items: Seq<Seq<u8>>, i: int)
    requires
        0 <= i < items.len(),
        items[i].len() != 32,
    ensures
        keys_of_wire(items) is None,
{
    assert(items.take(i + 1).drop_last() =~= items.take(i));
    assert(items.take(i + 1).last() == items[i]);
    lemma_keys_prefix_none(items, i + 1);
}

/// A payload of the wrong length among the first items spoils the list.
pub proof fn lemma_keys_prefix_none(items: Seq<Seq<u8>>, i: int)
    requires
        0 <= i <= items.len(),
        keys_of_wire(items.take(i)) is None,
    ensures
        keys_of_wire(items) is None,
    decreases items.len() - i,
{
    if i == items.len() {
        assert(items.take(i) =~= items);
    } else {
        assert(items.take(i + 1).drop_last() =~= items.take(i));
        lemma_keys_prefix_none(items, i + 1);
    }
}

} // verus!
