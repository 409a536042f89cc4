//! Repeated fields: sequences of nested records under one field number, and
//! the check that the keys of a keyed sequence are distinct.

use crate::key::{number_key, Key};
use crate::wire::{
    bytes_field, fields_bytes, fields_ok, lemma_fields_bytes_push, lemma_matching_concat,
    lemma_matching_repeated_bytes, lemma_matching_repeated_varints, matching, repeated_bytes,
    repeated_varints, varint_field, Field, Kind, Payload, MAX_FIELD_NUMBER,
};
use crate::writer::{put_bytes_field, put_varint_field};
use std::collections::HashSet;
use vstd::prelude::*;

verus! {

/// The contents of a list of byte vectors.
pub open spec fn chunks_view(v: Seq<Vec<u8>>) -> Seq<Seq<u8>> {
    Seq::new(v.len(), |i: int| v[i]@)
}

/// Lookups in a record that ends in a run of byte fields under one number.
pub broadcast proof fn lemma_matching_after_bytes(
    a: Seq<Field>,
    tag: u32,
    items: Seq<Seq<u8>>,
    number: u32,
    kind: Kind,
)
    ensures
        #[trigger] matching(a + repeated_bytes(tag, items), number, kind) == if number == tag
            && kind == Kind::Bytes {
            matching(a, number, kind) + Seq::new(items.len(), |i: int| Payload::Bytes(items[i]))
        } else {
            matching(a, number, kind)
        },
{
    lemma_matching_concat(a, repeated_bytes(tag, items), number, kind);
    lemma_matching_repeated_bytes(tag, items, number, kind);
    assert(matching(a, number, kind) + Seq::<Payload>::empty() =~= matching(a, number, kind));
}

/// Lookups in a record that ends in a run of varint fields under one number.
pub broadcast proof fn lemma_matching_after_varints(
    a: Seq<Field>,
    tag: u32,
    items: Seq<u64>,
    number: u32,
    kind: Kind,
)
    ensures
        #[trigger] matching(a + repeated_varints(tag, items), number, kind) == if number == tag
            && kind == Kind::Varint {
            matching(a, number, kind) + Seq::new(items.len(), |i: int| Payload::Varint(items[i]))
        } else {
            matching(a, number, kind)
        },
{
    lemma_matching_concat(a, repeated_varints(tag, items), number, kind);
    lemma_matching_repeated_varints(tag, items, number, kind);
    assert(matching(a, number, kind) + Seq::<Payload>::empty() =~= matching(a, number, kind));
}

/// A run of byte fields can be written where each item fits its prefix.
pub proof fn lemma_repeated_bytes_ok(tag: u32, items: Seq<Seq<u8>>)
    requires
        1 <= tag <= MAX_FIELD_NUMBER,
        forall|i: int| 0 <= i < items.len() ==> (#[trigger] items[i]).len() <= u64::MAX,
    ensures
        fields_ok(repeated_bytes(tag, items)),
{
    let fs = repeated_bytes(tag, items);
    assert forall|i: int| 0 <= i < fs.len() implies (#[trigger] fs[i]).ok() by {
        assert(items[i].len() <= u64::MAX);
    }
}

/// A run of varint fields can always be written.
pub proof fn lemma_repeated_varints_ok(tag: u32, items: Seq<u64>)
    requires
        1 <= tag <= MAX_FIELD_NUMBER,
    ensures
        fields_ok(repeated_varints(tag, items)),
{
}

/// Appends one byte field per chunk, all under `number`.
pub fn put_repeated(out: &mut Vec<u8>, number: u32, chunks: &Vec<Vec<u8>>)
    requires
        1 <= number <= MAX_FIELD_NUMBER,
    ensures
        final(out)@ == old(out)@ + fields_bytes(repeated_bytes(number, chunks_view(chunks@))),
        forall|i: int| 0 <= i < chunks@.len() ==> (#[trigger] chunks@[i])@.len() <= u64::MAX,
{
    let ghost items = chunks_view(chunks@);
    let n: usize = chunks.len();
    let mut i: usize = 0;
    assert(repeated_bytes(number, items.take(0)) =~= Seq::<Field>::empty());
    assert(out@ =~= old(out)@ + fields_bytes(repeated_bytes(number, items.take(0))));
    while i < n
        invariant
            n == chunks@.len(),
            i <= n,
            items == chunks_view(chunks@),
            1 <= number <= MAX_FIELD_NUMBER,
            out@ == old(out)@ + fields_bytes(repeated_bytes(number, items.take(i as int))),
        decreases n - i,
    {
        put_bytes_field(out, number, chunks[i].as_slice());
        proof {
            let prev = repeated_bytes(number, items.take(i as int));
            let f = bytes_field(number, items[i as int]);
            assert(repeated_bytes(number, items.take(i + 1)) =~= prev.push(f));
            lemma_fields_bytes_push(prev, f);
            assert(out@ =~= old(out)@ + fields_bytes(repeated_bytes(number, items.take(i + 1))));
        }
        i = i + 1;
    }
    assert(items.take(n as int) =~= items);
    assert forall|i: int| 0 <= i < chunks@.len() implies (#[trigger] chunks@[i])@.len()
        <= u64::MAX by {
        assert(chunks@[i].len() == chunks@[i]@.len());
    }
}

/// Appends one varint field per item, all under `number`.
pub fn put_repeated_varints(out: &mut Vec<u8>, number: u32, items: &Vec<u64>)
    requires
        1 <= number <= MAX_FIELD_NUMBER,
    ensures
        final(out)@ == old(out)@ + fields_bytes(repeated_varints(number, items@)),
{
    let n: usize = items.len();
    let mut i: usize = 0;
    assert(repeated_varints(number, items@.take(0)) =~= Seq::<Field>::empty());
    assert(out@ =~= old(out)@ + fields_bytes(repeated_varints(number, items@.take(0))));
    while i < n
        invariant
            n == items@.len(),
            i <= n,
            1 <= number <= MAX_FIELD_NUMBER,
            out@ == old(out)@ + fields_bytes(repeated_varints(number, items@.take(i as int))),
        decreases n - i,
    {
        put_varint_field(out, number, items[i]);
        proof {
            let prev = repeated_varints(number, items@.take(i as int));
            let f = varint_field(number, items@[i as int]);
            assert(repeated_varints(number, items@.take(i + 1)) =~= prev.push(f));
            lemma_fields_bytes_push(prev, f);
            assert(out@ =~= old(out)@ + fields_bytes(
                repeated_varints(number, items@.take(i + 1)),
            ));
        }
        i = i + 1;
    }
    assert(items@.take(n as int) =~= items@);
}

/// Whether no key occurs twice, by comparing every pair.
fn distinct_keys_by_pairs(keys: &Vec<Key>) -> (r: bool)
    ensures
        r == keys@.no_duplicates(),
{
    let n: usize = keys.len();
    let mut i: usize = 0;
    while i < n
        invariant
            n == keys@.len(),
            i <= n,
            forall|a: int, b: int| 0 <= b < a < i ==> keys@[a] != keys@[b],
        decreases n - i,
    {
        let mut j: usize = 0;
        while j < i
            invariant
                n == keys@.len(),
                i < n,
                j <= i,
                forall|b: int| 0 <= b < j ==> keys@[i as int] != keys@[b],
            decreases i - j,
        {
            if keys[i] == keys[j] {
                assert(!keys@.no_duplicates()) by {
                    assert(keys@[i as int] == keys@[j as int]);
                }
                return false;
            }
            j = j + 1;
        }
        i = i + 1;
    }
    assert(keys@.no_duplicates()) by {
        assert forall|a: int, b: int|
            0 <= a < keys@.len() && 0 <= b < keys@.len() && a != b implies keys@[a] != keys@[b] by {
            if a > b {
                assert(keys@[a] != keys@[b]);
            } else {
                assert(keys@[b] != keys@[a]);
            }
        }
    }
    true
}

/// Whether no key occurs twice. Keys whose first halves are all different
/// are told apart in one pass over a hash set; only where two first halves
/// agree is every pair compared.
pub fn distinct_keys(keys: &Vec<Key>) -> (r: bool)
    ensures
        r == keys@.no_duplicates(),
{
    broadcast use vstd::std_specs::hash::group_hash_axioms;

    let mut seen: HashSet<u128> = HashSet::new();
    let n: usize = keys.len();
    let mut i: usize = 0;
    while i < n
        invariant
            n == keys@.len(),
            i <= n,
            forall|a: int| 0 <= a < i ==> seen@.contains(#[trigger] keys@[a].lo),
            forall|a: int, b: int| 0 <= b < a < i ==> keys@[a].lo != keys@[b].lo,
        decreases n - i,
    {
        let fresh = seen.insert(keys[i].lo);
        if !fresh {
            return distinct_keys_by_pairs(keys);
        }
        i = i + 1;
    }
    assert(keys@.no_duplicates()) by {
        assert forall|a: int, b: int|
            0 <= a < keys@.len() && 0 <= b < keys@.len() && a != b implies keys@[a] != keys@[b] by {
            if a > b {
                assert(keys@[a].lo != keys@[b].lo);
            } else {
                assert(keys@[b].lo != keys@[a].lo);
            }
        }
    }
    true
}

/// Whether no number occurs twice.
pub fn distinct_numbers(items: &Vec<u64>) -> (r: bool)
    ensures
        r == items@.no_duplicates(),
{
    let n: usize = items.len();
    let mut keys: Vec<Key> = Vec::new();
    let mut i: usize = 0;
    while i < n
        invariant
            n == items@.len(),
            i <= n,
            keys@.len() == i,
            forall|j: int| 0 <= j < i ==> (#[trigger] keys@[j]) == number_key(items@[j]),
        decreases n - i,
    {
        keys.push(Key::from_number(items[i]));
        i = i + 1;
    }
    let r = distinct_keys(&keys);
    proof {
        if keys@.no_duplicates() {
            assert forall|a: int, b: int|
                0 <= a < items@.len() && 0 <= b < items@.len() && a != b implies items@[a]
                != items@[b] by {
                assert(keys@[a] != keys@[b]);
            }
        }
        if items@.no_duplicates() {
            assert forall|a: int, b: int|
                0 <= a < keys@.len() && 0 <= b < keys@.len() && a != b implies keys@[a]
                != keys@[b] by {
                assert(items@[a] != items@[b]);
                assert(keys@[a].lo != keys@[b].lo);
            }
        }
    }
    r
}

} // verus!
