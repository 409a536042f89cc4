//! Base-128 variable-length integers, the building block of the wire format.
//!
//! The byte-level work is done by `prost`; this module states what those
//! routines compute and proves that reading undoes writing.

use vstd::prelude::*;

verus! {

/// The bytes of `v` as a base-128 varint: seven bits per byte, least
/// significant group first, high bit set on every byte but the last.
pub open spec fn varint_bytes(v: nat) -> Seq<u8>
    decreases v,
{
    if v < 128 {
        seq![v as u8]
    } else {
        seq![(v % 128 + 128) as u8] + varint_bytes(v / 128)
    }
}

/// Reads one varint from the front of `s`, given that `depth` bytes of it
/// were consumed before `s`. Returns the value of the part that starts at `s`
/// and the number of bytes it takes, or `None` where no varint of at most ten
/// bytes that fits 64 bits starts there.
pub open spec fn varint_prefix_from(s: Seq<u8>, depth: nat) -> Option<(nat, nat)>
    decreases s.len(),
{
    if s.len() == 0 || depth >= 10 {
        None
    } else if s[0] < 128 {
        if depth == 9 && s[0] >= 2 {
            None
        } else {
            Some((s[0] as nat, 1nat))
        }
    } else {
        match varint_prefix_from(s.skip(1), depth + 1) {
            Some((v, n)) => Some((((s[0] - 128) as nat) + 128 * v, n + 1)),
            None => None,
        }
    }
}

/// Reads one varint from the front of `s`: its value and its length in bytes.
pub open spec fn varint_prefix(s: Seq<u8>) -> Option<(nat, nat)> {
    varint_prefix_from(s, 0)
}

/// Exclusive bound on the value that may still follow after `depth` bytes.
pub open spec fn varint_limit(depth: nat) -> nat
    decreases 9 - depth,
{
    if depth >= 9 {
        2
    } else {
        128 * varint_limit(depth + 1)
    }
}

/// A varint of ten bytes holds exactly the 64-bit values.
pub proof fn lemma_varint_limit_zero()
    ensures
        varint_limit(0) == 0x1_0000_0000_0000_0000,
{
    reveal_with_fuel(varint_limit, 11);
}

/// Every depth leaves room for at least the values 0 and 1.
pub proof fn lemma_varint_limit_floor(depth: nat)
    ensures
        varint_limit(depth) >= 2,
    decreases 9 - depth,
{
    if depth < 9 {
        lemma_varint_limit_floor(depth + 1);
    }
}

/// A varint takes between one and ten bytes.
pub proof fn lemma_varint_bytes_len(v: nat, depth: nat)
    requires
        depth <= 9,
        v < varint_limit(depth),
    ensures
        1 <= varint_bytes(v).len() <= 10 - depth,
    decreases v,
{
    if v >= 128 {
        assert(depth < 9);
        assert(v / 128 < varint_limit(depth + 1));
        lemma_varint_bytes_len(v / 128, depth + 1);
    }
}

/// What was read lies within the input, takes at least one byte, and stays
/// under the limit of its depth.
pub proof fn lemma_varint_prefix_bounds(s: Seq<u8>, depth: nat)
    requires
        varint_prefix_from(s, depth) is Some,
    ensures
        depth <= 9,
        1 <= varint_prefix_from(s, depth)->Some_0.1 <= s.len(),
        varint_prefix_from(s, depth)->Some_0.1 <= 10 - depth,
        varint_prefix_from(s, depth)->Some_0.0 < varint_limit(depth),
    decreases s.len(),
{
    lemma_varint_limit_floor(depth);
    if s[0] >= 128 {
        lemma_varint_prefix_bounds(s.skip(1), depth + 1);
    } else if depth < 9 {
        lemma_varint_limit_floor(depth + 1);
    }
}

/// Reading undoes writing, whatever follows the varint.
pub proof fn lemma_varint_round_trip_from(v: nat, rest: Seq<u8>, depth: nat)
    requires
        depth <= 9,
        v < varint_limit(depth),
    ensures
        varint_prefix_from(varint_bytes(v) + rest, depth) == Some((v, varint_bytes(v).len())),
    decreases v,
{
    let s = varint_bytes(v) + rest;
    if v < 128 {
        assert(s[0] == v as u8);
    } else {
        assert(depth < 9);
        let tail = varint_bytes(v / 128);
        assert(s[0] == (v % 128 + 128) as u8);
        assert(s.skip(1) =~= tail + rest);
        assert(v / 128 < varint_limit(depth + 1));
        lemma_varint_round_trip_from(v / 128, rest, depth + 1);
        assert(v % 128 + 128 * (v / 128) == v);
    }
}

/// Reading undoes writing for every 64-bit value, whatever follows.
pub proof fn lemma_varint_round_trip(v: u64, rest: Seq<u8>)
    ensures
        varint_prefix(varint_bytes(v as nat) + rest) == Some(
            (v as nat, varint_bytes(v as nat).len()),
        ),
        1 <= varint_bytes(v as nat).len() <= 10,
{
    lemma_varint_limit_zero();
    lemma_varint_round_trip_from(v as nat, rest, 0);
    lemma_varint_bytes_len(v as nat, 0);
}

/// Calls `prost::encoding::encode_varint` on the vector. That routine appends
/// the base-128 encoding of `v`, low group first, and touches nothing that
/// was in the buffer before.
#[verifier::external_body]
pub(crate) fn prost_encode_varint(v: u64, out: &mut Vec<u8>)
    ensures
        final(out)@ == old(out)@ + varint_bytes(v as nat),
{
    prost::encoding::encode_varint(v, out);
}

/// Calls `prost::encoding::decode_varint` on the slice. That routine reads
/// bytes up to the first one without the high bit, at most ten, and refuses
/// an empty or truncated input and a tenth byte above one. On success the
/// result holds the value and the number of bytes left unread.
#[verifier::external_body]
pub(crate) fn prost_decode_varint(bytes: &[u8]) -> (r: Option<(u64, usize)>)
    ensures
        match r {
            Some((v, left)) => left <= bytes@.len() && varint_prefix(bytes@) == Some(
                (v as nat, (bytes@.len() - left) as nat),
            ),
            None => varint_prefix(bytes@) is None,
        },
{
    let mut rest: &[u8] = bytes;
    match prost::encoding::decode_varint(&mut rest) {
        Ok(v) => Some((v, rest.len())),
        Err(_) => None,
    }
}

/// Appends the varint of `v` to `out`.
pub fn put_varint(out: &mut Vec<u8>, v: u64)
    ensures
        final(out)@ == old(out)@ + varint_bytes(v as nat),
{
    prost_encode_varint(v, out);
}

/// Reads the varint that starts at `pos`: its value and the position after
/// it, or `None` where no valid varint starts there.
pub fn read_varint(bytes: &[u8], pos: usize) -> (r: Option<(u64, usize)>)
    requires
        pos <= bytes@.len(),
    ensures
        match r {
            Some((v, next)) => pos < next <= bytes@.len() && varint_prefix(bytes@.skip(pos as int))
                == Some((v as nat, (next - pos) as nat)),
            None => varint_prefix(bytes@.skip(pos as int)) is None,
        },
{
    let tail = vstd::slice::slice_subrange(bytes, pos, bytes.len());
    assert(tail@ =~= bytes@.skip(pos as int));
    match prost_decode_varint(tail) {
        Some((v, left)) => {
            proof {
                lemma_varint_prefix_bounds(tail@, 0);
            }
            let next: usize = bytes.len() - left;
            Some((v, next))
        },
        None => None,
    }
}

} // verus!
