//! Appending fields to a byte buffer.

use crate::varint::{put_varint, varint_bytes};
use crate::wire::{
    bytes_field, fixed64_field, opt_bytes, opt_varint_field, varint_field, MAX_FIELD_NUMBER,
};
use vstd::bytes::u64_to_le_bytes;
use vstd::prelude::*;
use vstd::slice::slice_to_vec;

verus! {

/// Appends `data` to `out`.
pub fn put_bytes(out: &mut Vec<u8>, data: &[u8])
    ensures
        final(out)@ == old(out)@ + data@,
{
    let mut copy = slice_to_vec(data);
    out.append(&mut copy);
}

/// Appends the key of a field: its number and the code of its wire type.
fn put_key(out: &mut Vec<u8>, number: u32, code: u64)
    requires
        1 <= number <= MAX_FIELD_NUMBER,
        code < 8,
    ensures
        final(out)@ == old(out)@ + varint_bytes(number as nat * 8 + code as nat),
{
    let key: u64 = (number as u64) * 8 + code;
    put_varint(out, key);
}

/// Appends a varint field.
pub fn put_varint_field(out: &mut Vec<u8>, number: u32, v: u64)
    requires
        1 <= number <= MAX_FIELD_NUMBER,
    ensures
        final(out)@ == old(out)@ + varint_field(number, v).bytes(),
{
    put_key(out, number, 0);
    put_varint(out, v);
    assert(out@ =~= old(out)@ + varint_field(number, v).bytes());
}

/// Appends a field of eight little-endian bytes.
pub fn put_fixed64_field(out: &mut Vec<u8>, number: u32, v: u64)
    requires
        1 <= number <= MAX_FIELD_NUMBER,
    ensures
        final(out)@ == old(out)@ + fixed64_field(number, v).bytes(),
{
    put_key(out, number, 1);
    let mut body = u64_to_le_bytes(v);
    out.append(&mut body);
    assert(out@ =~= old(out)@ + fixed64_field(number, v).bytes());
}

/// Appends a field of length-prefixed bytes.
pub fn put_bytes_field(out: &mut Vec<u8>, number: u32, data: &[u8])
    requires
        1 <= number <= MAX_FIELD_NUMBER,
    ensures
        final(out)@ == old(out)@ + bytes_field(number, data@).bytes(),
        bytes_field(number, data@).ok(),
{
    put_key(out, number, 2);
    let len: u64 = data.len() as u64;
    put_varint(out, len);
    put_bytes(out, data);
    assert(out@ =~= old(out)@ + bytes_field(number, data@).bytes());
}

/// Appends a varint field holding 1 for `true` and 0 for `false`.
pub fn put_bool_field(out: &mut Vec<u8>, number: u32, b: bool)
    requires
        1 <= number <= MAX_FIELD_NUMBER,
    ensures
        final(out)@ == old(out)@ + varint_field(number, bool_value(b)).bytes(),
{
    let v: u64 = if b {
        1
    } else {
        0
    };
    put_varint_field(out, number, v);
}

/// Appends a varint field where there is a value, and nothing where not.
pub fn put_opt_varint_field(out: &mut Vec<u8>, number: u32, o: Option<u64>)
    requires
        1 <= number <= MAX_FIELD_NUMBER,
    ensures
        final(out)@ == old(out)@ + opt_bytes(opt_varint_field(number, o)),
{
    match o {
        Some(v) => {
            put_varint_field(out, number, v);
        },
        None => {
            assert(out@ =~= old(out)@ + opt_bytes(opt_varint_field(number, o)));
        },
    }
}

/// The wire value of a flag.
pub open spec fn bool_value(b: bool) -> u64 {
    if b {
        1
    } else {
        0
    }
}

} // verus!
