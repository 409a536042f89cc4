//! Scalar fields with a narrower domain than their wire type.

use crate::error::SnapshotError;
use crate::reader::Record;
use crate::wire::{last_varint, Field};
use vstd::prelude::*;

verus! {

/// Turns an absent value into the error for a malformed snapshot.
pub fn required<T>(o: Option<T>) -> (r: Result<T, SnapshotError>)
    ensures
        match o {
            Some(v) => r == Ok::<T, SnapshotError>(v),
            None => r == Err::<T, SnapshotError>(SnapshotError::MalformedSnapshot),
        },
{
    match o {
        Some(v) => Ok(v),
        None => Err(SnapshotError::MalformedSnapshot),
    }
}

/// The flag that a varint stands for: 0 or 1, nothing else.
pub open spec fn flag_of(v: u64) -> Option<bool> {
    if v == 0 {
        Some(false)
    } else if v == 1 {
        Some(true)
    } else {
        None
    }
}

/// The last varint field with this number, read as a flag.
pub open spec fn last_flag(fs: Seq<Field>, number: u32) -> Option<bool> {
    match last_varint(fs, number) {
        Some(v) => flag_of(v),
        None => None,
    }
}

/// The last varint field with this number, read as a flag.
pub fn get_flag(rec: &Record, number: u32) -> (r: Option<bool>)
    ensures
        r == last_flag(rec@, number),
{
    match rec.varint(number) {
        Some(v) => if v == 0 {
            Some(false)
        } else if v == 1 {
            Some(true)
        } else {
            None
        },
        None => None,
    }
}

/// The last varint field with this number, where it is at most `max`.
pub open spec fn last_bounded(fs: Seq<Field>, number: u32, max: u64) -> Option<u64> {
    match last_varint(fs, number) {
        Some(v) => if v <= max {
            Some(v)
        } else {
            None
        },
        None => None,
    }
}

/// The last varint field with this number, where it is at most `max`.
pub fn get_bounded(rec: &Record, number: u32, max: u64) -> (r: Option<u64>)
    ensures
        r == last_bounded(rec@, number, max),
{
    match rec.varint(number) {
        Some(v) => if v <= max {
            Some(v)
        } else {
            None
        },
        None => None,
    }
}

/// The last varint field with this number, which may be absent. A field
/// that is present must be at most `max`.
pub open spec fn last_bounded_opt(fs: Seq<Field>, number: u32, max: u64) -> Result<
    Option<u64>,
    SnapshotError,
> {
    match last_varint(fs, number) {
        Some(v) => if v <= max {
            Ok(Some(v))
        } else {
            Err(SnapshotError::MalformedSnapshot)
        },
        None => Ok(None),
    }
}

/// The last varint field with this number, which may be absent.
pub fn get_bounded_opt(rec: &Record, number: u32, max: u64) -> (r: Result<
    Option<u64>,
    SnapshotError,
>)
    ensures
        r == last_bounded_opt(rec@, number, max),
{
    match rec.varint(number) {
        Some(v) => if v <= max {
            Ok(Some(v))
        } else {
            Err(SnapshotError::MalformedSnapshot)
        },
        None => Ok(None),
    }
}

/// The unsigned wire value of a signed number: its two's complement.
pub open spec fn signed_wire(t: i64) -> u64 {
    if t >= 0 {
        t as u64
    } else {
        (t + 0x1_0000_0000_0000_0000) as u64
    }
}

/// The signed number that an unsigned wire value stands for.
pub open spec fn signed_of_wire(w: u64) -> i64 {
    if w <= 0x7fff_ffff_ffff_ffff {
        w as i64
    } else {
        (w - 0x1_0000_0000_0000_0000) as i64
    }
}

/// The two conversions undo each other.
pub proof fn lemma_signed_round_trip(t: i64)
    ensures
        signed_of_wire(signed_wire(t)) == t,
{
}

/// The unsigned wire value of a signed number.
pub fn signed_to_wire(t: i64) -> (w: u64)
    ensures
        w == signed_wire(t),
{
    if t >= 0 {
        t as u64
    } else {
        let m: u64 = (-(t + 1)) as u64;
        u64::MAX - m
    }
}

/// The signed number that an unsigned wire value stands for.
pub fn signed_from_wire(w: u64) -> (t: i64)
    ensures
        t == signed_of_wire(w),
{
    if w <= 0x7fff_ffff_ffff_ffff {
        w as i64
    } else {
        let m: i64 = (u64::MAX - w) as i64;
        -1 - m
    }
}

} // verus!
