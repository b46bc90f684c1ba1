//! Probabilities and other floating-point readings, carried as integers.
//!
//! A reading stands as its order key: the integer with the same order among keys as the reading
//! has among readings. The key of a finite `f64` is its magnitude's bit pattern, with the
//! reading's sign; both zeros have the key 0.

use vstd::prelude::*;

verus! {

/// The sign bit of a 64-bit float.
pub const SIGN_BIT: u64 = 0x8000_0000_0000_0000;

/// The key of positive infinity; finite readings have smaller magnitudes.
pub const INFINITY_KEY: i64 = 0x7FF0_0000_0000_0000;

/// The order key of a bit pattern.
pub open spec fn key_of(bits: u64) -> int {
    if bits < SIGN_BIT {
        bits as int
    } else {
        SIGN_BIT - bits
    }
}

/// The order key of a bit pattern.
pub fn key_of_bits(bits: u64) -> (r: i64)
    ensures
        r == key_of(bits),
{
    if bits < SIGN_BIT {
        bits as i64
    } else {
        -((bits - SIGN_BIT) as i64)
    }
}

/// A bit pattern with an order key.
pub fn bits_of_key(key: i64) -> (r: u64)
    requires
        key != i64::MIN,
    ensures
        key_of(r) == key,
{
    if key >= 0 {
        key as u64
    } else {
        SIGN_BIT + ((-key) as u64)
    }
}

/// Whether a key stands for a finite reading.
pub open spec fn finite_key(key: int) -> bool {
    -INFINITY_KEY < key < INFINITY_KEY
}

/// Whether a key stands for a finite reading.
pub fn is_finite_key(key: i64) -> (r: bool)
    ensures
        r == finite_key(key as int),
{
    -INFINITY_KEY < key && key < INFINITY_KEY
}

/// A key is finite exactly where the exponent of its reading is not all ones.
pub proof fn law_finite_has_no_full_exponent(bits: u64)
    ensures
        finite_key(key_of(bits)) <==> bits & 0x7FF0_0000_0000_0000u64 != 0x7FF0_0000_0000_0000u64,
{
    assert(bits < 0x8000_0000_0000_0000u64 ==> (bits < 0x7FF0_0000_0000_0000u64 <==> bits
        & 0x7FF0_0000_0000_0000u64 != 0x7FF0_0000_0000_0000u64)) by (bit_vector);
    assert(bits >= 0x8000_0000_0000_0000u64 ==> (bits < 0xFFF0_0000_0000_0000u64 <==> bits
        & 0x7FF0_0000_0000_0000u64 != 0x7FF0_0000_0000_0000u64)) by (bit_vector);
}

/// Keys stand in the order of their readings: among readings of one sign by their bit patterns,
/// which fall below zero, and negative ones below the others. Setting the sign turns a key's sign.
pub proof fn law_keys_order_as_readings(a: u64, b: u64)
    ensures
        a < b < SIGN_BIT ==> key_of(a) < key_of(b),
        SIGN_BIT <= a < b ==> key_of(a) > key_of(b),
        a < SIGN_BIT <= b ==> key_of(a) >= 0 >= key_of(b),
        a < SIGN_BIT ==> key_of(a) == -key_of((SIGN_BIT + a) as u64),
{
}

} // verus!
