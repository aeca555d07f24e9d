//! Chart axis bounds over IEEE 754 bit patterns.
//!
//! Values are carried as the raw bits of doubles. Non-NaN doubles are
//! ordered through a monotone integer key, so the bounds fold is exact
//! integer logic: NaN observations are excluded from the bounds
//! deterministically, and an all-NaN (or empty) series leaves the seeds —
//! the bounds of an empty fold, +infinity for the minimum and -infinity for
//! the maximum.

use vstd::prelude::*;

verus! {

/// Bit pattern of +infinity: the seed of the running minimum.
pub const F64_POS_INF_BITS: u64 = 0x7ff0_0000_0000_0000;

/// Bit pattern of -infinity: the seed of the running maximum.
pub const F64_NEG_INF_BITS: u64 = 0xfff0_0000_0000_0000;

/// Whether `b` encodes an IEEE 754 NaN: exponent all ones and a nonzero
/// fraction.
pub open spec fn f64_bits_is_nan(b: u64) -> bool {
    (b >> 52) & 0x7ff == 0x7ff && (b & 0x000f_ffff_ffff_ffff) != 0
}

/// A key that orders non-NaN doubles as the real line does: a negative
/// double has all bits flipped, any other has the sign bit set. The one
/// departure from numeric order is that -0.0 sorts below +0.0, which keeps
/// the fold deterministic where the floating-point minimum is free to pick
/// either zero.
pub open spec fn f64_bits_key(b: u64) -> u64 {
    if (b >> 63) == 1 {
        !b
    } else {
        b ^ 0x8000_0000_0000_0000
    }
}

/// The values of a point list.
pub open spec fn vals_of(pts: Seq<(usize, u64)>) -> Seq<u64> {
    Seq::new(pts.len(), |i: int| pts[i].1)
}

/// The lower chart bound: the least non-NaN value, seeded with +infinity.
pub open spec fn y_min_bits(vals: Seq<u64>) -> u64
    decreases vals.len(),
{
    if vals.len() == 0 {
        F64_POS_INF_BITS
    } else {
        let prev = y_min_bits(vals.drop_last());
        let v = vals.last();
        if f64_bits_is_nan(v) {
            prev
        } else if f64_bits_key(v) < f64_bits_key(prev) {
            v
        } else {
            prev
        }
    }
}

/// The upper chart bound: the greatest non-NaN value, seeded with
/// -infinity.
pub open spec fn y_max_bits(vals: Seq<u64>) -> u64
    decreases vals.len(),
{
    if vals.len() == 0 {
        F64_NEG_INF_BITS
    } else {
        let prev = y_max_bits(vals.drop_last());
        let v = vals.last();
        if f64_bits_is_nan(v) {
            prev
        } else if f64_bits_key(v) > f64_bits_key(prev) {
            v
        } else {
            prev
        }
    }
}

/// NaN test on raw double bits.
pub fn is_nan_bits(b: u64) -> (r: bool)
    ensures
        r == f64_bits_is_nan(b),
{
    ((b >> 52) & 0x7ff) == 0x7ff && (b & 0x000f_ffff_ffff_ffff) != 0
}

/// The monotone ordering key of a double's bits.
pub fn key_bits(b: u64) -> (r: u64)
    ensures
        r == f64_bits_key(b),
{
    if (b >> 63) == 1 {
        !b
    } else {
        b ^ 0x8000_0000_0000_0000
    }
}

/// Both chart bounds of a point list in one pass: the least and greatest
/// non-NaN value, seeded with +infinity and -infinity.
pub fn y_bounds(points: &Vec<(usize, u64)>) -> (r: (u64, u64))
    ensures
        r.0 == y_min_bits(vals_of(points@)),
        r.1 == y_max_bits(vals_of(points@)),
{
    let ghost vals = vals_of(points@);
    let mut lo: u64 = F64_POS_INF_BITS;
    let mut hi: u64 = F64_NEG_INF_BITS;
    let mut i: usize = 0;
    proof {
        assert(vals.take(0) =~= Seq::<u64>::empty());
    }
    while i < points.len()
        invariant
            vals == vals_of(points@),
            i <= points@.len(),
            lo == y_min_bits(vals.take(i as int)),
            hi == y_max_bits(vals.take(i as int)),
        decreases points@.len() - i,
    {
        let v = points[i].1;
        proof {
            assert(vals.take(i + 1).drop_last() =~= vals.take(i as int));
            assert(vals.take(i + 1).last() == v);
        }
        if !is_nan_bits(v) {
            let kv = key_bits(v);
            if kv < key_bits(lo) {
                lo = v;
            }
            if kv > key_bits(hi) {
                hi = v;
            }
        }
        i = i + 1;
    }
    proof {
        assert(vals.take(points@.len() as int) =~= vals);
    }
    (lo, hi)
}

} // verus!
