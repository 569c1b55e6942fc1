use crate::land::terrain_map::Vec3;
use vstd::arithmetic::div_mod::{lemma_mod_multiples_vanish, lemma_small_mod};
use vstd::prelude::*;
use vstd::wrapping::i32_specs;

verus! {

/// Types implementing [RelativeTo] can be subtracted with [RelativeTo::subtract] to compute
/// some delta of type [RelativeTo::Delta]. The delta can be passed to [RelativeTo::add] to
/// recompute the original value.
pub trait RelativeTo: Copy + Sized {
    /// A [RelativeTo::Delta] is a signed version of the type implementing [RelativeTo].
    type Delta: Copy;

    /// The value that a grid holds where nothing else is known.
    spec fn base() -> Self;

    /// The delta between a value and itself.
    spec fn zero() -> Self::Delta;

    /// The delta that takes `rhs` to `lhs`.
    spec fn difference(lhs: Self, rhs: Self) -> Self::Delta;

    /// The value that the delta `rhs` takes `lhs` to.
    spec fn sum(lhs: Self, rhs: Self::Delta) -> Self;

    /// Subtract `rhs` from `lhs` and return the [RelativeTo::Delta].
    fn subtract(lhs: Self, rhs: Self) -> (d: Self::Delta)
        ensures
            d == Self::difference(lhs, rhs),
    ;

    /// Add the [RelativeTo::Delta] `rhs` to `lhs`.
    fn add(lhs: Self, rhs: Self::Delta) -> (v: Self)
        ensures
            v == Self::sum(lhs, rhs),
    ;

    /// The value that a grid holds where nothing else is known.
    fn base_value() -> (v: Self)
        ensures
            v == Self::base(),
    ;

    /// The delta between a value and itself.
    fn no_difference() -> (d: Self::Delta)
        ensures
            d == Self::zero(),
    ;

    /// Whether `delta` is the delta between a value and itself.
    fn is_zero(delta: Self::Delta) -> (b: bool)
        ensures
            b == (delta == Self::zero()),
    ;

    /// Adding the delta between a value and a reference to that reference gives the value back.
    proof fn lemma_add_subtract(value: Self, reference: Self)
        ensures
            Self::sum(reference, Self::difference(value, reference)) == value,
    ;

    /// The delta between a value and a reference is zero exactly when the two are equal.
    proof fn lemma_zero_difference(value: Self, reference: Self)
        ensures
            Self::difference(value, reference) == Self::zero() <==> value == reference,
    ;
}

/// The value of 8 unsigned bits that differs from `v` by a multiple of 256.
pub open spec fn wrap_u8(v: int) -> u8 {
    (v % 256) as u8
}

/// The value of 8 signed bits that differs from `v` by a multiple of 256.
pub open spec fn wrap_i8(v: int) -> i8 {
    ((v + 128) % 256 - 128) as i8
}

/// The value of 16 unsigned bits that differs from `v` by a multiple of 65536.
pub open spec fn wrap_u16(v: int) -> u16 {
    (v % 65536) as u16
}

/// A value that fits in 8 unsigned bits stays as it is.
pub proof fn lemma_wrap_u8_exact(v: int)
    requires
        0 <= v < 256,
    ensures
        wrap_u8(v) == v,
{
    lemma_small_mod(v as nat, 256);
}

/// A value that fits in 8 signed bits stays as it is.
pub proof fn lemma_wrap_i8_exact(v: int)
    requires
        -128 <= v < 128,
    ensures
        wrap_i8(v) == v,
{
    lemma_small_mod((v + 128) as nat, 256);
}

/// A value that fits in 16 unsigned bits stays as it is.
pub proof fn lemma_wrap_u16_exact(v: int)
    requires
        0 <= v < 65536,
    ensures
        wrap_u16(v) == v,
{
    lemma_small_mod(v as nat, 65536);
}

impl RelativeTo for i32 {
    type Delta = i32;

    open spec fn base() -> i32 {
        0
    }

    fn base_value() -> (v: i32) {
        0
    }

    open spec fn zero() -> i32 {
        0
    }

    /// The difference, taken in 32 bits: where it does not fit, it wraps around.
    open spec fn difference(lhs: i32, rhs: i32) -> i32 {
        i32_specs::wrapping_sub(lhs, rhs)
    }

    /// The sum, taken in 32 bits: where it does not fit, it wraps around.
    open spec fn sum(lhs: i32, rhs: i32) -> i32 {
        i32_specs::wrapping_add(lhs, rhs)
    }

    fn subtract(lhs: i32, rhs: i32) -> (d: i32) {
        lhs.wrapping_sub(rhs)
    }

    fn add(lhs: i32, rhs: i32) -> (v: i32) {
        lhs.wrapping_add(rhs)
    }

    fn no_difference() -> (d: i32) {
        0
    }

    fn is_zero(delta: i32) -> (b: bool) {
        delta == 0
    }

    proof fn lemma_add_subtract(value: i32, reference: i32) {
    }

    proof fn lemma_zero_difference(value: i32, reference: i32) {
    }
}

impl RelativeTo for u8 {
    type Delta = i32;

    open spec fn base() -> u8 {
        0
    }

    fn base_value() -> (v: u8) {
        0
    }

    open spec fn zero() -> i32 {
        0
    }

    open spec fn difference(lhs: u8, rhs: u8) -> i32 {
        (lhs - rhs) as i32
    }

    /// The sum, cut to its lowest 8 bits.
    open spec fn sum(lhs: u8, rhs: i32) -> u8 {
        wrap_u8(lhs + rhs)
    }

    fn subtract(lhs: u8, rhs: u8) -> (d: i32) {
        lhs as i32 - rhs as i32
    }

    fn add(lhs: u8, rhs: i32) -> (v: u8) {
        let shifted: u64 = (lhs as i64 + rhs as i64 + 0x1_0000_0000) as u64;
        proof {
            lemma_mod_multiples_vanish(0x100_0000, lhs + rhs, 256);
        }
        (shifted % 256) as u8
    }

    fn no_difference() -> (d: i32) {
        0
    }

    fn is_zero(delta: i32) -> (b: bool) {
        delta == 0
    }

    proof fn lemma_add_subtract(value: u8, reference: u8) {
        lemma_wrap_u8_exact(value as int);
    }

    proof fn lemma_zero_difference(value: u8, reference: u8) {
    }
}

impl RelativeTo for i8 {
    type Delta = i32;

    open spec fn base() -> i8 {
        0
    }

    fn base_value() -> (v: i8) {
        0
    }

    open spec fn zero() -> i32 {
        0
    }

    open spec fn difference(lhs: i8, rhs: i8) -> i32 {
        (lhs - rhs) as i32
    }

    /// The sum, cut to its lowest 8 bits.
    open spec fn sum(lhs: i8, rhs: i32) -> i8 {
        wrap_i8(lhs + rhs)
    }

    fn subtract(lhs: i8, rhs: i8) -> (d: i32) {
        lhs as i32 - rhs as i32
    }

    fn add(lhs: i8, rhs: i32) -> (v: i8) {
        let shifted: u64 = (lhs as i64 + rhs as i64 + 128 + 0x1_0000_0000) as u64;
        proof {
            lemma_mod_multiples_vanish(0x100_0000, lhs + rhs + 128, 256);
        }
        ((shifted % 256) as i64 - 128) as i8
    }

    fn no_difference() -> (d: i32) {
        0
    }

    fn is_zero(delta: i32) -> (b: bool) {
        delta == 0
    }

    proof fn lemma_add_subtract(value: i8, reference: i8) {
        lemma_wrap_i8_exact(value as int);
    }

    proof fn lemma_zero_difference(value: i8, reference: i8) {
    }
}

impl RelativeTo for u16 {
    type Delta = i32;

    open spec fn base() -> u16 {
        0
    }

    fn base_value() -> (v: u16) {
        0
    }

    open spec fn zero() -> i32 {
        0
    }

    open spec fn difference(lhs: u16, rhs: u16) -> i32 {
        (lhs - rhs) as i32
    }

    /// The sum, cut to its lowest 16 bits.
    open spec fn sum(lhs: u16, rhs: i32) -> u16 {
        wrap_u16(lhs + rhs)
    }

    fn subtract(lhs: u16, rhs: u16) -> (d: i32) {
        lhs as i32 - rhs as i32
    }

    fn add(lhs: u16, rhs: i32) -> (v: u16) {
        let shifted: u64 = (lhs as i64 + rhs as i64 + 0x1_0000_0000) as u64;
        proof {
            lemma_mod_multiples_vanish(0x1_0000, lhs + rhs, 65536);
            assert(shifted == 65536 * 0x1_0000 + (lhs + rhs));
            assert((shifted as int) % 65536 == (lhs + rhs) % 65536);
            assert(shifted % 65536 == (shifted as int) % 65536);
        }
        let r = (shifted % 65536) as u16;
        assert(r == wrap_u16(lhs + rhs));
        r
    }

    fn no_difference() -> (d: i32) {
        0
    }

    fn is_zero(delta: i32) -> (b: bool) {
        delta == 0
    }

    proof fn lemma_add_subtract(value: u16, reference: u16) {
        lemma_wrap_u16_exact(value as int);
    }

    proof fn lemma_zero_difference(value: u16, reference: u16) {
    }
}

impl<T: RelativeTo> RelativeTo for Vec3<T> {
    type Delta = Vec3<<T as RelativeTo>::Delta>;

    open spec fn base() -> Self {
        Vec3 { x: T::base(), y: T::base(), z: T::base() }
    }

    fn base_value() -> (v: Self) {
        Vec3 { x: T::base_value(), y: T::base_value(), z: T::base_value() }
    }

    open spec fn zero() -> Self::Delta {
        Vec3 { x: T::zero(), y: T::zero(), z: T::zero() }
    }

    open spec fn difference(lhs: Self, rhs: Self) -> Self::Delta {
        Vec3 {
            x: T::difference(lhs.x, rhs.x),
            y: T::difference(lhs.y, rhs.y),
            z: T::difference(lhs.z, rhs.z),
        }
    }

    open spec fn sum(lhs: Self, rhs: Self::Delta) -> Self {
        Vec3 { x: T::sum(lhs.x, rhs.x), y: T::sum(lhs.y, rhs.y), z: T::sum(lhs.z, rhs.z) }
    }

    fn subtract(lhs: Self, rhs: Self) -> (d: Self::Delta) {
        Vec3 {
            x: <T as RelativeTo>::subtract(lhs.x, rhs.x),
            y: <T as RelativeTo>::subtract(lhs.y, rhs.y),
            z: <T as RelativeTo>::subtract(lhs.z, rhs.z),
        }
    }

    fn add(lhs: Self, rhs: Self::Delta) -> (v: Self) {
        Vec3 {
            x: <T as RelativeTo>::add(lhs.x, rhs.x),
            y: <T as RelativeTo>::add(lhs.y, rhs.y),
            z: <T as RelativeTo>::add(lhs.z, rhs.z),
        }
    }

    fn no_difference() -> (d: Self::Delta) {
        Vec3 { x: T::no_difference(), y: T::no_difference(), z: T::no_difference() }
    }

    fn is_zero(delta: Self::Delta) -> (b: bool) {
        T::is_zero(delta.x) && T::is_zero(delta.y) && T::is_zero(delta.z)
    }

    proof fn lemma_add_subtract(value: Self, reference: Self) {
        T::lemma_add_subtract(value.x, reference.x);
        T::lemma_add_subtract(value.y, reference.y);
        T::lemma_add_subtract(value.z, reference.z);
    }

    proof fn lemma_zero_difference(value: Self, reference: Self) {
        T::lemma_zero_difference(value.x, reference.x);
        T::lemma_zero_difference(value.y, reference.y);
        T::lemma_zero_difference(value.z, reference.z);
    }
}

} // verus!
