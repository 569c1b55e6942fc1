use crate::land::terrain_map::Vec3;
use crate::land::textures::IndexVTEX;
use crate::merge::round_to::RoundTo;
use crate::merge::wide::{pow2_96, Wide};
use vstd::prelude::*;

verus! {

/// The [ConflictType] classifies the severity of a conflict.
/// This is determined by [ConflictParams] passed to the
/// [ConflictResolver::average] method.
#[derive(Debug)]
pub enum ConflictType<T> {
    /// A minor [ConflictType].
    Minor(T),
    /// A major [ConflictType].
    Major(T),
}

/// A [Conflict] is an [Option] wrapper around [ConflictType].
pub type Conflict<T> = Option<ConflictType<T>>;

/// Controls the classification of a [Conflict] into [ConflictType::Minor] or [ConflictType::Major].
#[derive(Clone, Copy, Debug)]
pub struct ConflictParams {
    /// The share of the smaller value, in percent, that the average may lie above it.
    pub minor_threshold_pct: u8,
    /// The least distance at which a conflict is major.
    pub minor_threshold_min: u16,
    /// The distance from which every conflict is major.
    pub minor_threshold_max: u16,
}

impl Default for ConflictParams {
    /// The default [ConflictParams] are chosen to minimize
    /// the likelihood that a [ConflictType::Minor] is noticeable.
    fn default() -> (r: Self)
        ensures
            r.minor_threshold_pct == 30,
            r.minor_threshold_min == 10,
            r.minor_threshold_max == 64,
    {
        Self { minor_threshold_pct: 30, minor_threshold_min: 10, minor_threshold_max: 64 }
    }
}

/// The distance of `v` from zero.
pub open spec fn magnitude(v: int) -> nat {
    if v < 0 {
        (-v) as nat
    } else {
        v as nat
    }
}

/// The smaller of two values.
pub open spec fn smaller(lhs: int, rhs: int) -> int {
    if lhs <= rhs {
        lhs
    } else {
        rhs
    }
}

/// The larger of two values.
pub open spec fn larger(lhs: int, rhs: int) -> int {
    if lhs <= rhs {
        rhs
    } else {
        lhs
    }
}

/// Whether `a^(3/2) * p + b^(3/2) * q >= 0`.
///
/// Where `p` and `q` have the same sign the answer is plain. Where they differ, the term
/// that is not negative has to outweigh the other, and both sides of that comparison are
/// squared to free it of roots.
pub open spec fn weighs_at_least_zero(a: nat, b: nat, p: int, q: int) -> bool {
    if p >= 0 && q >= 0 {
        true
    } else if p < 0 && q < 0 {
        a == 0 && b == 0
    } else if p >= 0 {
        (a * a * a) * (p * p) >= (b * b * b) * (q * q)
    } else {
        (b * b * b) * (q * q) >= (a * a * a) * (p * p)
    }
}

/// Whether `scale` times the weighted average of `lhs` and `rhs` is at least `bound`.
///
/// The average gives `lhs` the weight `|lhs|^(3/2)` and `rhs` the weight `|rhs|^(3/2)`, so
/// that the side of larger magnitude pulls it towards itself:
/// `average * (|lhs|^(3/2) + |rhs|^(3/2)) == |lhs|^(3/2) * lhs + |rhs|^(3/2) * rhs`.
pub open spec fn average_reaches(lhs: int, rhs: int, scale: int, bound: int) -> bool {
    weighs_at_least_zero(
        magnitude(lhs),
        magnitude(rhs),
        scale * lhs - bound,
        scale * rhs - bound,
    )
}

/// Whether `v` is the largest integer that the weighted average of `lhs` and `rhs` reaches.
pub open spec fn is_floor_of_average(lhs: int, rhs: int, v: int) -> bool {
    average_reaches(lhs, rhs, 1, v) && !average_reaches(lhs, rhs, 1, v + 1)
}

/// The largest integer that the weighted average of `lhs` and `rhs` reaches.
pub open spec fn floor_average(lhs: int, rhs: int) -> int {
    choose|v: int| is_floor_of_average(lhs, rhs, v)
}

/// The weighted average of `lhs` and `rhs`, rounded towards zero.
pub open spec fn truncated_average(lhs: int, rhs: int) -> int {
    if average_reaches(lhs, rhs, 1, 0) {
        floor_average(lhs, rhs)
    } else {
        -floor_average(-lhs, -rhs)
    }
}

/// A hundred times the distance from the smaller value at which a conflict becomes major:
/// the share `minor_threshold_pct` of the smaller value, but at least `minor_threshold_min`
/// and at most `minor_threshold_max`.
pub open spec fn threshold_hundredths(minimum: int, params: ConflictParams) -> int {
    let proportional = params.minor_threshold_pct * minimum;
    let floor = 100 * params.minor_threshold_min;
    let ceiling = 100 * params.minor_threshold_max;
    let raised = if proportional > floor {
        proportional
    } else {
        floor
    };
    if raised < ceiling {
        raised
    } else {
        ceiling
    }
}

/// Whether the weighted average of `lhs` and `rhs` lies at least the threshold above the
/// smaller of the two.
pub open spec fn is_major(lhs: int, rhs: int, params: ConflictParams) -> bool {
    let minimum = smaller(lhs, rhs);
    average_reaches(lhs, rhs, 100, 100 * minimum + threshold_hundredths(minimum, params))
}

/// The conflict between two values that differ.
pub open spec fn classification<U>(lhs: i32, rhs: i32, params: ConflictParams) -> ConflictType<
    U,
> where i32: RoundTo<U> {
    let average = truncated_average(lhs as int, rhs as int) as i32;
    if is_major(lhs as int, rhs as int, params) {
        ConflictType::Major(average.rounded())
    } else {
        ConflictType::Minor(average.rounded())
    }
}

/// A weighted sum that is not negative stays so where either of its terms grows.
pub proof fn lemma_weighs_monotone(a: nat, b: nat, p: int, q: int, higher_p: int, higher_q: int)
    requires
        weighs_at_least_zero(a, b, p, q),
        p <= higher_p,
        q <= higher_q,
    ensures
        weighs_at_least_zero(a, b, higher_p, higher_q),
{
    let aaa = (a * a * a) as int;
    let bbb = (b * b * b) as int;
    assert(aaa >= 0 && bbb >= 0) by (nonlinear_arith)
        requires
            aaa == a * a * a,
            bbb == b * b * b,
    ;
    if higher_p >= 0 && higher_q < 0 {
        if p >= 0 {
            assert(aaa * (higher_p * higher_p) >= bbb * (higher_q * higher_q)) by (nonlinear_arith)
                requires
                    aaa * (p * p) >= bbb * (q * q),
                    0 <= p <= higher_p,
                    q <= higher_q < 0,
                    aaa >= 0,
                    bbb >= 0,
            ;
        } else {
            assert(aaa == 0 && bbb == 0) by (nonlinear_arith)
                requires
                    a == 0,
                    b == 0,
                    aaa == a * a * a,
                    bbb == b * b * b,
            ;
            assert(aaa * (higher_p * higher_p) >= bbb * (higher_q * higher_q)) by (nonlinear_arith)
                requires
                    aaa == 0,
                    bbb == 0,
            ;
        }
    } else if higher_p < 0 && higher_q >= 0 {
        if q >= 0 {
            assert(bbb * (higher_q * higher_q) >= aaa * (higher_p * higher_p)) by (nonlinear_arith)
                requires
                    bbb * (q * q) >= aaa * (p * p),
                    0 <= q <= higher_q,
                    p <= higher_p < 0,
                    aaa >= 0,
                    bbb >= 0,
            ;
        } else {
            assert(aaa == 0 && bbb == 0) by (nonlinear_arith)
                requires
                    a == 0,
                    b == 0,
                    aaa == a * a * a,
                    bbb == b * b * b,
            ;
            assert(bbb * (higher_q * higher_q) >= aaa * (higher_p * higher_p)) by (nonlinear_arith)
                requires
                    aaa == 0,
                    bbb == 0,
            ;
        }
    }
}

/// Between a bound that the average reaches and a larger one that it does not reach lies its
/// floor.
proof fn lemma_floor_exists(lhs: int, rhs: int, low: int, high: int)
    requires
        low < high,
        average_reaches(lhs, rhs, 1, low),
        !average_reaches(lhs, rhs, 1, high),
    ensures
        exists|v: int| low <= v < high && is_floor_of_average(lhs, rhs, v),
    decreases high - low,
{
    if !average_reaches(lhs, rhs, 1, low + 1) {
        assert(is_floor_of_average(lhs, rhs, low));
    } else {
        lemma_floor_exists(lhs, rhs, low + 1, high);
    }
}

/// The weighted average of two values has one floor only.
pub proof fn lemma_floor_unique(lhs: int, rhs: int, v: int, w: int)
    requires
        is_floor_of_average(lhs, rhs, v),
        is_floor_of_average(lhs, rhs, w),
    ensures
        v == w,
{
    if v < w {
        lemma_weighs_monotone(
            magnitude(lhs),
            magnitude(rhs),
            1 * lhs - w,
            1 * rhs - w,
            1 * lhs - (v + 1),
            1 * rhs - (v + 1),
        );
    } else if w < v {
        lemma_weighs_monotone(
            magnitude(lhs),
            magnitude(rhs),
            1 * lhs - v,
            1 * rhs - v,
            1 * lhs - (w + 1),
            1 * rhs - (w + 1),
        );
    }
}

/// The weighted average of two values that differ has a floor, and it lies between the two.
pub proof fn lemma_floor_average(lhs: int, rhs: int)
    requires
        lhs != rhs,
    ensures
        is_floor_of_average(lhs, rhs, floor_average(lhs, rhs)),
        smaller(lhs, rhs) <= floor_average(lhs, rhs) <= larger(lhs, rhs),
{
    lemma_floor_exists(lhs, rhs, smaller(lhs, rhs), larger(lhs, rhs) + 1);
    let v = choose|v: int|
        smaller(lhs, rhs) <= v < larger(lhs, rhs) + 1 && is_floor_of_average(lhs, rhs, v);
    lemma_floor_unique(lhs, rhs, v, floor_average(lhs, rhs));
}

/// The weighted average of two values that differ, rounded towards zero, lies between the two.
pub proof fn lemma_truncated_average_between(lhs: int, rhs: int)
    requires
        lhs != rhs,
    ensures
        smaller(lhs, rhs) <= truncated_average(lhs, rhs) <= larger(lhs, rhs),
{
    lemma_floor_average(lhs, rhs);
    lemma_floor_average(-lhs, -rhs);
}

/// The third power of a magnitude of at most 32 bits.
fn cube(a: u64) -> (r: u128)
    requires
        a <= 0x8000_0000,
    ensures
        r == a * a * a,
        r < pow2_96(),
{
    proof {
        assert(a * a <= 0x8000_0000 * 0x8000_0000) by (nonlinear_arith)
            requires
                a <= 0x8000_0000,
        ;
        assert(a * a * a <= 0x8000_0000 * 0x8000_0000 * 0x8000_0000) by (nonlinear_arith)
            requires
                a <= 0x8000_0000,
                a * a <= 0x8000_0000 * 0x8000_0000,
        ;
    }
    let wide: u128 = a as u128;
    wide * wide * wide
}

/// The second power of a number of at most 40 bits and a sign.
fn square(p: i64) -> (r: u128)
    requires
        -0x100_0000_0000 <= p <= 0x100_0000_0000,
    ensures
        r == p * p,
        r < pow2_96(),
{
    let size: u128 = if p < 0 {
        (-p) as u128
    } else {
        p as u128
    };
    proof {
        assert(size * size <= 0x100_0000_0000 * 0x100_0000_0000) by (nonlinear_arith)
            requires
                size <= 0x100_0000_0000,
        ;
        assert(size * size == p * p) by (nonlinear_arith)
            requires
                size == p || size == -p,
        ;
    }
    size * size
}

/// Decides whether `a^(3/2) * p + b^(3/2) * q >= 0`.
fn weighs_nonnegative(a: u64, b: u64, p: i64, q: i64) -> (r: bool)
    requires
        a <= 0x8000_0000,
        b <= 0x8000_0000,
        -0x100_0000_0000 <= p <= 0x100_0000_0000,
        -0x100_0000_0000 <= q <= 0x100_0000_0000,
    ensures
        r == weighs_at_least_zero(a as nat, b as nat, p as int, q as int),
{
    if p >= 0 && q >= 0 {
        true
    } else if p < 0 && q < 0 {
        a == 0 && b == 0
    } else {
        let left = Wide::product(cube(a), square(p));
        let right = Wide::product(cube(b), square(q));
        if p >= 0 {
            left.at_least(right)
        } else {
            right.at_least(left)
        }
    }
}

/// Decides whether `scale` times the weighted average of `lhs` and `rhs` is at least `bound`.
fn reaches(lhs: i64, rhs: i64, scale: i64, bound: i64) -> (r: bool)
    requires
        -0x8000_0000 <= lhs <= 0x8000_0000,
        -0x8000_0000 <= rhs <= 0x8000_0000,
        1 <= scale <= 100,
        -0x100_0000_0000 <= scale * lhs - bound <= 0x100_0000_0000,
        -0x100_0000_0000 <= scale * rhs - bound <= 0x100_0000_0000,
    ensures
        r == average_reaches(lhs as int, rhs as int, scale as int, bound as int),
{
    let a: u64 = if lhs < 0 {
        (-lhs) as u64
    } else {
        lhs as u64
    };
    let b: u64 = if rhs < 0 {
        (-rhs) as u64
    } else {
        rhs as u64
    };
    proof {
        assert(-0x64_0000_0000 <= scale * lhs <= 0x64_0000_0000) by (nonlinear_arith)
            requires
                -0x8000_0000 <= lhs <= 0x8000_0000,
                1 <= scale <= 100,
        ;
        assert(-0x64_0000_0000 <= scale * rhs <= 0x64_0000_0000) by (nonlinear_arith)
            requires
                -0x8000_0000 <= rhs <= 0x8000_0000,
                1 <= scale <= 100,
        ;
    }
    weighs_nonnegative(a, b, scale * lhs - bound, scale * rhs - bound)
}

/// Finds the largest integer that the weighted average of `lhs` and `rhs` reaches.
fn floor_of_average(lhs: i64, rhs: i64) -> (v: i64)
    requires
        lhs != rhs,
        -0x8000_0000 <= lhs <= 0x8000_0000,
        -0x8000_0000 <= rhs <= 0x8000_0000,
    ensures
        v == floor_average(lhs as int, rhs as int),
        smaller(lhs as int, rhs as int) <= v <= larger(lhs as int, rhs as int),
{
    let mut low: i64 = if lhs <= rhs {
        lhs
    } else {
        rhs
    };
    let mut high: i64 = if lhs <= rhs {
        rhs + 1
    } else {
        lhs + 1
    };
    while high - low > 1
        invariant
            lhs != rhs,
            -0x8000_0000 <= lhs <= 0x8000_0000,
            -0x8000_0000 <= rhs <= 0x8000_0000,
            smaller(lhs as int, rhs as int) <= low < high <= larger(lhs as int, rhs as int) + 1,
            average_reaches(lhs as int, rhs as int, 1, low as int),
            !average_reaches(lhs as int, rhs as int, 1, high as int),
        decreases high - low,
    {
        let middle: i64 = low + (high - low) / 2;
        if reaches(lhs, rhs, 1, middle) {
            low = middle;
        } else {
            high = middle;
        }
    }
    proof {
        lemma_floor_average(lhs as int, rhs as int);
        lemma_floor_unique(
            lhs as int,
            rhs as int,
            low as int,
            floor_average(lhs as int, rhs as int),
        );
    }
    low
}

/// Computes the weighted average of `lhs` and `rhs`, rounded towards zero.
fn truncate_average(lhs: i32, rhs: i32) -> (v: i32)
    requires
        lhs != rhs,
    ensures
        v == truncated_average(lhs as int, rhs as int),
{
    if reaches(lhs as i64, rhs as i64, 1, 0) {
        floor_of_average(lhs as i64, rhs as i64) as i32
    } else {
        (-floor_of_average(-(lhs as i64), -(rhs as i64))) as i32
    }
}

/// Decides whether the conflict between `lhs` and `rhs` is major.
fn exceeds_threshold(lhs: i32, rhs: i32, params: &ConflictParams) -> (r: bool)
    ensures
        r == is_major(lhs as int, rhs as int, *params),
{
    let minimum: i64 = if lhs <= rhs {
        lhs as i64
    } else {
        rhs as i64
    };
    proof {
        assert(-0x7f_8000_0000 <= params.minor_threshold_pct * minimum <= 0x7f_8000_0000)
            by (nonlinear_arith)
            requires
                -0x8000_0000 <= minimum <= 0x8000_0000,
                0 <= params.minor_threshold_pct <= 255,
        ;
    }
    let proportional: i64 = params.minor_threshold_pct as i64 * minimum;
    let floor: i64 = 100 * (params.minor_threshold_min as i64);
    let ceiling: i64 = 100 * (params.minor_threshold_max as i64);
    let raised: i64 = if proportional > floor {
        proportional
    } else {
        floor
    };
    let threshold: i64 = if raised < ceiling {
        raised
    } else {
        ceiling
    };
    reaches(lhs as i64, rhs as i64, 100, 100 * minimum + threshold)
}

/// Returns [ConflictType] for `lhs` and `rhs` per [ConflictParams].
pub fn classify_conflict<U>(lhs: i32, rhs: i32, params: &ConflictParams) -> (r: ConflictType<U>)
    where i32: RoundTo<U>
    requires
        lhs != rhs,
    ensures
        r == classification::<U>(lhs, rhs, *params),
{
    let average: i32 = truncate_average(lhs, rhs);
    if exceeds_threshold(lhs, rhs, params) {
        ConflictType::Major(average.round_to())
    } else {
        ConflictType::Minor(average.round_to())
    }
}

/// Types implementing [ConflictResolver] support the method [ConflictResolver::average].
pub trait ConflictResolver: Sized {
    /// The conflict between `self` and `rhs`, with the value that resolves it.
    spec fn resolution(self, rhs: Self, params: ConflictParams) -> Conflict<Self>;

    /// Attempt to merge `self` with `rhs` per [ConflictParams] and return the [Conflict].
    /// [None] is returned when `self == rhs`.
    fn average(self, rhs: Self, params: &ConflictParams) -> (r: Conflict<Self>)
        ensures
            r == self.resolution(rhs, *params),
            r.is_none() <==> self == rhs,
    ;

    /// Two values are in conflict exactly when they differ.
    proof fn lemma_no_conflict(self, rhs: Self, params: ConflictParams)
        ensures
            self.resolution(rhs, params).is_none() <==> self == rhs,
    ;
}

impl ConflictResolver for i32 {
    open spec fn resolution(self, rhs: i32, params: ConflictParams) -> Conflict<i32> {
        if self == rhs {
            None
        } else {
            Some(classification::<i32>(self, rhs, params))
        }
    }

    fn average(self, rhs: i32, params: &ConflictParams) -> (r: Conflict<i32>) {
        if self == rhs {
            None
        } else {
            Some(classify_conflict(self, rhs, params))
        }
    }

    proof fn lemma_no_conflict(self, rhs: i32, params: ConflictParams) {
    }
}

impl ConflictResolver for i8 {
    open spec fn resolution(self, rhs: i8, params: ConflictParams) -> Conflict<i8> {
        if self == rhs {
            None
        } else {
            Some(classification::<i8>(self as i32, rhs as i32, params))
        }
    }

    fn average(self, rhs: i8, params: &ConflictParams) -> (r: Conflict<i8>) {
        if self == rhs {
            None
        } else {
            Some(classify_conflict(self as i32, rhs as i32, params))
        }
    }

    proof fn lemma_no_conflict(self, rhs: i8, params: ConflictParams) {
    }
}

impl ConflictResolver for u8 {
    open spec fn resolution(self, rhs: u8, params: ConflictParams) -> Conflict<u8> {
        if self == rhs {
            None
        } else {
            Some(classification::<u8>(self as i32, rhs as i32, params))
        }
    }

    fn average(self, rhs: u8, params: &ConflictParams) -> (r: Conflict<u8>) {
        if self == rhs {
            None
        } else {
            Some(classify_conflict(self as i32, rhs as i32, params))
        }
    }

    proof fn lemma_no_conflict(self, rhs: u8, params: ConflictParams) {
    }
}

impl ConflictResolver for u16 {
    open spec fn resolution(self, rhs: u16, params: ConflictParams) -> Conflict<u16> {
        if self == rhs {
            None
        } else {
            Some(classification::<u16>(self as i32, rhs as i32, params))
        }
    }

    fn average(self, rhs: u16, params: &ConflictParams) -> (r: Conflict<u16>) {
        if self == rhs {
            None
        } else {
            Some(classify_conflict(self as i32, rhs as i32, params))
        }
    }

    proof fn lemma_no_conflict(self, rhs: u16, params: ConflictParams) {
    }
}

impl ConflictResolver for IndexVTEX {
    open spec fn resolution(self, rhs: IndexVTEX, params: ConflictParams) -> Conflict<IndexVTEX> {
        if self == rhs {
            None
        } else {
            Some(classification::<IndexVTEX>(self.0 as i32, rhs.0 as i32, params))
        }
    }

    fn average(self, rhs: IndexVTEX, params: &ConflictParams) -> (r: Conflict<IndexVTEX>) {
        if self.0 == rhs.0 {
            None
        } else {
            Some(classify_conflict(self.0 as i32, rhs.0 as i32, params))
        }
    }

    proof fn lemma_no_conflict(self, rhs: IndexVTEX, params: ConflictParams) {
    }
}

/// A value is never in conflict with itself.
pub proof fn lemma_equal_values_do_not_conflict<V: ConflictResolver>(value: V, params: ConflictParams)
    ensures
        value.resolution(value, params).is_none(),
{
    value.lemma_no_conflict(value, params);
}

/// The value that a component takes where its vector is in conflict: its own where the
/// component itself is not in conflict, and else the value that resolves its conflict.
pub open spec fn resolved_component<T>(own: T, conflict: Conflict<T>) -> T {
    match conflict {
        None => own,
        Some(ConflictType::Minor(value)) => value,
        Some(ConflictType::Major(value)) => value,
    }
}

/// Whether a component is in major conflict.
pub open spec fn is_major_conflict<T>(conflict: Conflict<T>) -> bool {
    conflict matches Some(ConflictType::Major(_))
}

impl<T: ConflictResolver + Copy> ConflictResolver for Vec3<T> {
    /// Each component is resolved by itself, and the worst case wins.
    open spec fn resolution(self, rhs: Self, params: ConflictParams) -> Conflict<Self> {
        let x = self.x.resolution(rhs.x, params);
        let y = self.y.resolution(rhs.y, params);
        let z = self.z.resolution(rhs.z, params);
        let value = Vec3 {
            x: resolved_component(self.x, x),
            y: resolved_component(self.y, y),
            z: resolved_component(self.z, z),
        };
        if self == rhs {
            None
        } else if is_major_conflict(x) || is_major_conflict(y) || is_major_conflict(z) {
            Some(ConflictType::Major(value))
        } else {
            Some(ConflictType::Minor(value))
        }
    }

    fn average(self, rhs: Self, params: &ConflictParams) -> (r: Conflict<Self>) {
        let x_conflict = self.x.average(rhs.x, params);
        let y_conflict = self.y.average(rhs.y, params);
        let z_conflict = self.z.average(rhs.z, params);
        if x_conflict.is_none() && y_conflict.is_none() && z_conflict.is_none() {
            None
        } else {
            let mut has_major_conflict = false;
            let x = match x_conflict {
                None => self.x,
                Some(ConflictType::Minor(x)) => x,
                Some(ConflictType::Major(x)) => {
                    has_major_conflict = true;
                    x
                },
            };
            let y = match y_conflict {
                None => self.y,
                Some(ConflictType::Minor(y)) => y,
                Some(ConflictType::Major(y)) => {
                    has_major_conflict = true;
                    y
                },
            };
            let z = match z_conflict {
                None => self.z,
                Some(ConflictType::Minor(z)) => z,
                Some(ConflictType::Major(z)) => {
                    has_major_conflict = true;
                    z
                },
            };
            if has_major_conflict {
                Some(ConflictType::Major(Self { x, y, z }))
            } else {
                Some(ConflictType::Minor(Self { x, y, z }))
            }
        }
    }

    proof fn lemma_no_conflict(self, rhs: Self, params: ConflictParams) {
    }
}

} // verus!
