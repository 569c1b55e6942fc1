use vstd::prelude::*;

verus! {

/// Two to the power 64.
pub open spec fn pow2_64() -> int {
    0x1_0000_0000_0000_0000
}

/// Two to the power 96.
pub open spec fn pow2_96() -> int {
    0x1_0000_0000_0000_0000_0000_0000
}

/// Two to the power 128.
pub open spec fn pow2_128() -> int {
    0x1_0000_0000_0000_0000_0000_0000_0000_0000int
}

/// A natural number below two to the power 256, held as two halves of 128 bits.
#[derive(Clone, Copy, Debug)]
pub struct Wide {
    pub hi: u128,
    pub lo: u128,
}

impl Wide {
    /// The number that the two halves stand for.
    pub open spec fn value(self) -> int {
        self.hi * pow2_128() + self.lo
    }

    /// The product of two numbers below two to the power 96.
    pub fn product(x: u128, y: u128) -> (r: Wide)
        requires
            x < pow2_96(),
            y < pow2_96(),
        ensures
            r.value() == x * y,
    {
        let x1: u128 = x / 0x1_0000_0000_0000_0000;
        let x0: u128 = x % 0x1_0000_0000_0000_0000;
        let y1: u128 = y / 0x1_0000_0000_0000_0000;
        let y0: u128 = y % 0x1_0000_0000_0000_0000;
        proof {
            assert(x0 * y0 <= 0xffff_ffff_ffff_ffff * 0xffff_ffff_ffff_ffff) by (nonlinear_arith)
                requires
                    x0 <= 0xffff_ffff_ffff_ffff,
                    y0 <= 0xffff_ffff_ffff_ffff,
            ;
            assert(x1 * y0 <= 0xffff_ffff * 0xffff_ffff_ffff_ffff) by (nonlinear_arith)
                requires
                    x1 <= 0xffff_ffff,
                    y0 <= 0xffff_ffff_ffff_ffff,
            ;
            assert(x0 * y1 <= 0xffff_ffff_ffff_ffff * 0xffff_ffff) by (nonlinear_arith)
                requires
                    x0 <= 0xffff_ffff_ffff_ffff,
                    y1 <= 0xffff_ffff,
            ;
            assert(x1 * y1 <= 0xffff_ffff * 0xffff_ffff) by (nonlinear_arith)
                requires
                    x1 <= 0xffff_ffff,
                    y1 <= 0xffff_ffff,
            ;
        }
        let low: u128 = x0 * y0;
        let mid: u128 = x1 * y0 + x0 * y1;
        let high: u128 = x1 * y1;
        let mid1: u128 = mid / 0x1_0000_0000_0000_0000;
        let mid0: u128 = mid % 0x1_0000_0000_0000_0000;
        let shifted: u128 = mid0 * 0x1_0000_0000_0000_0000;
        let room: u128 = u128::MAX - shifted;
        let (lo, carry): (u128, u128) = if low > room {
            (low - room - 1, 1)
        } else {
            (low + shifted, 0)
        };
        let hi: u128 = high + mid1 + carry;
        proof {
            let k = pow2_64();
            let kk = pow2_128();
            assert(x * y == high * kk + mid * k + low) by (nonlinear_arith)
                requires
                    x == x1 * k + x0,
                    y == y1 * k + y0,
                    high == x1 * y1,
                    mid == x1 * y0 + x0 * y1,
                    low == x0 * y0,
                    kk == k * k,
            ;
            assert(mid * k == mid1 * kk + shifted) by (nonlinear_arith)
                requires
                    mid == mid1 * k + mid0,
                    shifted == mid0 * k,
                    kk == k * k,
            ;
            assert(hi * kk == high * kk + mid1 * kk + carry * kk) by (nonlinear_arith)
                requires
                    hi == high + mid1 + carry,
            ;
            assert(low + shifted == lo + carry * kk);
        }
        Wide { hi, lo }
    }

    /// Whether the number is at least `other`.
    pub fn at_least(self, other: Wide) -> (b: bool)
        ensures
            b == (self.value() >= other.value()),
    {
        self.hi > other.hi || (self.hi == other.hi && self.lo >= other.lo)
    }
}

} // verus!
