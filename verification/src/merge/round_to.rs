use crate::land::textures::IndexVTEX;
use vstd::prelude::*;

verus! {

/// Types implementing [RoundTo] may be rounded to `T` via [RoundTo::round_to].
pub trait RoundTo<T> {
    /// The value of `T` nearest to `self`.
    spec fn rounded(self) -> T;

    /// Round `self` to `T`.
    fn round_to(self) -> (r: T)
        ensures
            r == self.rounded(),
    ;
}

/// The value of the range from `low` to `high` that is nearest to `v`.
pub open spec fn clamp(v: int, low: int, high: int) -> int {
    if v < low {
        low
    } else if v > high {
        high
    } else {
        v
    }
}

impl RoundTo<i32> for i32 {
    open spec fn rounded(self) -> i32 {
        self
    }

    fn round_to(self) -> (r: i32) {
        self
    }
}

impl RoundTo<i8> for i32 {
    open spec fn rounded(self) -> i8 {
        clamp(self as int, -128, 127) as i8
    }

    fn round_to(self) -> (r: i8) {
        if self < -128 {
            -128
        } else if self > 127 {
            127
        } else {
            self as i8
        }
    }
}

impl RoundTo<u8> for i32 {
    open spec fn rounded(self) -> u8 {
        clamp(self as int, 0, 255) as u8
    }

    fn round_to(self) -> (r: u8) {
        if self < 0 {
            0
        } else if self > 255 {
            255
        } else {
            self as u8
        }
    }
}

impl RoundTo<u16> for i32 {
    open spec fn rounded(self) -> u16 {
        clamp(self as int, 0, 65535) as u16
    }

    fn round_to(self) -> (r: u16) {
        if self < 0 {
            0
        } else if self > 65535 {
            65535
        } else {
            self as u16
        }
    }
}

impl RoundTo<IndexVTEX> for i32 {
    open spec fn rounded(self) -> IndexVTEX {
        IndexVTEX(clamp(self as int, 0, 65535) as u16)
    }

    fn round_to(self) -> (r: IndexVTEX) {
        let value: u16 = self.round_to();
        IndexVTEX::new(value)
    }
}

} // verus!
