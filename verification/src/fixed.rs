//! Numbers with six decimal places, for hosts that do without floating point.
use crate::number::Number;
use crate::time::Duration;
use vstd::prelude::*;

verus! {

/// The millionths in one.
pub const ONE: i64 = 1_000_000;

/// A number of millionths. Results that are too large or too small for it are the largest or the
/// smallest number; products and quotients are cut off towards zero.
#[derive(Clone, Copy, PartialEq, Eq, Structural, Debug)]
pub struct Fixed {
    pub micros: i64,
}

/// The number of millionths that is closest to `x` among those that fit.
pub open spec fn clamped(x: int) -> Fixed {
    Fixed {
        micros: if x > i64::MAX {
            i64::MAX
        } else if x < i64::MIN {
            i64::MIN
        } else {
            x as i64
        },
    }
}

/// The magnitude of `x`.
pub open spec fn magnitude(x: int) -> int {
    if x < 0 {
        -x
    } else {
        x
    }
}

/// `x`, or `-x` where `a` and `b` have different signs.
pub open spec fn signed(a: int, b: int, x: int) -> int {
    if (a < 0) == (b < 0) {
        x
    } else {
        -x
    }
}

/// Computes [`clamped`].
fn clamp(x: i128) -> (r: Fixed)
    ensures
        r == clamped(x as int),
{
    Fixed {
        micros: if x > i64::MAX as i128 {
            i64::MAX
        } else if x < i64::MIN as i128 {
            i64::MIN
        } else {
            x as i64
        },
    }
}

/// Computes [`magnitude`].
fn size(x: i64) -> (r: u128)
    ensures
        r == magnitude(x as int),
        r <= 0x8000_0000_0000_0000,
{
    if x < 0 {
        (-(x as i128)) as u128
    } else {
        x as u128
    }
}

/// Gives a magnitude its sign and makes it fit.
fn give_sign(a: i64, b: i64, x: u128) -> (r: Fixed)
    ensures
        r == clamped(signed(a as int, b as int, x as int)),
{
    if x > 0x8000_0000_0000_0000 {
        if (a < 0) == (b < 0) {
            Fixed { micros: i64::MAX }
        } else {
            Fixed { micros: i64::MIN }
        }
    } else if (a < 0) == (b < 0) {
        clamp(x as i128)
    } else {
        clamp(-(x as i128))
    }
}

impl Number for Fixed {
    open spec fn of_count_spec(n: usize) -> Fixed {
        clamped(n * ONE)
    }

    open spec fn seconds_spec(span: Duration) -> Fixed {
        clamped(span.nanos as int / 1000)
    }

    open spec fn plus_spec(self, rhs: Fixed) -> Fixed {
        clamped(self.micros + rhs.micros)
    }

    open spec fn minus_spec(self, rhs: Fixed) -> Fixed {
        clamped(self.micros - rhs.micros)
    }

    open spec fn times_spec(self, rhs: Fixed) -> Fixed {
        clamped(
            signed(
                self.micros as int,
                rhs.micros as int,
                magnitude(self.micros as int) * magnitude(rhs.micros as int) / (ONE as int),
            ),
        )
    }

    open spec fn over_spec(self, rhs: Fixed) -> Fixed {
        if rhs.micros != 0 {
            clamped(
                signed(
                    self.micros as int,
                    rhs.micros as int,
                    magnitude(self.micros as int) * ONE / magnitude(rhs.micros as int),
                ),
            )
        } else if self.micros > 0 {
            Fixed { micros: i64::MAX }
        } else if self.micros < 0 {
            Fixed { micros: i64::MIN }
        } else {
            Fixed { micros: 0 }
        }
    }

    open spec fn below_spec(self, rhs: Fixed) -> bool {
        self.micros < rhs.micros
    }

    open spec fn same_spec(self, rhs: Fixed) -> bool {
        self.micros == rhs.micros
    }

    fn of_count(n: usize) -> (r: Fixed) {
        clamp(n as i128 * ONE as i128)
    }

    fn seconds(span: Duration) -> (r: Fixed) {
        let micros: u128 = span.nanos / 1000;
        if micros > i64::MAX as u128 {
            Fixed { micros: i64::MAX }
        } else {
            Fixed { micros: micros as i64 }
        }
    }

    fn plus(self, rhs: Fixed) -> (r: Fixed) {
        clamp(self.micros as i128 + rhs.micros as i128)
    }

    fn minus(self, rhs: Fixed) -> (r: Fixed) {
        clamp(self.micros as i128 - rhs.micros as i128)
    }

    fn times(self, rhs: Fixed) -> (r: Fixed) {
        let a: u128 = size(self.micros);
        let b: u128 = size(rhs.micros);
        assert(0 <= a * b <= 0x8000_0000_0000_0000 * 0x8000_0000_0000_0000) by (nonlinear_arith)
            requires
                0 <= a <= 0x8000_0000_0000_0000,
                0 <= b <= 0x8000_0000_0000_0000,
        ;
        give_sign(self.micros, rhs.micros, a * b / (ONE as u128))
    }

    fn over(self, rhs: Fixed) -> (r: Fixed) {
        if rhs.micros != 0 {
            let a: u128 = size(self.micros);
            let b: u128 = size(rhs.micros);
            give_sign(self.micros, rhs.micros, a * (ONE as u128) / b)
        } else if self.micros > 0 {
            Fixed { micros: i64::MAX }
        } else if self.micros < 0 {
            Fixed { micros: i64::MIN }
        } else {
            Fixed { micros: 0 }
        }
    }

    fn below(self, rhs: Fixed) -> (r: bool) {
        self.micros < rhs.micros
    }

    fn same(self, rhs: Fixed) -> (r: bool) {
        self.micros == rhs.micros
    }
}

} // verus!
