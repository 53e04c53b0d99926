//! The numeric value model.
//!
//! The language has a single numeric kind backed by one representation;
//! whether a number is `Whole` is decided by testing whether its fractional
//! part is zero.  Numbers are exact scaled decimals: a sign and a magnitude
//! counted in millionths, so every literal with at most six fractional
//! digits is represented exactly.  Arithmetic saturates at the outermost
//! representable magnitude instead of overflowing, and a zero divisor
//! saturates the quotient.

use vstd::prelude::*;

verus! {

/// Millionths per unit: the fixed denominator of every number.
pub const SCALE: u128 = 1_000_000;

/// Largest representable magnitude, in millionths.
pub const MAX_MAG: u128 = 1_000_000_000_000_000_000;

/// A number: `mag` millionths, negated when `neg` is set.
#[derive(Clone, Copy, Debug)]
pub struct Num {
    neg: bool,
    mag: u128,
}

/// Clamp a scaled value to the representable range.
pub open spec fn clip(x: int) -> int {
    if x > MAX_MAG as int {
        MAX_MAG as int
    } else if x < -(MAX_MAG as int) {
        -(MAX_MAG as int)
    } else {
        x
    }
}

/// Division truncating toward zero, following the operands' signs.
pub open spec fn tdiv(x: int, d: int) -> int {
    let ax = if x >= 0 {
        x
    } else {
        -x
    };
    let ad = if d >= 0 {
        d
    } else {
        -d
    };
    if (x >= 0) == (d >= 0) {
        ax / ad
    } else {
        -(ax / ad)
    }
}

impl View for Num {
    type V = int;

    closed spec fn view(&self) -> int {
        if self.neg {
            -(self.mag as int)
        } else {
            self.mag as int
        }
    }
}

impl DeepView for Num {
    type V = int;

    open spec fn deep_view(&self) -> int {
        self.view()
    }
}

impl Num {
    #[verifier::type_invariant]
    pub closed spec fn inv(self) -> bool {
        self.mag <= MAX_MAG && (self.mag == 0 ==> !self.neg)
    }

    /// The number zero.
    pub fn zero() -> (r: Num)
        ensures
            r@ == 0,
    {
        Num { neg: false, mag: 0 }
    }

    /// Build a number from a sign and a magnitude in millionths; a
    /// magnitude beyond the representable range is refused.
    pub fn make(neg: bool, mag: u128) -> (r: Option<Num>)
        ensures
            mag <= MAX_MAG ==> (r matches Some(n) && n@ == (if neg {
                -(mag as int)
            } else {
                mag as int
            })),
            mag > MAX_MAG ==> r is None,
    {
        if mag > MAX_MAG {
            None
        } else if mag == 0 {
            Some(Num { neg: false, mag: 0 })
        } else {
            Some(Num { neg, mag })
        }
    }

    /// The number of a whole amount of units, clamped to range.
    pub fn from_units(units: u64) -> (r: Num)
        ensures
            r@ == clip(units as int * SCALE as int),
    {
        let m: u128 = (units as u128) * SCALE;
        if m > MAX_MAG {
            Num { neg: false, mag: MAX_MAG }
        } else if m == 0 {
            Num { neg: false, mag: 0 }
        } else {
            Num { neg: false, mag: m }
        }
    }

    /// The negation, which is always representable.
    pub fn negate(self) -> (r: Num)
        ensures
            r@ == -self@,
    {
        proof {
            use_type_invariant(self);
        }
        if self.mag == 0 {
            Num { neg: false, mag: 0 }
        } else {
            Num { neg: !self.neg, mag: self.mag }
        }
    }

    /// Saturating addition.
    pub fn add(self, other: Num) -> (r: Num)
        ensures
            r@ == clip(self@ + other@),
    {
        proof {
            use_type_invariant(self);
            use_type_invariant(other);
        }
        if self.neg == other.neg {
            let m: u128 = self.mag + other.mag;
            let mag = if m > MAX_MAG {
                MAX_MAG
            } else {
                m
            };
            if mag == 0 {
                Num { neg: false, mag: 0 }
            } else {
                Num { neg: self.neg, mag }
            }
        } else if self.mag >= other.mag {
            let m: u128 = self.mag - other.mag;
            if m == 0 {
                Num { neg: false, mag: 0 }
            } else {
                Num { neg: self.neg, mag: m }
            }
        } else {
            Num { neg: other.neg, mag: other.mag - self.mag }
        }
    }

    /// Saturating subtraction.
    pub fn sub(self, other: Num) -> (r: Num)
        ensures
            r@ == clip(self@ - other@),
    {
        self.add(other.negate())
    }

    /// Saturating multiplication, truncating toward zero at the scale.
    pub fn mul(self, other: Num) -> (r: Num)
        ensures
            r@ == clip(tdiv(self@ * other@, SCALE as int)),
    {
        proof {
            use_type_invariant(self);
            use_type_invariant(other);
            assert(self.mag as int * other.mag as int <= MAX_MAG as int * MAX_MAG as int)
                by (nonlinear_arith)
                requires
                    self.mag <= MAX_MAG,
                    other.mag <= MAX_MAG,
            ;
        }
        let p: u128 = self.mag * other.mag;
        let q: u128 = p / SCALE;
        let mag = if q > MAX_MAG {
            MAX_MAG
        } else {
            q
        };
        let neg = self.neg != other.neg;
        proof {
            assert(self@ * other@ == if self.neg != other.neg {
                -(p as int)
            } else {
                p as int
            }) by (nonlinear_arith)
                requires
                    p == self.mag as int * other.mag as int,
                    self@ == (if self.neg {
                        -(self.mag as int)
                    } else {
                        self.mag as int
                    }),
                    other@ == (if other.neg {
                        -(other.mag as int)
                    } else {
                        other.mag as int
                    }),
            ;
            lemma_zero_div(SCALE as int);
        }
        if mag == 0 {
            Num { neg: false, mag: 0 }
        } else {
            Num { neg, mag }
        }
    }

    /// Saturating division, truncating toward zero.  A zero divisor
    /// saturates rather than being guarded against: the quotient is zero
    /// for a zero dividend, and otherwise the outermost magnitude with
    /// the dividend's sign — the exact-arithmetic analogue of a
    /// floating-point division running to an infinity.
    pub fn div(self, other: Num) -> (r: Num)
        ensures
            other@ != 0 ==> r@ == clip(tdiv(self@ * SCALE as int, other@)),
            other@ == 0 && self@ == 0 ==> r@ == 0,
            other@ == 0 && self@ > 0 ==> r@ == MAX_MAG as int,
            other@ == 0 && self@ < 0 ==> r@ == -(MAX_MAG as int),
    {
        proof {
            use_type_invariant(self);
            use_type_invariant(other);
        }
        if other.mag == 0 {
            if self.mag == 0 {
                Num { neg: false, mag: 0 }
            } else {
                Num { neg: self.neg, mag: MAX_MAG }
            }
        } else {
            let p: u128 = self.mag * SCALE;
            let q: u128 = p / other.mag;
            let mag = if q > MAX_MAG {
                MAX_MAG
            } else {
                q
            };
            let neg = self.neg != other.neg;
            proof {
                assert(self@ * SCALE as int == if self.neg {
                    -(p as int)
                } else {
                    p as int
                }) by (nonlinear_arith)
                    requires
                        p == self.mag as int * SCALE as int,
                        self@ == (if self.neg {
                            -(self.mag as int)
                        } else {
                            self.mag as int
                        }),
                ;
                lemma_zero_div(other.mag as int);
            }
            if mag == 0 {
                Num { neg: false, mag: 0 }
            } else {
                Num { neg, mag }
            }
        }
    }

    /// Whether the fractional part is exactly zero.
    pub fn is_whole(&self) -> (r: bool)
        ensures
            r == (self@ % (SCALE as int) == 0),
    {
        proof {
            use_type_invariant(*self);
            lemma_neg_mod(self.mag as int, SCALE as int);
        }
        self.mag % SCALE == 0
    }

    /// Round toward negative infinity to a whole number of units.
    pub fn floor(self) -> (r: Num)
        ensures
            r@ == SCALE as int * (self@ / (SCALE as int)),
    {
        proof {
            use_type_invariant(self);
        }
        let rem: u128 = self.mag % SCALE;
        proof {
            vstd::arithmetic::div_mod::lemma_fundamental_div_mod(self.mag as int, SCALE as int);
        }
        if rem == 0 {
            proof {
                lemma_neg_div_exact(self.mag as int, SCALE as int);
            }
            self
        } else if !self.neg {
            Num { neg: false, mag: self.mag - rem }
        } else {
            proof {
                let q = self.mag as int / SCALE as int;
                vstd::arithmetic::div_mod::lemma_fundamental_div_mod_converse(
                    -(self.mag as int),
                    SCALE as int,
                    -q - 1,
                    SCALE as int - rem,
                );
                assert(MAX_MAG as int == SCALE as int * 1_000_000_000_000int);
                assert(self.mag as int - rem + SCALE as int <= MAX_MAG as int)
                    by (nonlinear_arith)
                    requires
                        self.mag as int == SCALE as int * q + rem,
                        0 < rem < SCALE as int,
                        self.mag as int <= MAX_MAG as int,
                        MAX_MAG as int == SCALE as int * 1_000_000_000_000int,
                ;
            }
            Num { neg: true, mag: self.mag - rem + SCALE }
        }
    }

    /// Sign, whole units and remaining millionths, for rendering.
    pub fn parts(&self) -> (r: (bool, u128, u128))
        ensures
            r.0 == (self@ < 0),
            r.1 == (if self@ < 0 { -self@ } else { self@ }) / (SCALE as int),
            r.2 == (if self@ < 0 { -self@ } else { self@ }) % (SCALE as int),
            r.2 < SCALE,
    {
        proof {
            use_type_invariant(*self);
        }
        (self.neg, self.mag / SCALE, self.mag % SCALE)
    }
}

/// Zero divided by any positive amount is zero.
proof fn lemma_zero_div(d: int)
    requires
        d > 0,
    ensures
        0int / d == 0,
{
    vstd::arithmetic::div_mod::lemma_fundamental_div_mod_converse(0, d, 0, 0);
}

/// The negation of a multiple of `d` is a multiple of `d`, and only then.
proof fn lemma_neg_mod(m: int, d: int)
    requires
        m >= 0,
        d > 0,
    ensures
        ((-m) % d == 0) == (m % d == 0),
{
    vstd::arithmetic::div_mod::lemma_fundamental_div_mod(m, d);
    let q = m / d;
    let r = m % d;
    if r == 0 {
        assert(-m == (-q) * d + 0) by (nonlinear_arith)
            requires
                m == d * q + r,
                r == 0,
        ;
        vstd::arithmetic::div_mod::lemma_fundamental_div_mod_converse(-m, d, -q, 0);
    } else {
        assert(-m == (-q - 1) * d + (d - r)) by (nonlinear_arith)
            requires
                m == d * q + r,
        ;
        vstd::arithmetic::div_mod::lemma_fundamental_div_mod_converse(-m, d, -q - 1, d - r);
    }
}

/// Dividing the negation of an exact multiple negates the quotient.
proof fn lemma_neg_div_exact(m: int, d: int)
    requires
        m >= 0,
        d > 0,
        m % d == 0,
    ensures
        (-m) / d == -(m / d),
{
    vstd::arithmetic::div_mod::lemma_fundamental_div_mod(m, d);
    let q = m / d;
    assert(-m == (-q) * d + 0) by (nonlinear_arith)
        requires
            m == d * q + 0,
    ;
    vstd::arithmetic::div_mod::lemma_fundamental_div_mod_converse(-m, d, -q, 0);
}

} // verus!
