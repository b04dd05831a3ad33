use vstd::arithmetic::div_mod::lemma_mod_breakdown;
use vstd::prelude::*;

verus! {

/// Number of decimal places that an amount carries.
pub const SCALE: u32 = 4;

/// One whole currency unit, in ten-thousandths.
pub const UNIT: i128 = 10000;

/// A signed monetary amount with four decimal places, held as a count of
/// ten-thousandths. Its representable range is that of `i128`.
#[derive(Debug, PartialEq, Eq, Structural, Clone, Copy)]
pub struct Amount {
    units: i128,
}

impl View for Amount {
    type V = int;

    /// The amount in ten-thousandths.
    closed spec fn view(&self) -> int {
        self.units as int
    }
}

/// Whether `v` fits the representable range of an amount.
pub open spec fn in_range(v: int) -> bool {
    i128::MIN <= v <= i128::MAX
}

/// Ten to the power `n`.
pub open spec fn pow10(n: nat) -> int
    decreases n,
{
    if n == 0 {
        1
    } else {
        10 * pow10((n - 1) as nat)
    }
}

pub open spec fn magnitude(m: int) -> int {
    if m < 0 {
        -m
    } else {
        m
    }
}

proof fn lemma_pow10_positive(n: nat)
    ensures
        pow10(n) > 0,
    decreases n,
{
    if n > 0 {
        lemma_pow10_positive((n - 1) as nat);
    }
}

/// Two amounts with the same value are the same amount.
pub proof fn lemma_view_injective(a: Amount, b: Amount)
    requires
        a@ == b@,
    ensures
        a == b,
{
}

impl Amount {
    pub fn zero() -> (r: Amount)
        ensures
            r@ == 0,
    {
        Amount { units: 0 }
    }

    /// The amount of `units` ten-thousandths.
    pub fn from_units(units: i128) -> (r: Amount)
        ensures
            r@ == units,
    {
        Amount { units }
    }

    /// The amount in ten-thousandths.
    pub fn units(&self) -> (r: i128)
        ensures
            r == self@,
    {
        self.units
    }

    pub fn is_negative(&self) -> (r: bool)
        ensures
            r == (self@ < 0),
    {
        self.units < 0
    }

    pub fn le(&self, other: &Amount) -> (r: bool)
        ensures
            r == (self@ <= other@),
    {
        self.units <= other.units
    }

    /// The sum, or `None` where it leaves the representable range.
    pub fn checked_add(&self, other: &Amount) -> (r: Option<Amount>)
        ensures
            r is Some <==> in_range(self@ + other@),
            r matches Some(s) ==> s@ == self@ + other@,
    {
        match self.units.checked_add(other.units) {
            Some(u) => Some(Amount { units: u }),
            None => None,
        }
    }

    /// The sum, where it is known to fit.
    pub fn add(&self, other: &Amount) -> (r: Amount)
        requires
            in_range(self@ + other@),
        ensures
            r@ == self@ + other@,
    {
        Amount { units: self.units + other.units }
    }

    /// The difference, where it is known to fit.
    pub fn sub(&self, other: &Amount) -> (r: Amount)
        requires
            in_range(self@ - other@),
        ensures
            r@ == self@ - other@,
    {
        Amount { units: self.units - other.units }
    }
    /// The amount worth `mantissa` divided by ten to the power `scale`, the
    /// way a decimal number is written. It exists where that value is a
    /// whole number of ten-thousandths in the representable range.
    pub fn from_parts(mantissa: i128, scale: u32) -> (r: Option<Amount>)
        ensures
            scale <= SCALE ==> {
                &&& r is Some <==> in_range(mantissa * pow10((SCALE - scale) as nat))
                &&& r matches Some(a) ==> a@ == mantissa * pow10((SCALE - scale) as nat)
            },
            scale > SCALE ==> {
                &&& r is Some <==> magnitude(mantissa as int) % pow10((scale - SCALE) as nat) == 0
                &&& r matches Some(a) ==> a@ * pow10((scale - SCALE) as nat) == mantissa
            },
    {
        if scale <= SCALE {
            let mut factor: i128 = 1;
            let mut i: u32 = scale;
            while i < SCALE
                invariant
                    scale <= i <= SCALE,
                    factor == pow10((i - scale) as nat),
                    0 < factor <= 10000,
                decreases SCALE - i,
            {
                proof {
                    assert(pow10((i + 1 - scale) as nat) == 10 * pow10((i - scale) as nat));
                    reveal_with_fuel(pow10, 4);
                    assert(factor <= 1000);
                }
                factor = factor * 10;
                i = i + 1;
            }
            match mantissa.checked_mul(factor) {
                Some(u) => Some(Amount { units: u }),
                None => None,
            }
        } else {
            let negative = mantissa < 0;
            let start: u128 = if negative {
                ((-(mantissa + 1)) as u128) + 1
            } else {
                mantissa as u128
            };
            let mut rest: u128 = start;
            let mut k: u32 = scale - SCALE;
            let ghost k0: nat = (scale - SCALE) as nat;
            proof {
                lemma_pow10_positive(k0);
            }
            while k > 0 && rest != 0
                invariant
                    k <= k0,
                    k0 == scale - SCALE,
                    start == magnitude(mantissa as int),
                    start == rest * pow10((k0 - k) as nat),
                    (start as int % pow10(k0) == 0) <==> (rest as int % pow10(k as nat) == 0),
                decreases k,
            {
                proof {
                    lemma_pow10_positive((k - 1) as nat);
                    lemma_pow10_positive((k0 - k) as nat);
                    lemma_mod_breakdown(rest as int, 10, pow10((k - 1) as nat));
                    assert(pow10(k as nat) == 10 * pow10((k - 1) as nat));
                }
                if rest % 10 != 0 {
                    return None;
                }
                proof {
                    assert(rest == 10 * (rest / 10));
                    assert(pow10((k0 - k + 1) as nat) == 10 * pow10((k0 - k) as nat));
                    assert(start == (rest / 10) * pow10((k0 - k + 1) as nat)) by (nonlinear_arith)
                        requires
                            start == rest * pow10((k0 - k) as nat),
                            rest == 10 * (rest / 10),
                            pow10((k0 - k + 1) as nat) == 10 * pow10((k0 - k) as nat),
                    ;
                }
                rest = rest / 10;
                k = k - 1;
            }
            proof {
                if rest == 0 {
                    assert(start == 0);
                }
                lemma_pow10_positive(k as nat);
                lemma_pow10_positive((k0 - k) as nat);
                assert(rest <= start) by (nonlinear_arith)
                    requires
                        start == rest * pow10((k0 - k) as nat),
                        pow10((k0 - k) as nat) > 0,
                        rest >= 0,
                ;
                if k > 0 {
                    assert(rest == 0);
                    assert(mantissa == 0);
                }
                if rest != 0 {
                    assert(k == 0);
                    assert(pow10((k0 - k) as nat) == pow10(k0));
                    assert(start >= 10 * rest) by (nonlinear_arith)
                        requires
                            start == rest * pow10(k0),
                            pow10(k0) == 10 * pow10((k0 - 1) as nat),
                            pow10((k0 - 1) as nat) > 0,
                            rest > 0,
                    ;
                }
            }
            let units: i128 = if negative {
                -(rest as i128)
            } else {
                rest as i128
            };
            proof {
                if rest == 0 {
                    assert(units * pow10(k0) == 0) by (nonlinear_arith)
                        requires
                            units == 0,
                    ;
                } else {
                    assert(k == 0);
                    assert(pow10((k0 - k) as nat) == pow10(k0));
                    assert(units * pow10(k0) == mantissa) by (nonlinear_arith)
                        requires
                            start == rest * pow10(k0),
                            start == magnitude(mantissa as int),
                            negative <==> mantissa < 0,
                            negative ==> units == -rest,
                            !negative ==> units == rest,
                    ;
                }
            }
            Some(Amount { units })
        }
    }
}

} // verus!
