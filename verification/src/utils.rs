use vstd::arithmetic::div_mod::{lemma_div_by_multiple, lemma_div_denominator};
use vstd::prelude::*;

verus! {

/// Ten to the power `n`.
pub open spec fn pow10(n: nat) -> nat
    decreases n,
{
    if n == 0 {
        1
    } else {
        10 * pow10((n - 1) as nat)
    }
}

/// A power of ten is positive.
pub proof fn lemma_pow10_positive(n: nat)
    ensures
        pow10(n) >= 1,
    decreases n,
{
    if n > 0 {
        lemma_pow10_positive((n - 1) as nat);
    }
}

/// Exponents add where powers of ten are multiplied.
pub proof fn lemma_pow10_adds(a: nat, b: nat)
    ensures
        pow10(a + b) == pow10(a) * pow10(b),
    decreases a,
{
    if a == 0 {
        assert(pow10(0) == 1);
        assert(1 * pow10(b) == pow10(b));
    } else {
        lemma_pow10_adds((a - 1) as nat, b);
        let rest = pow10((a - 1) as nat);
        assert(pow10(a + b) == 10 * pow10((a - 1 + b) as nat));
        assert(10 * (rest * pow10(b)) == (10 * rest) * pow10(b)) by (nonlinear_arith);
    }
}

/// A larger exponent gives a power of ten that is no smaller.
pub proof fn lemma_pow10_increases(a: nat, b: nat)
    requires
        a <= b,
    ensures
        pow10(a) <= pow10(b),
    decreases b,
{
    if a < b {
        lemma_pow10_increases(a, (b - 1) as nat);
    }
}

/// An exact decimal number that is not negative: `units / 10^scale`.
///
/// Normalized amounts and the pool's invariant are stated as quantities; nothing is rounded
/// until a quantity is turned into raw units.
pub struct Quantity {
    pub units: nat,
    pub scale: nat,
}

impl Quantity {
    /// The whole number `amount`.
    pub open spec fn whole(amount: nat) -> Quantity {
        Quantity { units: amount, scale: 0 }
    }

    /// `self + amount` for a whole number `amount`, at the scale of `self`.
    pub open spec fn plus_whole(self, amount: nat) -> Quantity {
        Quantity { units: self.units + amount * pow10(self.scale), scale: self.scale }
    }

    /// `self * other`.
    pub open spec fn times(self, other: Quantity) -> Quantity {
        Quantity { units: self.units * other.units, scale: self.scale + other.scale }
    }

    /// `self * 10^decimals`, rounded down to a whole number of raw units.
    pub open spec fn raw_units(self, decimals: nat) -> nat {
        (self.units * pow10(decimals)) / pow10(self.scale)
    }

    /// `(self / divisor) * 10^decimals`, rounded down to a whole number of raw units.
    pub open spec fn quotient_raw_units(self, divisor: Quantity, decimals: nat) -> nat {
        (self.units * pow10(divisor.scale + decimals)) / (divisor.units * pow10(self.scale))
    }
}

/// The normalized amount of `amount` raw units of an asset with `decimal` decimals:
/// `amount / 10^decimal`.
pub open spec fn normalized(amount: nat, decimal: nat) -> Quantity {
    Quantity { units: amount, scale: decimal }
}

/// A decimal number as the library holds it: `units / 10^scale`.
#[derive(Clone, Copy, Debug, PartialEq, Eq, Structural)]
pub struct Decimal {
    pub units: u64,
    pub scale: u8,
}

impl View for Decimal {
    type V = Quantity;

    open spec fn view(&self) -> Quantity {
        Quantity { units: self.units as nat, scale: self.scale as nat }
    }
}

impl Decimal {
    /// The whole number `amount`.
    pub fn whole(amount: u64) -> (d: Decimal)
        ensures
            d@ == Quantity::whole(amount as nat),
    {
        Decimal { units: amount, scale: 0 }
    }
}

/// Where the quantity has no more decimals than asked for, turning it into raw units
/// multiplies its units by a power of ten, and nothing is rounded.
pub proof fn lemma_raw_units_scale_up(q: Quantity, decimals: nat)
    requires
        q.scale <= decimals,
    ensures
        q.raw_units(decimals) == q.units * pow10((decimals - q.scale) as nat),
{
    let up = pow10((decimals - q.scale) as nat);
    let down = pow10(q.scale);
    lemma_pow10_adds((decimals - q.scale) as nat, q.scale);
    lemma_pow10_positive(q.scale);
    assert(q.units * (up * down) == (q.units * up) * down) by (nonlinear_arith);
    lemma_div_by_multiple((q.units * up) as int, down as int);
}

/// Where the quantity has more decimals than asked for, turning it into raw units divides its
/// units by a power of ten, rounding down.
pub proof fn lemma_raw_units_scale_down(q: Quantity, decimals: nat)
    requires
        q.scale >= decimals,
    ensures
        q.raw_units(decimals) == q.units / pow10((q.scale - decimals) as nat),
{
    let keep = pow10(decimals);
    let drop = pow10((q.scale - decimals) as nat);
    lemma_pow10_adds(decimals, (q.scale - decimals) as nat);
    lemma_pow10_positive(decimals);
    lemma_pow10_positive((q.scale - decimals) as nat);
    lemma_div_denominator((q.units * keep) as int, keep as int, drop as int);
    lemma_div_by_multiple(q.units as int, keep as int);
}

/// Normalizing a raw amount and turning the result back into raw units, with the same number
/// of decimals, gives the raw amount again: exactly, whatever the amount and the decimals.
pub proof fn lemma_normalize_round_trip(amount: nat, decimal: nat)
    ensures
        normalized(amount, decimal).raw_units(decimal) == amount,
{
    lemma_raw_units_scale_up(normalized(amount, decimal), decimal);
    assert(pow10(0) == 1);
    assert(amount * 1 == amount);
}

/// Dividing a quantity by another one and turning the quotient into raw units is one integer
/// division, where the scale of the dividend is that of the divisor plus the decimals asked
/// for.
pub proof fn lemma_quotient_raw_units(q: Quantity, divisor: Quantity, decimals: nat)
    requires
        q.scale == divisor.scale + decimals,
        divisor.units > 0,
    ensures
        q.quotient_raw_units(divisor, decimals) == q.units / divisor.units,
{
    let p = pow10(q.scale);
    lemma_pow10_positive(q.scale);
    assert(divisor.units * p == p * divisor.units) by (nonlinear_arith);
    lemma_div_denominator((q.units * p) as int, p as int, divisor.units as int);
    lemma_div_by_multiple(q.units as int, p as int);
}

/// Normalizes a raw amount of an asset with `decimal` decimals: divides it by
/// `10^decimal`. The result is exact.
pub fn normal_amount_fn(amount: u64, decimal: u8) -> (normal: Decimal)
    ensures
        normal@ == normalized(amount as nat, decimal as nat),
{
    Decimal { units: amount, scale: decimal }
}

/// Turns an amount into raw units of an asset with `decimal` decimals: multiplies it by
/// `10^decimal` and rounds down.
///
/// `None` where the result is more than a 64-bit balance can hold.
pub fn arbitary_amounts(amount: Decimal, decimal: u8) -> (raw: Option<u64>)
    ensures
        raw == if amount@.raw_units(decimal as nat) <= u64::MAX {
            Some(amount@.raw_units(decimal as nat) as u64)
        } else {
            None
        },
{
    if amount.scale <= decimal {
        let steps: u8 = decimal - amount.scale;
        let mut done: u8 = 0;
        let mut acc: u64 = amount.units;
        proof {
            lemma_raw_units_scale_up(amount@, decimal as nat);
            assert(acc * 1 == acc);
        }
        while done < steps
            invariant
                done <= steps,
                steps == decimal - amount.scale,
                acc == amount.units * pow10(done as nat),
                amount@.raw_units(decimal as nat) == amount.units * pow10(steps as nat),
            decreases steps - done,
        {
            let ghost before = pow10(done as nat);
            let ghost all = pow10(steps as nat);
            proof {
                lemma_pow10_increases((done + 1) as nat, steps as nat);
                assert(amount.units * (10 * before) == (amount.units * before) * 10)
                    by (nonlinear_arith);
                assert(amount.units * (10 * before) <= amount.units * all) by (nonlinear_arith)
                    requires
                        10 * before <= all,
                ;
            }
            match acc.checked_mul(10) {
                Some(next) => {
                    acc = next;
                },
                None => {
                    return None;
                },
            }
            done += 1;
        }
        Some(acc)
    } else {
        let steps: u8 = amount.scale - decimal;
        let mut done: u8 = 0;
        let mut acc: u64 = amount.units;
        proof {
            lemma_raw_units_scale_down(amount@, decimal as nat);
            assert(pow10(0) == 1);
            assert((amount.units as nat) / 1 == amount.units);
        }
        while done < steps
            invariant
                done <= steps,
                acc == (amount.units as nat) / pow10(done as nat),
            decreases steps - done,
        {
            proof {
                lemma_pow10_positive(done as nat);
                lemma_div_denominator(amount.units as int, pow10(done as nat) as int, 10);
            }
            acc = acc / 10;
            done += 1;
        }
        Some(acc)
    }
}

} // verus!
