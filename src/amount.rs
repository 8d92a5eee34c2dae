use rust_decimal::Decimal;
use std::str::FromStr;
use vstd::prelude::*;

verus! {

/// The largest number of digits after the decimal point that an amount carries.
pub const MAX_SCALE: u32 = 28;

/// 10 raised to `n`.
pub open spec fn pow10(n: nat) -> int
    decreases n,
{
    if n == 0 {
        1
    } else {
        10 * pow10((n - 1) as nat)
    }
}

/// Whether `x` can be stored in an `i128`.
pub open spec fn fits_i128(x: int) -> bool {
    i128::MIN <= x <= i128::MAX
}

/// The decimal that a text denotes, as `(mantissa, scale)` with value
/// `mantissa / 10^scale`, or `None` where the text is no decimal.
pub uninterp spec fn decimal_parts(s: Seq<char>) -> Option<(int, int)>;

/// An exact decimal number, worth `mantissa / 10^scale`.
#[derive(Clone, Copy, Debug)]
pub struct Amount {
    pub mantissa: i128,
    pub scale: u32,
}

impl Amount {
    pub open spec fn wf(self) -> bool {
        self.scale <= MAX_SCALE
    }

    /// The value counted in steps of 10^-28: two amounts are equal in value
    /// exactly when their units are.
    pub open spec fn units(self) -> int {
        self.mantissa * pow10((MAX_SCALE - self.scale) as nat)
    }

    /// The mantissa that stands for the same value at a scale of `scale`.
    pub open spec fn aligned(self, scale: u32) -> int {
        self.mantissa * pow10((scale - self.scale) as nat)
    }

    pub open spec fn common_scale(self, o: Amount) -> u32 {
        if self.scale >= o.scale {
            self.scale
        } else {
            o.scale
        }
    }

    /// The sum at the larger of the two scales, where it fits.
    pub open spec fn spec_add(self, o: Amount) -> Option<Amount> {
        let s = self.common_scale(o);
        let m = self.aligned(s) + o.aligned(s);
        if fits_i128(self.aligned(s)) && fits_i128(o.aligned(s)) && fits_i128(m) {
            Some(Amount { mantissa: m as i128, scale: s })
        } else {
            None
        }
    }

    /// The difference at the larger of the two scales, where it fits.
    pub open spec fn spec_sub(self, o: Amount) -> Option<Amount> {
        let s = self.common_scale(o);
        let m = self.aligned(s) - o.aligned(s);
        if fits_i128(self.aligned(s)) && fits_i128(o.aligned(s)) && fits_i128(m) {
            Some(Amount { mantissa: m as i128, scale: s })
        } else {
            None
        }
    }

    pub fn zero() -> (r: Amount)
        ensures
            r.wf(),
            r.units() == 0,
            r == (Amount { mantissa: 0, scale: 0 }),
    {
        Amount { mantissa: 0, scale: 0 }
    }

    fn rescaled(&self, scale: u32) -> (r: Option<i128>)
        requires
            self.scale <= scale <= MAX_SCALE,
        ensures
            r == (if fits_i128(self.aligned(scale)) {
                Some(self.aligned(scale) as i128)
            } else {
                None::<i128>
            }),
    {
        let p = pow10_exec(scale - self.scale);
        self.mantissa.checked_mul(p)
    }

    pub fn checked_add(&self, o: &Amount) -> (r: Option<Amount>)
        requires
            self.wf(),
            o.wf(),
        ensures
            r == self.spec_add(*o),
            r matches Some(v) ==> v.wf() && v.units() == self.units() + o.units(),
    {
        let s = if self.scale >= o.scale {
            self.scale
        } else {
            o.scale
        };
        let r = match self.rescaled(s) {
            Some(x) => match o.rescaled(s) {
                Some(y) => match x.checked_add(y) {
                    Some(m) => Some(Amount { mantissa: m, scale: s }),
                    None => None,
                },
                None => None,
            },
            None => None,
        };
        proof {
            lemma_add_units(*self, *o);
        }
        r
    }

    pub fn checked_sub(&self, o: &Amount) -> (r: Option<Amount>)
        requires
            self.wf(),
            o.wf(),
        ensures
            r == self.spec_sub(*o),
            r matches Some(v) ==> v.wf() && v.units() == self.units() - o.units(),
    {
        let s = if self.scale >= o.scale {
            self.scale
        } else {
            o.scale
        };
        let r = match self.rescaled(s) {
            Some(x) => match o.rescaled(s) {
                Some(y) => match x.checked_sub(y) {
                    Some(m) => Some(Amount { mantissa: m, scale: s }),
                    None => None,
                },
                None => None,
            },
            None => None,
        };
        proof {
            lemma_sub_units(*self, *o);
        }
        r
    }

    /// Whether this amount is worth at least `o`.
    pub fn ge(&self, o: &Amount) -> (r: bool)
        requires
            self.wf(),
            o.wf(),
        ensures
            r == (self.units() >= o.units()),
    {
        let s = if self.scale >= o.scale {
            self.scale
        } else {
            o.scale
        };
        proof {
            lemma_units_aligned(*self, s);
            lemma_units_aligned(*o, s);
            lemma_pow10_pos((MAX_SCALE - s) as nat);
            lemma_pow10_pos((s - self.scale) as nat);
            lemma_pow10_pos((s - o.scale) as nat);
            let p = pow10((MAX_SCALE - s) as nat);
            let a = self.aligned(s);
            let b = o.aligned(s);
            lemma_mul_pos_cmp(a, b, p);
            lemma_mul_sign(self.mantissa as int, pow10((s - self.scale) as nat));
            lemma_mul_sign(o.mantissa as int, pow10((s - o.scale) as nat));
        }
        match self.rescaled(s) {
            Some(x) => match o.rescaled(s) {
                Some(y) => x >= y,
                None => o.mantissa < 0,
            },
            None => self.mantissa > 0,
        }
    }
}

/// A sum, where it fits, is a well-formed amount worth the two values added.
pub proof fn lemma_add_units(x: Amount, y: Amount)
    requires
        x.wf(),
        y.wf(),
    ensures
        x.spec_add(y) matches Some(v) ==> v.wf() && v.units() == x.units() + y.units(),
{
    let s = x.common_scale(y);
    if let Some(v) = x.spec_add(y) {
        lemma_units_aligned(x, s);
        lemma_units_aligned(y, s);
        lemma_units_aligned(v, s);
        let p = pow10((MAX_SCALE - s) as nat);
        let a = x.aligned(s);
        let b = y.aligned(s);
        assert((a + b) * p == a * p + b * p) by (nonlinear_arith);
    }
}

/// A difference, where it fits, is a well-formed amount worth the first
/// value less the second.
pub proof fn lemma_sub_units(x: Amount, y: Amount)
    requires
        x.wf(),
        y.wf(),
    ensures
        x.spec_sub(y) matches Some(v) ==> v.wf() && v.units() == x.units() - y.units(),
{
    let s = x.common_scale(y);
    if let Some(v) = x.spec_sub(y) {
        lemma_units_aligned(x, s);
        lemma_units_aligned(y, s);
        lemma_units_aligned(v, s);
        let p = pow10((MAX_SCALE - s) as nat);
        let a = x.aligned(s);
        let b = y.aligned(s);
        assert((a - b) * p == a * p - b * p) by (nonlinear_arith);
    }
}

proof fn lemma_mul_pos_cmp(a: int, b: int, p: int)
    requires
        p > 0,
    ensures
        (a >= b) == (a * p >= b * p),
{
    assert(a >= b ==> a * p >= b * p) by (nonlinear_arith)
        requires
            p > 0,
    ;
    assert(a < b ==> a * p < b * p) by (nonlinear_arith)
        requires
            p > 0,
    ;
}

proof fn lemma_mul_sign(a: int, p: int)
    requires
        p > 0,
    ensures
        (a > 0) == (a * p > 0),
        (a < 0) == (a * p < 0),
        (a == 0) == (a * p == 0),
        p == 1 ==> a * p == a,
{
    assert(a > 0 ==> a * p > 0) by (nonlinear_arith)
        requires
            p > 0,
    ;
    assert(a < 0 ==> a * p < 0) by (nonlinear_arith)
        requires
            p > 0,
    ;
}

proof fn lemma_pow10_pos(n: nat)
    ensures
        pow10(n) >= 1,
    decreases n,
{
    if n > 0 {
        lemma_pow10_pos((n - 1) as nat);
    }
}

proof fn lemma_pow10_le(a: nat, b: nat)
    requires
        a <= b,
    ensures
        pow10(a) <= pow10(b),
    decreases b,
{
    if a < b {
        lemma_pow10_le(a, (b - 1) as nat);
        lemma_pow10_pos((b - 1) as nat);
    }
}

proof fn lemma_pow10_add(a: nat, b: nat)
    ensures
        pow10(a + b) == pow10(a) * pow10(b),
    decreases a,
{
    if a > 0 {
        lemma_pow10_add((a - 1) as nat, b);
        assert(pow10(a + b) == 10 * pow10((a - 1 + b) as nat));
        let x = pow10((a - 1) as nat);
        let y = pow10(b);
        assert(10 * (x * y) == (10 * x) * y) by (nonlinear_arith);
    }
}

proof fn lemma_pow10_max()
    ensures
        pow10(MAX_SCALE as nat) == 10000000000000000000000000000,
{
    reveal_with_fuel(pow10, 29);
}

/// An amount's units are its mantissa at any larger scale, times the steps
/// left to the finest one.
proof fn lemma_units_aligned(a: Amount, s: u32)
    requires
        a.scale <= s <= MAX_SCALE,
    ensures
        a.units() == a.aligned(s) * pow10((MAX_SCALE - s) as nat),
{
    let x = (s - a.scale) as nat;
    let y = (MAX_SCALE - s) as nat;
    lemma_pow10_add(x, y);
    assert((x + y) as nat == (MAX_SCALE - a.scale) as nat);
    let m = a.mantissa as int;
    let px = pow10(x);
    let py = pow10(y);
    assert(m * (px * py) == (m * px) * py) by (nonlinear_arith);
}

fn pow10_exec(n: u32) -> (r: i128)
    requires
        n <= MAX_SCALE,
    ensures
        r as int == pow10(n as nat),
{
    let mut p: i128 = 1;
    let mut k: u32 = 0;
    while k < n
        invariant
            k <= n,
            n <= MAX_SCALE,
            p as int == pow10(k as nat),
        decreases n - k,
    {
        proof {
            lemma_pow10_le((k + 1) as nat, MAX_SCALE as nat);
            lemma_pow10_max();
            assert(pow10((k + 1) as nat) == 10 * pow10(k as nat));
            lemma_pow10_pos(k as nat);
        }
        p = p * 10;
        k = k + 1;
    }
    p
}

/// Relies on rust_decimal's `Decimal::from_str`, read back through
/// `Decimal::mantissa` and `Decimal::scale`: the outcome depends on the text
/// alone, and a `Decimal` never has a scale above 28.
#[verifier::external_body]
fn decimal_from_str(s: &str) -> (r: Option<Amount>)
    ensures
        r is Some == decimal_parts(s@) is Some,
        r matches Some(a) ==> decimal_parts(s@) == Some((a.mantissa as int, a.scale as int)),
        r matches Some(a) ==> a.scale <= MAX_SCALE,
{
    match Decimal::from_str(s) {
        Ok(d) => Some(Amount { mantissa: d.mantissa(), scale: d.scale() }),
        Err(_) => None,
    }
}

/// The amount that a text denotes, if it is a decimal.
pub open spec fn spec_parse(s: Seq<char>) -> Option<Amount> {
    match decimal_parts(s) {
        Some((m, sc)) => if fits_i128(m) && 0 <= sc <= MAX_SCALE {
            Some(Amount { mantissa: m as i128, scale: sc as u32 })
        } else {
            None
        },
        None => None,
    }
}

impl Amount {
    /// Reads a decimal from text such as `"1.0"` or `"-0.1234"`.
    pub fn parse(s: &str) -> (r: Option<Amount>)
        ensures
            r == spec_parse(s@),
            r matches Some(a) ==> a.wf(),
    {
        decimal_from_str(s)
    }
}

} // verus!
