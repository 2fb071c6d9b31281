//! Exact positive rational numbers with capacity-checked arithmetic.
//!
//! Probabilities and probability factors are represented exactly as
//! fractions of 128-bit integers, kept in lowest terms. Every operation
//! either returns the exact mathematical result (renormalised through the
//! greatest common divisor) or reports that an intermediate product would
//! not fit in 128 bits.

use vstd::prelude::*;
use vstd::arithmetic::div_mod::{
    lemma_fundamental_div_mod, lemma_add_mod_noop, lemma_mul_mod_noop_left, lemma_mod_self_0,
    lemma_small_mod,
};

verus! {

/// A rational number `num / den`. Well-formed values (see [`rat_wf`])
/// are strictly positive: both components are at least one.
#[derive(Clone, Copy, PartialEq, Eq, Structural, Debug)]
pub struct Rat {
    pub num: u128,
    pub den: u128,
}

/// Greatest common divisor by the Euclidean recursion.
pub open spec fn gcd_s(a: nat, b: nat) -> nat
    decreases b,
{
    if b == 0 {
        a
    } else {
        gcd_s(b, a % b)
    }
}

/// Well-formedness: a strictly positive fraction.
pub open spec fn rat_wf(r: Rat) -> bool {
    1 <= r.num && 1 <= r.den
}

/// The rational one.
pub open spec fn rat_one() -> Rat {
    Rat { num: 1, den: 1 }
}

/// The fraction `n / d` reduced to lowest terms.
pub open spec fn norm_s(n: nat, d: nat) -> Rat
    recommends
        1 <= n <= u128::MAX,
        1 <= d <= u128::MAX,
{
    let g = gcd_s(n, d);
    if g == 0 {
        Rat { num: n as u128, den: d as u128 }
    } else {
        Rat { num: (n / g) as u128, den: (d / g) as u128 }
    }
}

/// Exact product, or `None` where an intermediate product exceeds 128 bits.
pub open spec fn mul_s(a: Rat, b: Rat) -> Option<Rat> {
    if a.num * b.num <= u128::MAX && a.den * b.den <= u128::MAX {
        Some(norm_s((a.num * b.num) as nat, (a.den * b.den) as nat))
    } else {
        None
    }
}

/// Exact sum, or `None` where an intermediate value exceeds 128 bits.
pub open spec fn add_s(a: Rat, b: Rat) -> Option<Rat> {
    if a.num * b.den <= u128::MAX && b.num * a.den <= u128::MAX
        && a.num * b.den + b.num * a.den <= u128::MAX && a.den * b.den <= u128::MAX {
        Some(norm_s((a.num * b.den + b.num * a.den) as nat, (a.den * b.den) as nat))
    } else {
        None
    }
}

/// Exact quotient, or `None` where an intermediate product exceeds 128 bits.
pub open spec fn div_s(a: Rat, b: Rat) -> Option<Rat>
    recommends
        rat_wf(b),
{
    if a.num * b.den <= u128::MAX && a.den * b.num <= u128::MAX {
        Some(norm_s((a.num * b.den) as nat, (a.den * b.num) as nat))
    } else {
        None
    }
}

/// Exact strict comparison `a < b`, or `None` where a cross product
/// exceeds 128 bits.
pub open spec fn lt_s(a: Rat, b: Rat) -> Option<bool> {
    if a.num * b.den <= u128::MAX && b.num * a.den <= u128::MAX {
        Some(a.num * b.den < b.num * a.den)
    } else {
        None
    }
}

/// Mathematical equality of the represented values.
pub open spec fn rat_eq_v(a: Rat, b: Rat) -> bool {
    a.num * b.den == b.num * a.den
}

/// Mathematical order of the represented values.
pub open spec fn rat_le_v(a: Rat, b: Rat) -> bool {
    a.num * b.den <= b.num * a.den
}

/// The gcd is zero exactly of the pair of zeros.
pub proof fn lemma_gcd_pos(a: nat, b: nat)
    ensures
        gcd_s(a, b) == 0 <==> (a == 0 && b == 0),
    decreases b,
{
    if b != 0 {
        lemma_gcd_pos(b, a % b);
    }
}

/// The gcd divides both of its arguments.
pub proof fn lemma_gcd_divides(a: nat, b: nat)
    requires
        gcd_s(a, b) > 0,
    ensures
        a % gcd_s(a, b) == 0,
        b % gcd_s(a, b) == 0,
    decreases b,
{
    let g = gcd_s(a, b);
    if b == 0 {
        lemma_mod_self_0(a as int);
        lemma_small_mod(0, a);
    } else {
        lemma_gcd_divides(b, a % b);
        lemma_fundamental_div_mod(a as int, b as int);
        let q = a as int / b as int;
        assert(a == b * q + a % b);
        lemma_mul_mod_noop_left(b as int, q, g as int);
        lemma_small_mod(0, g);
        assert((b * q) % (g as int) == (((b as int) % (g as int)) * q) % (g as int));
        assert((b * q) % (g as int) == 0);
        lemma_add_mod_noop(b * q, (a % b) as int, g as int);
        assert((b * q + a % b) % (g as int) == 0);
    }
}

/// A positive multiple of a divisor has a positive quotient.
proof fn lemma_exact_div_pos(x: nat, g: nat)
    requires
        1 <= g,
        1 <= x,
        x % g == 0,
    ensures
        1 <= x / g,
        x == g * (x / g),
        x / g <= x,
{
    lemma_fundamental_div_mod(x as int, g as int);
    assert(x == g * (x / g));
    if x / g == 0 {
        assert(x == g * 0);
    }
    assert(g * (x / g) >= 1 * (x / g)) by (nonlinear_arith)
        requires 1 <= g, 0 <= x / g;
}

/// The product of two positive numbers is positive.
pub proof fn lemma_mul_pos(a: int, b: int)
    by (nonlinear_arith)
    requires
        1 <= a,
        1 <= b,
    ensures
        1 <= a * b,
        a <= a * b,
        b <= a * b,
{
}

/// Reduction keeps the fraction well formed and within 128 bits.
pub proof fn lemma_norm_wf(n: nat, d: nat)
    requires
        1 <= n <= u128::MAX,
        1 <= d <= u128::MAX,
    ensures
        rat_wf(norm_s(n, d)),
        norm_s(n, d).num <= n,
        norm_s(n, d).den <= d,
{
    lemma_gcd_pos(n, d);
    let g = gcd_s(n, d);
    lemma_gcd_divides(n, d);
    lemma_exact_div_pos(n, g);
    lemma_exact_div_pos(d, g);
}

/// Reduction does not change the represented value:
/// `norm_s(n, d) == n / d` as rational numbers.
pub proof fn lemma_norm_val(n: nat, d: nat)
    requires
        1 <= n <= u128::MAX,
        1 <= d <= u128::MAX,
    ensures
        norm_s(n, d).num * d == n * norm_s(n, d).den,
{
    lemma_gcd_pos(n, d);
    let g = gcd_s(n, d);
    lemma_gcd_divides(n, d);
    lemma_exact_div_pos(n, g);
    lemma_exact_div_pos(d, g);
    let n1 = n / g;
    let d1 = d / g;
    assert(n1 * (g * d1) == (g * n1) * d1) by (nonlinear_arith);
}

/// A product of well-formed rationals is well formed.
pub proof fn lemma_mul_s_wf(a: Rat, b: Rat)
    requires
        rat_wf(a),
        rat_wf(b),
        mul_s(a, b) is Some,
    ensures
        rat_wf(mul_s(a, b).unwrap()),
{
    lemma_mul_pos(a.num as int, b.num as int);
    lemma_mul_pos(a.den as int, b.den as int);
    lemma_norm_wf((a.num * b.num) as nat, (a.den * b.den) as nat);
}

/// A sum of well-formed rationals is well formed.
pub proof fn lemma_add_s_wf(a: Rat, b: Rat)
    requires
        rat_wf(a),
        rat_wf(b),
        add_s(a, b) is Some,
    ensures
        rat_wf(add_s(a, b).unwrap()),
{
    lemma_mul_pos(a.num as int, b.den as int);
    lemma_mul_pos(a.den as int, b.den as int);
    lemma_norm_wf((a.num * b.den + b.num * a.den) as nat, (a.den * b.den) as nat);
}

/// The exact product: `mul_s(a, b) == a * b` as rational numbers.
pub proof fn lemma_mul_s_val(a: Rat, b: Rat)
    requires
        rat_wf(a),
        rat_wf(b),
        mul_s(a, b) is Some,
    ensures
        mul_s(a, b).unwrap().num * (a.den * b.den) == (a.num * b.num) * mul_s(a, b).unwrap().den,
{
    lemma_mul_pos(a.num as int, b.num as int);
    lemma_mul_pos(a.den as int, b.den as int);
    lemma_norm_val((a.num * b.num) as nat, (a.den * b.den) as nat);
}

/// The exact sum: `add_s(a, b) == a + b` as rational numbers.
pub proof fn lemma_add_s_val(a: Rat, b: Rat)
    requires
        rat_wf(a),
        rat_wf(b),
        add_s(a, b) is Some,
    ensures
        add_s(a, b).unwrap().num * (a.den * b.den) == (a.num * b.den + b.num * a.den) * add_s(
            a,
            b,
        ).unwrap().den,
{
    lemma_mul_pos(a.num as int, b.den as int);
    lemma_mul_pos(a.den as int, b.den as int);
    lemma_norm_val((a.num * b.den + b.num * a.den) as nat, (a.den * b.den) as nat);
}

/// The exact quotient: `div_s(a, b) == a / b` as rational numbers.
pub proof fn lemma_div_s_val(a: Rat, b: Rat)
    requires
        rat_wf(a),
        rat_wf(b),
        div_s(a, b) is Some,
    ensures
        rat_wf(div_s(a, b).unwrap()),
        div_s(a, b).unwrap().num * (a.den * b.num) == (a.num * b.den) * div_s(a, b).unwrap().den,
{
    lemma_mul_pos(a.num as int, b.den as int);
    lemma_mul_pos(a.den as int, b.num as int);
    lemma_norm_wf((a.num * b.den) as nat, (a.den * b.num) as nat);
    lemma_norm_val((a.num * b.den) as nat, (a.den * b.num) as nat);
}

/// Dividing a positive rational by itself gives exactly one.
pub proof fn lemma_div_s_self(m: Rat)
    requires
        rat_wf(m),
        div_s(m, m) is Some,
    ensures
        div_s(m, m) == Some(rat_one()),
{
    let x = (m.num * m.den) as nat;
    lemma_mul_pos(m.num as int, m.den as int);
    assert(gcd_s(x, x) == x) by {
        lemma_small_mod(0, x);
        assert(x % x == 0) by {
            lemma_mod_self_0(x as int);
        }
        assert(gcd_s(x, x) == gcd_s(x, 0));
    }
    assert(x / x == 1) by {
        lemma_fundamental_div_mod(x as int, x as int);
    }
    assert(m.den * m.num == m.num * m.den) by (nonlinear_arith);
    assert(norm_s(x, x) == rat_one());
}

/// Euclid's algorithm.
pub fn gcd(a: u128, b: u128) -> (g: u128)
    ensures
        g as nat == gcd_s(a as nat, b as nat),
{
    let mut x = a;
    let mut y = b;
    while y != 0
        invariant
            gcd_s(x as nat, y as nat) == gcd_s(a as nat, b as nat),
        decreases y,
    {
        let r = x % y;
        x = y;
        y = r;
    }
    x
}

/// Reduce `n / d` to lowest terms.
fn norm(n: u128, d: u128) -> (r: Rat)
    requires
        1 <= n,
        1 <= d,
    ensures
        r == norm_s(n as nat, d as nat),
        rat_wf(r),
{
    proof {
        lemma_norm_wf(n as nat, d as nat);
    }
    let g = gcd(n, d);
    proof {
        lemma_gcd_pos(n as nat, d as nat);
    }
    Rat { num: n / g, den: d / g }
}

impl Rat {
    /// The rational one.
    pub fn one() -> (r: Rat)
        ensures
            r == rat_one(),
            rat_wf(r),
    {
        Rat { num: 1, den: 1 }
    }

    /// Build the fraction `num / den` in lowest terms; `None` where either
    /// part is zero.
    pub fn new(num: u128, den: u128) -> (r: Option<Rat>)
        ensures
            r == new_s(num, den),
            r is Some ==> rat_wf(r.unwrap()),
    {
        if num >= 1 && den >= 1 {
            Some(norm(num, den))
        } else {
            None
        }
    }

    /// Exact product; `None` reports that an intermediate product would
    /// exceed 128 bits.
    pub fn mul(self, other: Rat) -> (r: Option<Rat>)
        requires
            rat_wf(self),
            rat_wf(other),
        ensures
            r == mul_s(self, other),
            r is Some ==> rat_wf(r.unwrap()),
    {
        match self.num.checked_mul(other.num) {
            None => None,
            Some(n) => match self.den.checked_mul(other.den) {
                None => None,
                Some(d) => {
                    proof {
                        lemma_mul_pos(self.num as int, other.num as int);
                        lemma_mul_pos(self.den as int, other.den as int);
                        lemma_norm_wf(n as nat, d as nat);
                    }
                    Some(norm(n, d))
                },
            },
        }
    }

    /// Exact sum; `None` reports that an intermediate value would exceed
    /// 128 bits.
    pub fn add(self, other: Rat) -> (r: Option<Rat>)
        requires
            rat_wf(self),
            rat_wf(other),
        ensures
            r == add_s(self, other),
            r is Some ==> rat_wf(r.unwrap()),
    {
        match self.num.checked_mul(other.den) {
            None => None,
            Some(x) => match other.num.checked_mul(self.den) {
                None => None,
                Some(y) => match x.checked_add(y) {
                    None => None,
                    Some(s) => match self.den.checked_mul(other.den) {
                        None => None,
                        Some(d) => {
                            proof {
                                lemma_mul_pos(self.num as int, other.den as int);
                                lemma_mul_pos(self.den as int, other.den as int);
                                lemma_norm_wf(s as nat, d as nat);
                            }
                            Some(norm(s, d))
                        },
                    },
                },
            },
        }
    }

    /// Exact quotient; `None` reports that an intermediate product would
    /// exceed 128 bits.
    pub fn div(self, other: Rat) -> (r: Option<Rat>)
        requires
            rat_wf(self),
            rat_wf(other),
        ensures
            r == div_s(self, other),
            r is Some ==> rat_wf(r.unwrap()),
    {
        match self.num.checked_mul(other.den) {
            None => None,
            Some(n) => match self.den.checked_mul(other.num) {
                None => None,
                Some(d) => {
                    proof {
                        lemma_mul_pos(self.num as int, other.den as int);
                        lemma_mul_pos(self.den as int, other.num as int);
                        lemma_norm_wf(n as nat, d as nat);
                    }
                    Some(norm(n, d))
                },
            },
        }
    }

    /// Exact strict comparison of the represented values; `None` reports
    /// that a cross product would exceed 128 bits.
    pub fn lt(self, other: Rat) -> (r: Option<bool>)
        ensures
            r == lt_s(self, other),
            r is Some ==> (r.unwrap() <==> self.num * other.den < other.num * self.den),
    {
        match self.num.checked_mul(other.den) {
            None => None,
            Some(x) => match other.num.checked_mul(self.den) {
                None => None,
                Some(y) => Some(x < y),
            },
        }
    }
}

/// What [`Rat::new`] returns.
pub open spec fn new_s(num: u128, den: u128) -> Option<Rat> {
    if num >= 1 && den >= 1 {
        Some(norm_s(num as nat, den as nat))
    } else {
        None
    }
}

} // verus!
