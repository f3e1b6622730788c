use vstd::prelude::*;

verus! {

/// An exact rational number `num / den` with a positive denominator.
#[derive(Debug, Clone, Copy, PartialEq, Eq, Structural)]
pub struct Ratio {
    pub num: i128,
    pub den: u64,
}

impl Ratio {
    pub open spec fn wf(self) -> bool {
        self.den > 0
    }

    /// `self <= other` as rational numbers.
    pub open spec fn le_spec(self, other: Ratio) -> bool {
        self.num * other.den <= other.num * self.den
    }

    /// `self < other` as rational numbers.
    pub open spec fn lt_spec(self, other: Ratio) -> bool {
        self.num * other.den < other.num * self.den
    }

    /// The rational number zero.
    pub fn zero() -> (r: Ratio)
        ensures
            r.wf(),
            r.num == 0,
            r.den == 1,
    {
        Ratio { num: 0, den: 1 }
    }

    /// Whether `self <= other`, decided exactly and without overflow.
    pub fn le(&self, other: &Ratio) -> (r: bool)
        requires
            self.wf(),
            other.wf(),
        ensures
            r == self.le_spec(*other),
    {
        let d1 = self.den as i128;
        let d2 = other.den as i128;
        proof {
            lemma_split(self.num as int, d1 as int);
            lemma_split(other.num as int, d2 as int);
        }
        let q1 = self.num.checked_div_euclid(d1).unwrap();
        let q2 = other.num.checked_div_euclid(d2).unwrap();
        let r1 = self.num.checked_rem_euclid(d1).unwrap();
        let r2 = other.num.checked_rem_euclid(d2).unwrap();
        proof {
            lemma_cmp_by_parts(
                self.num as int, d1 as int, q1 as int, r1 as int,
                other.num as int, d2 as int, q2 as int, r2 as int,
            );
            lemma_product_fits(r1 as int, other.den as int, self.den as int);
            lemma_product_fits(r2 as int, self.den as int, other.den as int);
        }
        if q1 != q2 {
            q1 < q2
        } else {
            let a = (r1 as u128) * (other.den as u128);
            let b = (r2 as u128) * (self.den as u128);
            a <= b
        }
    }

    /// Whether `self < other`, decided exactly and without overflow.
    pub fn lt(&self, other: &Ratio) -> (r: bool)
        requires
            self.wf(),
            other.wf(),
        ensures
            r == self.lt_spec(*other),
    {
        !other.le(self)
    }
}

proof fn lemma_split(p: int, d: int)
    requires
        d > 0,
    ensures
        p == d * (p / d) + p % d,
        0 <= p % d < d,
        i128::MIN <= p / d <= i128::MAX || !(i128::MIN <= p <= i128::MAX),
{
    vstd::arithmetic::div_mod::lemma_fundamental_div_mod(p, d);
    let q = p / d;
    let m = p % d;
    if p >= 0 {
        assert(0 <= q <= p) by (nonlinear_arith)
            requires
                d * q == p - m,
                0 <= m < d,
                p >= 0,
        ;
    } else {
        assert(p <= q < 0) by (nonlinear_arith)
            requires
                d * q == p - m,
                0 <= m < d,
                p < 0,
        ;
    }
}

proof fn lemma_product_fits(r: int, d: int, bound: int)
    requires
        0 <= r < bound,
        bound <= u64::MAX,
        0 < d <= u64::MAX,
    ensures
        0 <= r * d <= u128::MAX,
{
    assert(0 <= r * d <= u64::MAX * u64::MAX) by (nonlinear_arith)
        requires
            0 <= r <= u64::MAX,
            0 < d <= u64::MAX,
    ;
}

/// Comparing `p1 / d1` with `p2 / d2` by whole parts first, then by remainders.
proof fn lemma_cmp_by_parts(p1: int, d1: int, q1: int, r1: int, p2: int, d2: int, q2: int, r2: int)
    requires
        d1 > 0,
        d2 > 0,
        p1 == d1 * q1 + r1,
        p2 == d2 * q2 + r2,
        0 <= r1 < d1,
        0 <= r2 < d2,
    ensures
        q1 < q2 ==> p1 * d2 < p2 * d1,
        q1 > q2 ==> p1 * d2 > p2 * d1,
        q1 == q2 ==> (p1 * d2 <= p2 * d1 <==> r1 * d2 <= r2 * d1),
        0 <= r1 * d2 < d1 * d2,
        0 <= r2 * d1 < d1 * d2,
{
    assert(p1 * d2 - p2 * d1 == (q1 - q2) * (d1 * d2) + r1 * d2 - r2 * d1) by (nonlinear_arith)
        requires
            p1 == d1 * q1 + r1,
            p2 == d2 * q2 + r2,
    ;
    assert(0 <= r1 * d2 < d1 * d2) by (nonlinear_arith)
        requires
            0 <= r1 < d1,
            d2 > 0,
    ;
    assert(0 <= r2 * d1 < d1 * d2) by (nonlinear_arith)
        requires
            0 <= r2 < d2,
            d1 > 0,
    ;
    if q1 < q2 {
        assert((q1 - q2) * (d1 * d2) <= -(d1 * d2)) by (nonlinear_arith)
            requires
                q1 < q2,
                d1 * d2 > 0,
        ;
    }
    if q1 == q2 {
        assert(p1 * d2 - p2 * d1 == r1 * d2 - r2 * d1) by (nonlinear_arith)
            requires
                p1 == d1 * q1 + r1,
                p2 == d2 * q2 + r2,
                q1 == q2,
        ;
    }
    if q1 > q2 {
        assert((q1 - q2) * (d1 * d2) >= d1 * d2) by (nonlinear_arith)
            requires
                q1 > q2,
                d1 * d2 > 0,
        ;
    }
}

} // verus!
