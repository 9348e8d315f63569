//! Exact rational numbers over `i64` numerator and positive `i64` denominator.
//!
//! Every arithmetic operation is exact: it either returns the mathematical
//! result (unreduced) or reports, by returning `None`, that the result's
//! components do not fit in `i64`. Contracts are stated over `(int, int)`
//! pairs, the mathematical view of a rational as numerator and denominator.

use vstd::prelude::*;

verus! {

/// A rational number `num / den`. Well-formed values keep `den` positive;
/// the numerator carries the sign.
#[derive(Clone, Copy, PartialEq, Eq, Structural, Debug)]
pub struct Rat {
    pub num: i64,
    pub den: i64,
}

impl View for Rat {
    type V = (int, int);

    open spec fn view(&self) -> (int, int) {
        (self.num as int, self.den as int)
    }
}

impl Rat {
    /// Well-formedness: the denominator is positive.
    pub open spec fn wf(self) -> bool {
        self.den > 0
    }
}

/// Whether a mathematical rational fits the executable representation:
/// numerator in `i64` range, denominator in `1 ..= i64::MAX`.
pub open spec fn bounded(v: (int, int)) -> bool {
    &&& i64::MIN <= v.0 <= i64::MAX
    &&& 1 <= v.1 <= i64::MAX
}

/// Sign normalization: move the denominator's sign to the numerator.
pub open spec fn qmk(n: int, d: int) -> (int, int) {
    if d < 0 {
        (-n, -d)
    } else {
        (n, d)
    }
}

/// Exact sum of two rationals, unreduced.
pub open spec fn qadd(a: (int, int), b: (int, int)) -> (int, int) {
    (a.0 * b.1 + b.0 * a.1, a.1 * b.1)
}

/// Exact difference of two rationals, unreduced.
pub open spec fn qsub(a: (int, int), b: (int, int)) -> (int, int) {
    (a.0 * b.1 - b.0 * a.1, a.1 * b.1)
}

/// Exact product of two rationals, unreduced.
pub open spec fn qmul(a: (int, int), b: (int, int)) -> (int, int) {
    (a.0 * b.0, a.1 * b.1)
}

/// Exact quotient of two rationals, unreduced, sign-normalized.
pub open spec fn qdiv(a: (int, int), b: (int, int)) -> (int, int) {
    qmk(a.0 * b.1, a.1 * b.0)
}

/// Exact negation.
pub open spec fn qneg(v: (int, int)) -> (int, int) {
    (-v.0, v.1)
}

/// Exact absolute value.
pub open spec fn qabs(v: (int, int)) -> (int, int) {
    if v.0 < 0 {
        (-v.0, v.1)
    } else {
        v
    }
}

/// The integer `i` as a rational.
pub open spec fn qint(i: int) -> (int, int) {
    (i, 1)
}

/// Value equality of two rationals (cross multiplication); sound for any
/// nonzero denominators.
pub open spec fn qeq(a: (int, int), b: (int, int)) -> bool {
    a.0 * b.1 == b.0 * a.1
}

/// Strict order on rationals with positive denominators.
pub open spec fn qlt(a: (int, int), b: (int, int)) -> bool {
    a.0 * b.1 < b.0 * a.1
}

/// Non-strict order on rationals with positive denominators.
pub open spec fn qle(a: (int, int), b: (int, int)) -> bool {
    a.0 * b.1 <= b.0 * a.1
}

/// Exact sum of a sequence of rationals, unreduced, starting from zero.
pub open spec fn qsum_rats(s: Seq<Rat>) -> (int, int)
    decreases s.len(),
{
    if s.len() == 0 {
        (0int, 1int)
    } else {
        qadd(qsum_rats(s.drop_last()), s.last()@)
    }
}

/// Whether every partial sum of `qsum_rats` stays representable.
pub open spec fn qsum_rats_ok(s: Seq<Rat>) -> bool
    decreases s.len(),
{
    if s.len() == 0 {
        true
    } else {
        qsum_rats_ok(s.drop_last()) && bounded(qadd(qsum_rats(s.drop_last()), s.last()@))
    }
}

/// The threshold `1/10^15` under which a magnitude is treated as negligible
/// by the pipeline's degeneracy guards.
pub open spec fn qeps() -> (int, int) {
    (1int, 1000000000000000int)
}

/// The negligibility threshold as an executable value.
pub fn eps() -> (r: Rat)
    ensures
        r.wf(),
        r@ == qeps(),
{
    Rat { num: 1, den: 1000000000000000 }
}

/// If every partial sum of a sequence is representable, so is every partial
/// sum of any prefix.
pub proof fn lemma_qsum_rats_ok_prefix(s: Seq<Rat>, i: int)
    requires
        qsum_rats_ok(s),
        0 <= i <= s.len(),
    ensures
        qsum_rats_ok(s.take(i)),
    decreases s.len(),
{
    if i == s.len() {
        assert(s.take(i) =~= s);
    } else {
        assert(s.take(i) =~= s.drop_last().take(i));
        lemma_qsum_rats_ok_prefix(s.drop_last(), i);
    }
}

/// Value equality of rationals is transitive across a middle value whose
/// denominator is nonzero.
pub proof fn lemma_qeq_trans(a: (int, int), b: (int, int), c: (int, int))
    by (nonlinear_arith)
    requires
        qeq(a, b),
        qeq(b, c),
        b.1 != 0,
    ensures
        qeq(a, c),
{
    assert((a.0 * c.1) * b.1 == (c.0 * a.1) * b.1);
}

/// A non-strict bound followed by a strict bound is strict.
pub proof fn lemma_qle_qlt_trans(a: (int, int), b: (int, int), c: (int, int))
    by (nonlinear_arith)
    requires
        qle(a, b),
        qlt(b, c),
        a.1 >= 1,
        b.1 >= 1,
        c.1 >= 1,
    ensures
        qlt(a, c),
{
    assert((a.0 * b.1) * c.1 <= (b.0 * a.1) * c.1);
    assert((b.0 * c.1) * a.1 < (c.0 * b.1) * a.1);
}

/// A product of two values in `i64` range stays within `i128` range.
pub proof fn lemma_i64_mul_fits(x: int, y: int)
    by (nonlinear_arith)
    requires
        i64::MIN <= x <= i64::MAX,
        i64::MIN <= y <= i64::MAX,
    ensures
        -(0x8000000000000000 * 0x8000000000000000) <= x * y <= 0x8000000000000000
            * 0x8000000000000000,
{
}

/// A product of an `i64` value and a positive `i64` value is small enough
/// that two such products can still be added within `i128` range.
pub proof fn lemma_i64_mul_den_fits(x: int, y: int)
    by (nonlinear_arith)
    requires
        i64::MIN <= x <= i64::MAX,
        1 <= y <= i64::MAX,
    ensures
        -(0x8000000000000000 * 0x7FFFFFFFFFFFFFFF) <= x * y <= 0x8000000000000000
            * 0x7FFFFFFFFFFFFFFF,
{
}

/// A product of two positive denominators is a positive denominator.
pub proof fn lemma_den_mul_pos(x: int, y: int)
    by (nonlinear_arith)
    requires
        1 <= x,
        1 <= y,
    ensures
        1 <= x * y,
{
}

impl Rat {
    /// Narrow an exact `i128` numerator/denominator pair back to `i64`.
    fn narrow(n: i128, d: i128) -> (r: Option<Rat>)
        requires
            1 <= d,
        ensures
            r is Some <==> bounded((n as int, d as int)),
            r matches Some(c) ==> c.wf() && c@ == (n as int, d as int),
    {
        if i64::MIN as i128 <= n && n <= i64::MAX as i128 && d <= i64::MAX as i128 {
            Some(Rat { num: n as i64, den: d as i64 })
        } else {
            None
        }
    }

    /// Build a rational from a numerator and a nonzero denominator,
    /// normalizing the sign onto the numerator.
    pub fn new(num: i64, den: i64) -> (r: Option<Rat>)
        ensures
            r is Some <==> den != 0 && bounded(qmk(num as int, den as int)),
            r matches Some(c) ==> c.wf() && c@ == qmk(num as int, den as int),
    {
        if den == 0 {
            return None;
        }
        let mut n: i128 = num as i128;
        let mut d: i128 = den as i128;
        if d < 0 {
            n = -n;
            d = -d;
        }
        Self::narrow(n, d)
    }

    /// The integer `v` as a rational.
    pub fn from_int(v: i64) -> (r: Rat)
        ensures
            r.wf(),
            r@ == qint(v as int),
    {
        Rat { num: v, den: 1 }
    }

    /// Exact addition; `None` exactly when the unreduced result leaves `i64`.
    pub fn checked_add(self, other: Rat) -> (r: Option<Rat>)
        requires
            self.wf(),
            other.wf(),
        ensures
            r is Some <==> bounded(qadd(self@, other@)),
            r matches Some(c) ==> c.wf() && c@ == qadd(self@, other@),
    {
        proof {
            lemma_i64_mul_den_fits(self.num as int, other.den as int);
            lemma_i64_mul_den_fits(other.num as int, self.den as int);
            lemma_i64_mul_den_fits(self.den as int, other.den as int);
            lemma_den_mul_pos(self.den as int, other.den as int);
        }
        let n: i128 = (self.num as i128) * (other.den as i128) + (other.num as i128) * (self.den
            as i128);
        let d: i128 = (self.den as i128) * (other.den as i128);
        Self::narrow(n, d)
    }

    /// Exact subtraction; `None` exactly when the unreduced result leaves `i64`.
    pub fn checked_sub(self, other: Rat) -> (r: Option<Rat>)
        requires
            self.wf(),
            other.wf(),
        ensures
            r is Some <==> bounded(qsub(self@, other@)),
            r matches Some(c) ==> c.wf() && c@ == qsub(self@, other@),
    {
        proof {
            lemma_i64_mul_den_fits(self.num as int, other.den as int);
            lemma_i64_mul_den_fits(other.num as int, self.den as int);
            lemma_i64_mul_den_fits(self.den as int, other.den as int);
            lemma_den_mul_pos(self.den as int, other.den as int);
        }
        let n: i128 = (self.num as i128) * (other.den as i128) - (other.num as i128) * (self.den
            as i128);
        let d: i128 = (self.den as i128) * (other.den as i128);
        Self::narrow(n, d)
    }

    /// Exact multiplication; `None` exactly when the unreduced result leaves `i64`.
    pub fn checked_mul(self, other: Rat) -> (r: Option<Rat>)
        requires
            self.wf(),
            other.wf(),
        ensures
            r is Some <==> bounded(qmul(self@, other@)),
            r matches Some(c) ==> c.wf() && c@ == qmul(self@, other@),
    {
        proof {
            lemma_i64_mul_fits(self.num as int, other.num as int);
            lemma_i64_mul_den_fits(self.den as int, other.den as int);
            lemma_den_mul_pos(self.den as int, other.den as int);
        }
        let n: i128 = (self.num as i128) * (other.num as i128);
        let d: i128 = (self.den as i128) * (other.den as i128);
        Self::narrow(n, d)
    }

    /// Exact division; `None` exactly when the divisor is zero or the
    /// unreduced result leaves `i64`.
    pub fn checked_div(self, other: Rat) -> (r: Option<Rat>)
        requires
            self.wf(),
            other.wf(),
        ensures
            r is Some <==> bounded(qdiv(self@, other@)),
            r matches Some(c) ==> c.wf() && c@ == qdiv(self@, other@),
    {
        proof {
            lemma_i64_mul_den_fits(self.num as int, other.den as int);
            lemma_i64_mul_fits(self.den as int, other.num as int);
        }
        if other.num == 0 {
            proof {
                lemma_den_mul_pos(self.den as int, 1);
            }
            assert(qdiv(self@, other@).1 == self@.1 * 0);
            assert(self@.1 * 0 == 0) by (nonlinear_arith);
            return None;
        }
        let mut n: i128 = (self.num as i128) * (other.den as i128);
        let mut d: i128 = (self.den as i128) * (other.num as i128);
        if d < 0 {
            n = -n;
            d = -d;
        }
        assert(d != 0) by {
            assert(self@.1 * other@.0 != 0) by (nonlinear_arith)
                requires
                    self@.1 > 0,
                    other@.0 != 0,
            ;
        }
        Self::narrow(n, d)
    }

    /// Exact negation; `None` exactly for the one unrepresentable numerator.
    pub fn checked_neg(self) -> (r: Option<Rat>)
        requires
            self.wf(),
        ensures
            r is Some <==> bounded(qneg(self@)),
            r matches Some(c) ==> c.wf() && c@ == qneg(self@),
    {
        if self.num == i64::MIN {
            None
        } else {
            Some(Rat { num: -self.num, den: self.den })
        }
    }

    /// Exact absolute value; `None` exactly for the one unrepresentable numerator.
    pub fn checked_abs(self) -> (r: Option<Rat>)
        requires
            self.wf(),
        ensures
            r is Some <==> bounded(qabs(self@)),
            r matches Some(c) ==> c.wf() && c@ == qabs(self@),
    {
        if self.num >= 0 {
            Some(self)
        } else {
            self.checked_neg()
        }
    }

    /// Exact strict comparison.
    pub fn lt(self, other: Rat) -> (r: bool)
        requires
            self.wf(),
            other.wf(),
        ensures
            r == qlt(self@, other@),
    {
        proof {
            lemma_i64_mul_den_fits(self.num as int, other.den as int);
            lemma_i64_mul_den_fits(other.num as int, self.den as int);
        }
        (self.num as i128) * (other.den as i128) < (other.num as i128) * (self.den as i128)
    }

    /// Exact non-strict comparison.
    pub fn le(self, other: Rat) -> (r: bool)
        requires
            self.wf(),
            other.wf(),
        ensures
            r == qle(self@, other@),
    {
        proof {
            lemma_i64_mul_den_fits(self.num as int, other.den as int);
            lemma_i64_mul_den_fits(other.num as int, self.den as int);
        }
        (self.num as i128) * (other.den as i128) <= (other.num as i128) * (self.den as i128)
    }

    /// Exact value equality (two representations of the same rational are equal).
    pub fn eqv(self, other: Rat) -> (r: bool)
        requires
            self.wf(),
            other.wf(),
        ensures
            r == qeq(self@, other@),
    {
        proof {
            lemma_i64_mul_den_fits(self.num as int, other.den as int);
            lemma_i64_mul_den_fits(other.num as int, self.den as int);
        }
        (self.num as i128) * (other.den as i128) == (other.num as i128) * (self.den as i128)
    }

    /// Whether `|self| < bound`, computed without materializing the absolute
    /// value (so it also answers for the one numerator `checked_abs` refuses).
    pub fn abs_lt(self, bound: Rat) -> (r: bool)
        requires
            self.wf(),
            bound.wf(),
        ensures
            r == qlt(qabs(self@), bound@),
    {
        proof {
            lemma_i64_mul_den_fits(self.num as int, bound.den as int);
            lemma_i64_mul_den_fits(bound.num as int, self.den as int);
        }
        let a: i128 = if self.num < 0 {
            -(self.num as i128)
        } else {
            self.num as i128
        };
        assert(a * (bound.den as i128) <= 0x8000000000000000 * 0x7FFFFFFFFFFFFFFF)
            by (nonlinear_arith)
            requires
                0 <= a <= 0x8000000000000000,
                1 <= bound.den as i128 <= 0x7FFFFFFFFFFFFFFF,
        ;
        assert(0 <= a * (bound.den as i128)) by (nonlinear_arith)
            requires
                0 <= a,
                1 <= bound.den as i128,
        ;
        a * (bound.den as i128) < (bound.num as i128) * (self.den as i128)
    }
}

} // verus!
