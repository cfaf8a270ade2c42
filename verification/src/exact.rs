//! The exact value of a binary64 number, and what can be decided from it
//! without rounding: whether two numbers lie within the tolerance of each
//! other, and whether a number is an even integer.

use vstd::prelude::*;
use vstd::arithmetic::power2::*;
use vstd::arithmetic::div_mod::*;
use crate::scalar::{Scalar, EPSILON_BITS};

verus! {

/// The lowest exponent bit: 2^52.
pub const HIDDEN_BIT: u64 = 0x0010_0000_0000_0000;

/// The tolerance 1.0e-5 less half a unit in its last place, as a count of
/// steps of 2^-70: twice the significand of 1.0e-5, less one.
pub const TOLERANCE_COUNT: u64 = 11805916207174113;

/// One step of the tolerance grid, 2^-70, as a count of 2^-1074.
pub open spec fn grid() -> int {
    pow2(1004) as int
}

/// The largest difference that still rounds below 1.0e-5, as a count of 2^-1074.
pub open spec fn tolerance() -> int {
    TOLERANCE_COUNT as int * grid()
}

impl Scalar {
    /// The exponent bits as a number.
    pub open spec fn exponent_field(self) -> int {
        self.magnitude() as int / HIDDEN_BIT as int
    }

    /// The fraction bits as a number.
    pub open spec fn fraction_field(self) -> int {
        self.magnitude() as int % HIDDEN_BIT as int
    }

    /// The digits of the number: its fraction bits, under a leading one unless
    /// the exponent bits are all zero.
    pub open spec fn significand(self) -> int {
        if self.exponent_field() == 0 {
            self.fraction_field()
        } else {
            self.fraction_field() + HIDDEN_BIT as int
        }
    }

    /// The power of two that one unit of the significand stands for, counted
    /// from 2^-1074.
    pub open spec fn scale(self) -> nat {
        if self.exponent_field() <= 1 {
            0
        } else {
            (self.exponent_field() - 1) as nat
        }
    }

    /// The size of a finite number, as a count of the smallest positive
    /// number 2^-1074. Exact: every finite binary64 is a whole count.
    pub open spec fn grains(self) -> int {
        self.significand() * pow2(self.scale())
    }

    /// The finite number itself, as a signed count of 2^-1074.
    pub open spec fn steps(self) -> int {
        if self.sign_negative() {
            -self.grains()
        } else {
            self.grains()
        }
    }

    /// Both are finite and their exact difference is at most the tolerance
    /// less half a unit in its last place. That is when the difference,
    /// rounded to the nearest binary64 with ties to even, is below 1.0e-5 in
    /// size: 1.0e-5 has an odd last digit, so the halfway point below it
    /// rounds down.
    pub open spec fn within_tolerance(self, other: Scalar) -> bool {
        &&& self.finite()
        &&& other.finite()
        &&& -tolerance() <= self.steps() - other.steps() <= tolerance()
    }

    /// A finite number that is a multiple of two: `self % 2.0 == 0.0`.
    pub open spec fn even_integer(self) -> bool {
        self.finite() && self.grains() % (pow2(1075) as int) == 0
    }

    /// The significand and the scale.
    fn digits(&self) -> (r: (u64, u32))
        ensures
            r.0 == self.significand(),
            r.1 == self.scale(),
            r.0 < 0x0020_0000_0000_0000,
            r.1 <= 2046,
            self.finite() ==> r.1 <= 2045,
            r.1 > 0 ==> r.0 >= HIDDEN_BIT,
            self.exponent_field() > 0 ==> r.0 >= HIDDEN_BIT,
            self.exponent_field() == r.1 + 1 || (self.exponent_field() == 0 && r.1 == 0),
    {
        let m = self.parts().0;
        let field = m / HIDDEN_BIT;
        let fraction = m % HIDDEN_BIT;
        if field == 0 {
            (fraction, 0)
        } else {
            (fraction + HIDDEN_BIT, (field - 1) as u32)
        }
    }
}

/// 2^k.
fn power_of_two(k: u32) -> (p: u64)
    requires
        k <= 62,
    ensures
        p == pow2(k as nat),
        1 <= p <= 0x4000_0000_0000_0000,
{
    let mut p: u64 = 1;
    let mut i: u32 = 0;
    proof {
        lemma2_to64();
        lemma2_to64_rest();
    }
    while i < k
        invariant
            i <= k <= 62,
            p == pow2(i as nat),
            1 <= p <= 0x4000_0000_0000_0000,
            pow2(62) == 0x4000_0000_0000_0000,
        decreases k - i,
    {
        proof {
            lemma_pow2_unfold((i + 1) as nat);
            if i + 1 < 62 {
                lemma_pow2_strictly_increases((i + 1) as nat, 62);
            }
        }
        p = p * 2;
        i = i + 1;
    }
    p
}


/// From this scale on, neighbouring numbers lie further apart than the
/// tolerance.
const COARSE_SCALE: u32 = 1060;

/// Two counts on a grid of step `g`, each given by its grid line and what it
/// is past that line: which of them is at most `k` steps above the other.
proof fn lemma_grid_side(g: int, fa: int, ra: int, fb: int, rb: int, k: int)
    requires
        g > 0,
        0 <= ra < g,
        0 <= rb < g,
    ensures
        (fa * g + ra) - (fb * g + rb) <= k * g <==> (fa - fb < k || (fa - fb == k && ra <= rb)),
{
    let d = fa - fb - k;
    assert((fa * g + ra) - (fb * g + rb) - k * g == d * g + (ra - rb)) by (nonlinear_arith)
        requires
            d == fa - fb - k,
    ;
    if d <= -1 {
        assert(d * g <= -g) by (nonlinear_arith)
            requires
                d <= -1,
                g > 0,
        ;
    } else if d >= 1 {
        assert(d * g >= g) by (nonlinear_arith)
            requires
                d >= 1,
                g > 0,
        ;
    } else {
        assert(d * g == 0) by (nonlinear_arith)
            requires
                d == 0,
        ;
    }
}

/// A number of the higher scale exceeds one of a lower scale by half a unit
/// of its own scale at least.
proof fn lemma_scale_gap(m_hi: int, s_hi: nat, m_lo: int, s_lo: nat)
    requires
        s_hi > s_lo,
        m_hi >= 0x0010_0000_0000_0000,
        0 <= m_lo < 0x0020_0000_0000_0000,
    ensures
        m_hi * pow2(s_hi) - m_lo * pow2(s_lo) >= pow2((s_hi - 1) as nat),
{
    let h = pow2((s_hi - 1) as nat) as int;
    let lo = pow2(s_lo) as int;
    lemma_pow2_unfold(s_hi);
    lemma_pow2_pos(s_lo);
    if s_lo < s_hi - 1 {
        lemma_pow2_strictly_increases(s_lo, (s_hi - 1) as nat);
    }
    assert(m_lo * lo <= 0x001f_ffff_ffff_ffff * h) by (nonlinear_arith)
        requires
            0 <= m_lo <= 0x001f_ffff_ffff_ffff,
            0 < lo <= h,
    ;
    assert(m_hi * (2 * h) >= 0x0020_0000_0000_0000 * h) by (nonlinear_arith)
        requires
            m_hi >= 0x0010_0000_0000_0000,
            h > 0,
    ;
}

/// The tolerance is below 2^-15, the step between neighbours of scale 1059.
proof fn lemma_tolerance_bound()
    ensures
        0 < grid(),
        0 <= tolerance() < pow2(1059),
{
    lemma_pow2_pos(1004);
    lemma2_to64();
    lemma2_to64_rest();
    lemma_pow2_adds(54, 1004);
    lemma_pow2_strictly_increases(1058, 1059);
    let g = grid();
    assert(TOLERANCE_COUNT as int * g < pow2(54) * g) by (nonlinear_arith)
        requires
            TOLERANCE_COUNT < pow2(54),
            g > 0,
    ;
    assert(TOLERANCE_COUNT as int * g >= 0) by (nonlinear_arith)
        requires
            g > 0,
    ;
}

/// A finite number of coarse scale is within the tolerance of no finite
/// number but itself.
proof fn lemma_coarse_apart(a: Scalar, b: Scalar)
    requires
        a.finite(),
        b.finite(),
        a.scale() >= COARSE_SCALE,
        a.bits != b.bits,
    ensures
        !a.within_tolerance(b),
        !b.within_tolerance(a),
{
    lemma_tolerance_bound();
    let ma = a.significand();
    let mb = b.significand();
    let sa = a.scale();
    let sb = b.scale();
    let u = pow2(sa) as int;
    let v = pow2(sb) as int;
    lemma_pow2_pos(sa);
    lemma_pow2_pos(sb);
    lemma_pow2_strictly_increases(1059, sa);
    assert(a.exponent_field() == sa + 1);
    assert(ma >= 0x0010_0000_0000_0000);
    assert(0 <= mb < 0x0020_0000_0000_0000);
    assert(a.grains() >= u) by (nonlinear_arith)
        requires
            a.grains() == ma * u,
            ma >= 1,
            u > 0,
    ;
    assert(b.grains() >= 0) by (nonlinear_arith)
        requires
            b.grains() == mb * v,
            mb >= 0,
            v > 0,
    ;
    if a.sign_negative() == b.sign_negative() {
        if sa == sb {
            assert(a.magnitude() != b.magnitude());
            assert(b.exponent_field() == sb + 1);
            assert(ma != mb);
            if ma > mb {
                assert(ma * u - mb * u >= u) by (nonlinear_arith)
                    requires
                        ma - mb >= 1,
                        u > 0,
                ;
            } else {
                assert(mb * u - ma * u >= u) by (nonlinear_arith)
                    requires
                        mb - ma >= 1,
                        u > 0,
                ;
            }
        } else if sb < sa {
            lemma_scale_gap(ma, sa, mb, sb);
            if sa > 1060 {
                lemma_pow2_strictly_increases(1059, (sa - 1) as nat);
            }
        } else {
            assert(b.exponent_field() == sb + 1);
            lemma_scale_gap(mb, sb, ma, sa);
            lemma_pow2_strictly_increases(1059, (sb - 1) as nat);
        }
    }
}

impl Scalar {
    /// Where a finite number of moderate size lies on the tolerance grid: the
    /// grid line at or below it, whether it is off the line, and by how much.
    fn on_grid(&self) -> (r: (i128, bool, Ghost<int>))
        requires
            self.finite(),
            self.scale() < COARSE_SCALE,
        ensures
            self.steps() == r.0 * grid() + r.2@,
            0 <= r.2@ < grid(),
            r.1 <==> r.2@ > 0,
            -0x1_0000_0000_0000_0000_0000_0000_0000 <= r.0 <= 0x1_0000_0000_0000_0000_0000_0000_0000,
            r.1 ==> -0x0010_0000_0000_0000 <= r.0 < 0x0010_0000_0000_0000,
    {
        let (m, s) = self.digits();
        let negative = self.is_sign_negative();
        let whole: u128;
        let partial: bool;
        let ghost rest: int;
        let ghost g = grid();
        let ghost unit = pow2(s as nat) as int;
        proof {
            lemma_pow2_pos(1004);
            lemma_pow2_pos(s as nat);
            lemma2_to64();
            lemma2_to64_rest();
        }
        if s >= 1004 {
            let p = power_of_two(s - 1004);
            proof {
                if s - 1004 < 55 {
                    lemma_pow2_strictly_increases((s - 1004) as nat, 55);
                }
                lemma_pow2_adds((s - 1004) as nat, 1004);
                assert(m * p <= 0x001f_ffff_ffff_ffff * 0x0080_0000_0000_0000) by (nonlinear_arith)
                    requires
                        0 <= m <= 0x001f_ffff_ffff_ffff,
                        0 <= p <= 0x0080_0000_0000_0000,
                ;
                assert(m * unit == (m * p) * g) by (nonlinear_arith)
                    requires
                        unit == p * g,
                ;
                rest = 0;
            }
            whole = (m as u128) * (p as u128);
            partial = false;
        } else {
            let shift = 1004 - s;
            if shift >= 53 {
                proof {
                    lemma_pow2_adds(53, s as nat);
                    if 53 + s < 1004 {
                        lemma_pow2_strictly_increases((53 + s) as nat, 1004);
                    }
                    assert(m * unit < pow2(53) * unit) by (nonlinear_arith)
                        requires
                            0 <= m < pow2(53),
                            unit > 0,
                    ;
                    assert(m * unit >= 0) by (nonlinear_arith)
                        requires
                            m >= 0,
                            unit > 0,
                    ;
                    assert((m != 0) <==> m * unit > 0) by (nonlinear_arith)
                        requires
                            m >= 0,
                            unit > 0,
                    ;
                    rest = m * unit;
                }
                whole = 0;
                partial = m != 0;
            } else {
                let p = power_of_two(shift);
                let q = m / p;
                let r = m % p;
                proof {
                    lemma_pow2_adds(shift as nat, s as nat);
                    lemma_fundamental_div_mod(m as int, p as int);
                    assert(m * unit == q * g + r * unit) by (nonlinear_arith)
                        requires
                            m == p * q + r,
                            g == p * unit,
                    ;
                    assert(r * unit < p * unit) by (nonlinear_arith)
                        requires
                            0 <= r < p,
                            unit > 0,
                    ;
                    assert(r * unit >= 0) by (nonlinear_arith)
                        requires
                            r >= 0,
                            unit > 0,
                    ;
                    assert((r != 0) <==> r * unit > 0) by (nonlinear_arith)
                        requires
                            r >= 0,
                            unit > 0,
                    ;
                    assert(p >= 2) by {
                        lemma_pow2_strictly_increases(0, shift as nat);
                    }
                    assert(q <= m / 2) by (nonlinear_arith)
                        requires
                            m == p * q + r,
                            p >= 2,
                            q >= 0,
                            r >= 0,
                    ;
                    rest = r * unit;
                }
                whole = q as u128;
                partial = r != 0;
            }
        }
        assert(self.grains() == whole * g + rest);
        if negative {
            if partial {
                proof {
                    assert(-(whole * g + rest) == (-(whole as int) - 1) * g + (g - rest))
                        by (nonlinear_arith);
                }
                (-(whole as i128) - 1, true, Ghost(g - rest))
            } else {
                proof {
                    assert(-(whole * g) == (-(whole as int)) * g) by (nonlinear_arith);
                }
                (-(whole as i128), false, Ghost(0))
            }
        } else {
            (whole as i128, partial, Ghost(rest))
        }
    }

    /// Whether the difference of the two numbers, formed and rounded as the
    /// hardware does, is below the tolerance 1.0e-5 in size. False when either
    /// is an infinity or a NaN.
    pub fn near(&self, other: &Scalar) -> (r: bool)
        ensures
            r == self.within_tolerance(*other),
    {
        if !self.is_finite() || !other.is_finite() {
            return false;
        }
        let sa = self.digits().1;
        let sb = other.digits().1;
        if sa >= COARSE_SCALE || sb >= COARSE_SCALE {
            proof {
                lemma_tolerance_bound();
                if self.bits != other.bits {
                    if sa >= COARSE_SCALE {
                        lemma_coarse_apart(*self, *other);
                    } else {
                        lemma_coarse_apart(*other, *self);
                    }
                }
            }
            return self.bits == other.bits;
        }
        let (fa, pa, Ghost(ra)) = self.on_grid();
        let (fb, pb, Ghost(rb)) = other.on_grid();
        let d: i128 = fa - fb;
        let k: i128 = TOLERANCE_COUNT as i128;
        proof {
            lemma_grid_side(grid(), fa as int, ra, fb as int, rb, k as int);
            lemma_grid_side(grid(), fb as int, rb, fa as int, ra, k as int);
        }
        (d < k || (d == k && !pa)) && (-d < k || (-d == k && !pb))
    }
}

impl Scalar {
    /// Whether the number is an even integer, which is when the remainder of
    /// its division by two is zero. False for an infinity or a NaN.
    pub fn is_even(&self) -> (r: bool)
        ensures
            r == self.even_integer(),
    {
        if !self.is_finite() {
            return false;
        }
        let (m, s) = self.digits();
        let ghost w = pow2(1075) as int;
        let ghost unit = pow2(s as nat) as int;
        proof {
            lemma_pow2_pos(1075);
            lemma_pow2_pos(s as nat);
            lemma2_to64();
            lemma2_to64_rest();
        }
        if m == 0 {
            proof {
                assert(self.grains() == 0 * w + 0) by (nonlinear_arith)
                    requires
                        self.grains() == 0 * unit,
                ;
                lemma_fundamental_div_mod_converse(self.grains(), w, 0, 0);
            }
            true
        } else if s >= 1075 {
            proof {
                let lead = pow2((s - 1075) as nat) as int;
                lemma_pow2_adds((s - 1075) as nat, 1075);
                assert(m * unit == (m * lead) * w + 0) by (nonlinear_arith)
                    requires
                        unit == lead * w,
                ;
                lemma_fundamental_div_mod_converse(self.grains(), w, m * lead, 0);
            }
            true
        } else if 1075 - s >= 53 {
            proof {
                lemma_pow2_adds(53, s as nat);
                if 53 + s < 1075 {
                    lemma_pow2_strictly_increases((53 + s) as nat, 1075);
                }
                assert(0 < m * unit < pow2(53) * unit) by (nonlinear_arith)
                    requires
                        0 < m < pow2(53),
                        unit > 0,
                ;
                lemma_fundamental_div_mod_converse(self.grains(), w, 0, m * unit);
            }
            false
        } else {
            let p = power_of_two(1075 - s);
            let q = m / p;
            let r = m % p;
            proof {
                lemma_pow2_adds((1075 - s) as nat, s as nat);
                lemma_fundamental_div_mod(m as int, p as int);
                assert(m * unit == q * w + r * unit) by (nonlinear_arith)
                    requires
                        m == p * q + r,
                        w == p * unit,
                ;
                assert(0 <= r * unit < p * unit) by (nonlinear_arith)
                    requires
                        0 <= r < p,
                        unit > 0,
                ;
                assert((r != 0) <==> r * unit > 0) by (nonlinear_arith)
                    requires
                        r >= 0,
                        unit > 0,
                ;
                lemma_fundamental_div_mod_converse(self.grains(), w, q as int, r * unit);
            }
            r == 0
        }
    }
}

/// The larger of two magnitudes is the larger count of grains: the bit
/// pattern of a finite number grows with the number.
proof fn lemma_grains_grow(a: Scalar, b: Scalar)
    requires
        a.magnitude() < b.magnitude(),
    ensures
        0 <= a.grains() < b.grains(),
{
    let h = HIDDEN_BIT as int;
    let ma = a.magnitude() as int;
    let mb = b.magnitude() as int;
    let fa = a.exponent_field();
    let fb = b.exponent_field();
    let pa = pow2(a.scale()) as int;
    let pb = pow2(b.scale()) as int;
    lemma_pow2_pos(a.scale());
    lemma_pow2_pos(b.scale());
    lemma_fundamental_div_mod(ma, h);
    lemma_fundamental_div_mod(mb, h);
    assert(a.significand() * pa >= 0) by (nonlinear_arith)
        requires
            a.significand() >= 0,
            pa > 0,
    ;
    if fa == fb {
        assert(a.significand() < b.significand());
        assert(a.significand() * pa < b.significand() * pa) by (nonlinear_arith)
            requires
                a.significand() < b.significand(),
                pa > 0,
        ;
    } else {
        assert(fa < fb) by {
            if fa > fb {
                assert(h * fa >= h * fb + h) by (nonlinear_arith)
                    requires
                        fa >= fb + 1,
                        h > 0,
                ;
            }
        }
        assert(b.significand() * pb >= h * pb) by (nonlinear_arith)
            requires
                b.significand() >= h,
                pb > 0,
        ;
        if fa == 0 {
            assert(a.grains() == a.significand()) by {
                lemma2_to64();
            }
            assert(h * pb >= h) by (nonlinear_arith)
                requires
                    pb >= 1,
                    h > 0,
            ;
        } else {
            lemma_pow2_unfold((a.scale() + 1) as nat);
            if a.scale() + 1 < b.scale() {
                lemma_pow2_strictly_increases((a.scale() + 1) as nat, b.scale());
            }
            assert(a.significand() * pa < (2 * h) * pa) by (nonlinear_arith)
                requires
                    a.significand() < 2 * h,
                    pa > 0,
            ;
            assert((2 * h) * pa <= h * pb) by (nonlinear_arith)
                requires
                    2 * pa <= pb,
                    h > 0,
            ;
        }
    }
}

/// The order of finite numbers is the order of their exact values, and
/// two finite numbers are equal exactly where their values are.
pub proof fn lemma_order_is_by_value(a: Scalar, b: Scalar)
    requires
        a.finite(),
        b.finite(),
    ensures
        a.less_than(b) <==> a.steps() < b.steps(),
        a.equals(b) <==> a.steps() == b.steps(),
        a.at_most(b) <==> a.steps() <= b.steps(),
{
    if a.magnitude() < b.magnitude() {
        lemma_grains_grow(a, b);
    } else if b.magnitude() < a.magnitude() {
        lemma_grains_grow(b, a);
    }
    lemma_grains_of_zero(a);
    lemma_grains_of_zero(b);
}

/// Zero has no grains, and every other number has some.
proof fn lemma_grains_of_zero(a: Scalar)
    ensures
        a.grains() >= 0,
        a.magnitude() == 0 <==> a.grains() == 0,
{
    let zero = Scalar { bits: 0 };
    assert(zero.grains() == 0) by {
        lemma2_to64();
        assert(zero.exponent_field() == 0);
        assert(zero.significand() == 0);
        assert(0 * pow2(zero.scale()) == 0) by (nonlinear_arith);
    }
    if a.magnitude() > 0 {
        lemma_grains_grow(zero, a);
    } else {
        assert(a.exponent_field() == 0);
        assert(a.significand() == 0);
        assert(0 * pow2(a.scale()) == 0) by (nonlinear_arith);
    }
}

/// Being within the tolerance goes both ways, and holds of every finite
/// number and itself, and of every finite number and its equal.
pub proof fn lemma_tolerance(a: Scalar, b: Scalar)
    ensures
        a.within_tolerance(b) == b.within_tolerance(a),
        a.finite() ==> a.within_tolerance(a),
        a.equals(b) && a.finite() ==> a.within_tolerance(b),
{
    lemma_tolerance_bound();
    if a.equals(b) && a.finite() {
        lemma_order_is_by_value(a, b);
    }
}

/// How far the finite number `x` lies from the exact count `d`.
pub open spec fn distance(x: Scalar, d: int) -> int {
    if x.steps() >= d {
        x.steps() - d
    } else {
        d - x.steps()
    }
}

/// `r` is what the exact count `d` rounds to: no finite number lies
/// nearer to `d`, and where another one lies as near, `r` is the one whose
/// last digit is even.
pub open spec fn rounds_to(d: int, r: Scalar) -> bool {
    &&& r.finite()
    &&& forall|x: Scalar| x.finite() ==> distance(r, d) <= #[trigger] distance(x, d)
    &&& forall|x: Scalar|
        x.finite() && x.steps() != r.steps() && #[trigger] distance(x, d) == distance(r, d)
            ==> r.significand() % 2 == 0
}

/// The tolerance and its neighbour below, by their exact values: the
/// tolerance lies half a step of the grid above the bound, its neighbour
/// half a step below, and the last digit of the tolerance is odd.
proof fn lemma_tolerance_neighbours()
    ensures
        (Scalar { bits: EPSILON_BITS }).finite(),
        (Scalar { bits: (EPSILON_BITS - 1) as u64 }).finite(),
        (Scalar { bits: EPSILON_BITS }).steps() == tolerance() + pow2(1004),
        (Scalar { bits: (EPSILON_BITS - 1) as u64 }).steps() == tolerance() - pow2(1004),
        (Scalar { bits: EPSILON_BITS }).significand() % 2 == 1,
        pow2(1004) > 0,
{
    let e = Scalar { bits: EPSILON_BITS };
    let p = Scalar { bits: (EPSILON_BITS - 1) as u64 };
    let g = pow2(1004) as int;
    lemma_pow2_pos(1004);
    lemma_pow2_unfold(1005);
    assert(e.exponent_field() == 1006 && p.exponent_field() == 1006);
    assert(e.significand() == 0x0014_F8B5_88E3_68F1);
    assert(p.significand() == 0x0014_F8B5_88E3_68F0);
    assert(e.scale() == 1005 && p.scale() == 1005);
    assert(0x0014_F8B5_88E3_68F1 * (2 * g) == 11805916207174113 * g + g) by (nonlinear_arith);
    assert(0x0014_F8B5_88E3_68F0 * (2 * g) == 11805916207174113 * g - g) by (nonlinear_arith);
}

/// The rounding law of the tolerance. Where `r` is what the exact
/// difference of two finite numbers rounds to, the two are within the
/// tolerance exactly where `r` is below 1.0e-5 in size: to compare the
/// exact difference with the bound is to compare the rounded difference
/// with the tolerance.
pub proof fn lemma_rounded_difference(a: Scalar, b: Scalar, r: Scalar)
    requires
        a.finite(),
        b.finite(),
        rounds_to(a.steps() - b.steps(), r),
    ensures
        a.within_tolerance(b) <==> (Scalar { bits: r.magnitude() }).less_than(
            Scalar::epsilon_value(),
        ),
{
    let d = a.steps() - b.steps();
    let e = Scalar { bits: EPSILON_BITS };
    let p = Scalar { bits: (EPSILON_BITS - 1) as u64 };
    let size = Scalar { bits: r.magnitude() };
    let g = pow2(1004) as int;
    lemma_tolerance_neighbours();
    lemma_tolerance_bound();
    lemma_grains_of_zero(r);
    assert(size.magnitude() == r.magnitude());
    assert(size.grains() == r.grains());
    lemma_order_is_by_value(size, e);
    lemma_order_is_by_value(size, p);
    // the size of `r` is below the tolerance exactly where it is at most its neighbour
    assert(size.less_than(e) <==> size.at_most(p));
    let en = e.negated();
    let pn = p.negated();
    assert(en.finite() && pn.finite());
    assert(en.grains() == e.grains() && pn.grains() == p.grains());
    assert(distance(r, d) <= distance(e, d));
    assert(distance(r, d) <= distance(p, d));
    assert(distance(r, d) <= distance(en, d));
    assert(distance(r, d) <= distance(pn, d));
    if d == tolerance() {
        assert(distance(e, d) == distance(p, d));
        if r.steps() == e.steps() {
            assert(r.equals(e)) by {
                lemma_order_is_by_value(r, e);
            }
            assert(r.magnitude() == e.magnitude());
            assert(r.significand() == e.significand());
            assert(p.steps() != r.steps());
        }
    }
    if d == -tolerance() {
        assert(distance(en, d) == distance(pn, d));
        if r.steps() == en.steps() {
            assert(r.equals(en)) by {
                lemma_order_is_by_value(r, en);
            }
            assert(r.magnitude() == en.magnitude());
            assert(r.significand() == e.significand());
            assert(pn.steps() != r.steps());
        }
    }
}

/// The sign law of the difference. Where `r` is what the exact difference
/// of two finite numbers rounds to, `r` is below zero exactly where the
/// first number is below the second: a difference that is not zero never
/// rounds to zero.
pub proof fn lemma_rounded_sign(a: Scalar, b: Scalar, r: Scalar)
    requires
        a.finite(),
        b.finite(),
        rounds_to(a.steps() - b.steps(), r),
    ensures
        r.less_than(Scalar::zero_value()) <==> a.less_than(b),
        r.equals(Scalar::zero_value()) <==> a.equals(b),
{
    let d = a.steps() - b.steps();
    let zero = Scalar { bits: 0 };
    let least = Scalar { bits: 1 };
    let below = Scalar { bits: 0x8000_0000_0000_0001 };
    lemma_order_is_by_value(a, b);
    lemma_order_is_by_value(r, zero);
    lemma_grains_of_zero(zero);
    assert(least.steps() == 1 && below.steps() == -1) by {
        lemma2_to64();
        assert(least.exponent_field() == 0 && below.exponent_field() == 0);
        assert(least.significand() == 1 && below.significand() == 1);
        assert(1 * pow2(0) == 1) by (nonlinear_arith)
            requires
                pow2(0) == 1,
        ;
    }
    assert(distance(r, d) <= distance(zero, d));
    assert(distance(r, d) <= distance(least, d));
    assert(distance(r, d) <= distance(below, d));
}

} // verus!
