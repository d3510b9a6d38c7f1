use vstd::prelude::*;
use vstd::arithmetic::div_mod::{
    lemma_fundamental_div_mod, lemma_mod_adds, lemma_mod_division_less_than_divisor,
    lemma_mod_multiples_basic, lemma_mod_self_0, lemma_small_mod,
};

verus! {

/// Greatest common divisor of two positive integers, defined by the
/// classical subtraction recurrence.
pub open spec fn spec_gcd(a: int, b: int) -> int
    recommends
        a >= 1,
        b >= 1,
    decreases a + b,
        when a >= 1 && b >= 1
{
    if a == b {
        a
    } else if a > b {
        spec_gcd(a - b, b)
    } else {
        spec_gcd(a, b - a)
    }
}

/// Least common multiple of two positive integers.
pub open spec fn spec_lcm(a: int, b: int) -> int
    recommends
        a >= 1,
        b >= 1,
{
    a * b / spec_gcd(a, b)
}

pub proof fn lemma_gcd_pos(a: int, b: int)
    requires
        a >= 1,
        b >= 1,
    ensures
        1 <= spec_gcd(a, b),
        spec_gcd(a, b) <= a,
        spec_gcd(a, b) <= b,
    decreases a + b,
{
    if a == b {
    } else if a > b {
        lemma_gcd_pos(a - b, b);
    } else {
        lemma_gcd_pos(a, b - a);
    }
}

pub proof fn lemma_gcd_sym(a: int, b: int)
    requires
        a >= 1,
        b >= 1,
    ensures
        spec_gcd(a, b) == spec_gcd(b, a),
    decreases a + b,
{
    if a == b {
    } else if a > b {
        lemma_gcd_sym(a - b, b);
    } else {
        lemma_gcd_sym(a, b - a);
    }
}

pub proof fn lemma_gcd_divides(a: int, b: int)
    requires
        a >= 1,
        b >= 1,
    ensures
        a % spec_gcd(a, b) == 0,
        b % spec_gcd(a, b) == 0,
    decreases a + b,
{
    let g = spec_gcd(a, b);
    lemma_gcd_pos(a, b);
    if a == b {
        lemma_mod_self_0(a);
    } else if a > b {
        lemma_gcd_divides(a - b, b);
        lemma_mod_adds(a - b, b, g);
        assert((a - b) % g + b % g == 0);
        assert((a - b) + b == a);
    } else {
        lemma_gcd_divides(a, b - a);
        lemma_mod_adds(b - a, a, g);
    }
}

/// When b divides a, the gcd is b itself.
pub proof fn lemma_gcd_multiple(a: int, b: int)
    requires
        a >= 1,
        b >= 1,
        a % b == 0,
    ensures
        spec_gcd(a, b) == b,
    decreases a,
{
    if a == b {
    } else if a > b {
        lemma_mod_adds(a - b, b, b);
        lemma_mod_self_0(b);
        lemma_mod_division_less_than_divisor(a - b, b);
        assert((a - b) % b == 0);
        assert(a - b >= 1) by {
            if a - b < 1 {
                lemma_small_mod((a - b) as nat, b as nat);
            }
        }
        lemma_gcd_multiple(a - b, b);
    } else {
        // 1 <= a < b together with b | a is impossible
        lemma_small_mod(a as nat, b as nat);
    }
}

/// Replacing the larger argument by its remainder keeps the gcd.
pub proof fn lemma_gcd_mod(a: int, b: int)
    requires
        a >= 1,
        b >= 1,
        a % b != 0,
    ensures
        spec_gcd(a, b) == spec_gcd(a % b, b),
    decreases a + b,
{
    if a == b {
        lemma_mod_self_0(b);
    } else if a > b {
        lemma_mod_adds(a - b, b, b);
        lemma_mod_self_0(b);
        lemma_mod_division_less_than_divisor(b, b);
        assert((a - b) % b == a % b) by {
            lemma_fundamental_div_mod(a, b);
            lemma_fundamental_div_mod(a - b, b);
            lemma_mod_sub_vanish(a, b);
        }
        assert(a - b >= 1) by {
            if a - b < 1 {
                lemma_small_mod((a - b) as nat, b as nat);
            }
        }
        lemma_gcd_mod(a - b, b);
    } else {
        // a < b, so a % b == a
        lemma_small_mod(a as nat, b as nat);
    }
}

proof fn lemma_mod_sub_vanish(a: int, b: int)
    requires
        b >= 1,
    ensures
        (a - b) % b == a % b,
{
    vstd::arithmetic::div_mod::lemma_mod_sub_multiples_vanish(a, b);
}

/// The gcd of two positive machine integers, by Euclid's remainder method.
pub fn gcd(a: i64, b: i64) -> (r: i64)
    requires
        1 <= a,
        1 <= b,
    ensures
        r == spec_gcd(a as int, b as int),
        1 <= r,
        r <= a,
        r <= b,
{
    let mut x = a;
    let mut y = b;
    loop
        invariant
            1 <= a,
            1 <= b,
            1 <= x,
            1 <= y,
            spec_gcd(x as int, y as int) == spec_gcd(a as int, b as int),
        decreases y,
    {
        let rem = x % y;
        proof {
            lemma_gcd_pos(a as int, b as int);
            lemma_gcd_pos(x as int, y as int);
            if rem == 0 {
                lemma_gcd_multiple(x as int, y as int);
            } else {
                lemma_gcd_mod(x as int, y as int);
                lemma_gcd_sym((x % y) as int, y as int);
            }
            lemma_mod_division_less_than_divisor(x as int, y as int);
        }
        if rem == 0 {
            proof {
                lemma_gcd_pos(a as int, b as int);
            }
            return y;
        }
        x = y;
        y = rem;
    }
}

/// The least common multiple of two positive machine integers.
pub fn lcm(a: i64, b: i64) -> (r: i64)
    requires
        1 <= a,
        1 <= b,
        a * b <= i64::MAX,
    ensures
        r == spec_lcm(a as int, b as int),
        1 <= r,
        a <= r,
        b <= r,
        r % a == 0,
        r % b == 0,
{
    if a == 1 {
        proof {
            lemma_lcm_basics(a as int, b as int);
        }
        return b;
    }
    if b == 1 {
        proof {
            lemma_lcm_basics(a as int, b as int);
        }
        return a;
    }
    let g = gcd(a, b);
    proof {
        lemma_gcd_divides(a as int, b as int);
        lemma_lcm_parts(a as int, b as int);
        assert(a * b >= 1) by (nonlinear_arith)
            requires
                a >= 1,
                b >= 1,
        ;
    }
    (a / g) * b
}

/// a*b/g == (a/g)*b when g divides a, with the usual positivity and
/// divisibility facts about the lcm.
pub proof fn lemma_lcm_parts(a: int, b: int)
    requires
        a >= 1,
        b >= 1,
    ensures
        spec_lcm(a, b) == (a / spec_gcd(a, b)) * b,
        1 <= a / spec_gcd(a, b),
        spec_lcm(a, b) >= a,
        spec_lcm(a, b) >= b,
        spec_lcm(a, b) % a == 0,
        spec_lcm(a, b) % b == 0,
        spec_lcm(a, b) / a >= 1,
        spec_lcm(a, b) / b >= 1,
        a * (spec_lcm(a, b) / a) == spec_lcm(a, b),
        b * (spec_lcm(a, b) / b) == spec_lcm(a, b),
{
    let g = spec_gcd(a, b);
    lemma_gcd_pos(a, b);
    lemma_gcd_divides(a, b);
    let qa = a / g;
    let qb = b / g;
    lemma_fundamental_div_mod(a, g);
    lemma_fundamental_div_mod(b, g);
    assert(a == g * qa);
    assert(b == g * qb);
    assert(qa >= 1) by (nonlinear_arith)
        requires
            a == g * qa,
            a >= 1,
            g >= 1,
    ;
    assert(qb >= 1) by (nonlinear_arith)
        requires
            b == g * qb,
            b >= 1,
            g >= 1,
    ;
    assert(a * b == g * (qa * b)) by (nonlinear_arith)
        requires
            a == g * qa,
    ;
    vstd::arithmetic::div_mod::lemma_div_multiples_vanish(qa * b, g);
    assert(spec_lcm(a, b) == qa * b);
    assert(qa * b >= b) by (nonlinear_arith)
        requires
            qa >= 1,
            b >= 1,
    ;
    assert(qa * b == qb * a) by (nonlinear_arith)
        requires
            a == g * qa,
            b == g * qb,
    ;
    assert(qa * b >= a) by (nonlinear_arith)
        requires
            qb >= 1,
            a >= 1,
            qa * b == qb * a,
    ;
    assert((a * qb) % a == 0 && a * (qa * b / a) == qa * b && qa * b / a == qb) by {
        lemma_mod_multiples_basic(qb, a);
        assert(qb * a == a * qb) by (nonlinear_arith);
        vstd::arithmetic::div_mod::lemma_div_multiples_vanish(qb, a);
        assert(a * qb / a == qb);
    }
    assert((b * qa) % b == 0 && qa * b / b == qa) by {
        lemma_mod_multiples_basic(qa, b);
        assert(qa * b == b * qa) by (nonlinear_arith);
        vstd::arithmetic::div_mod::lemma_div_multiples_vanish(qa, b);
    }
    assert(spec_lcm(a, b) % a == 0) by {
        assert(qa * b == a * qb) by (nonlinear_arith)
            requires
                qa * b == qb * a,
        ;
        lemma_mod_multiples_basic(qb, a);
        assert(qb * a == a * qb) by (nonlinear_arith);
    }
    assert(spec_lcm(a, b) % b == 0) by {
        lemma_mod_multiples_basic(qa, b);
        assert(qa * b == b * qa) by (nonlinear_arith);
    }
}

proof fn lemma_lcm_basics(a: int, b: int)
    requires
        a >= 1,
        b >= 1,
    ensures
        a == 1 ==> spec_lcm(a, b) == b,
        b == 1 ==> spec_lcm(a, b) == a,
        spec_lcm(a, b) % a == 0,
        spec_lcm(a, b) % b == 0,
        spec_lcm(a, b) >= a,
        spec_lcm(a, b) >= b,
{
    lemma_lcm_parts(a, b);
    if a == 1 {
        lemma_gcd_pos(a, b);
        assert(spec_gcd(1, b) == 1) by {
            lemma_gcd_one(b);
        }
        assert(spec_lcm(a, b) == 1 * b / 1);
    }
    if b == 1 {
        lemma_gcd_pos(a, b);
        lemma_gcd_sym(a, 1);
        lemma_gcd_one(a);
        assert(spec_lcm(a, b) == a * 1 / 1);
    }
}

proof fn lemma_gcd_one(b: int)
    requires
        b >= 1,
    ensures
        spec_gcd(1, b) == 1,
    decreases b,
{
    if b > 1 {
        lemma_gcd_one(b - 1);
    }
}

/// The gcd scales with a common factor of its arguments.
pub proof fn lemma_gcd_linear(k: int, x: int, y: int)
    requires
        k >= 1,
        x >= 1,
        y >= 1,
    ensures
        spec_gcd(k * x, k * y) == k * spec_gcd(x, y),
    decreases x + y,
{
    assert(k * x >= 1 && k * y >= 1) by (nonlinear_arith)
        requires
            k >= 1,
            x >= 1,
            y >= 1,
    ;
    if x == y {
    } else if x > y {
        assert(k * x - k * y == k * (x - y)) by (nonlinear_arith);
        assert(k * x > k * y) by (nonlinear_arith)
            requires
                k >= 1,
                x > y,
        ;
        lemma_gcd_linear(k, x - y, y);
    } else {
        assert(k * y - k * x == k * (y - x)) by (nonlinear_arith);
        assert(k * y > k * x) by (nonlinear_arith)
            requires
                k >= 1,
                y > x,
        ;
        lemma_gcd_linear(k, x, y - x);
    }
}

/// The two quotients after dividing by the gcd are coprime.
pub proof fn lemma_gcd_quotients_coprime(a: int, b: int)
    requires
        a >= 1,
        b >= 1,
    ensures
        a / spec_gcd(a, b) >= 1,
        b / spec_gcd(a, b) >= 1,
        spec_gcd(a / spec_gcd(a, b), b / spec_gcd(a, b)) == 1,
        spec_gcd(a, b) * (a / spec_gcd(a, b)) == a,
        spec_gcd(a, b) * (b / spec_gcd(a, b)) == b,
{
    let g = spec_gcd(a, b);
    lemma_gcd_pos(a, b);
    lemma_gcd_divides(a, b);
    let p = a / g;
    let q = b / g;
    lemma_fundamental_div_mod(a, g);
    lemma_fundamental_div_mod(b, g);
    assert(a == g * p);
    assert(b == g * q);
    assert(p >= 1) by (nonlinear_arith)
        requires
            a == g * p,
            a >= 1,
            g >= 1,
    ;
    assert(q >= 1) by (nonlinear_arith)
        requires
            b == g * q,
            b >= 1,
            g >= 1,
    ;
    lemma_gcd_linear(g, p, q);
    assert(g == g * spec_gcd(p, q));
    assert(spec_gcd(p, q) == 1) by (nonlinear_arith)
        requires
            g == g * spec_gcd(p, q),
            g >= 1,
    ;
}

/// Absolute value over the mathematical integers.
pub open spec fn iabs(x: int) -> int {
    if x >= 0 {
        x
    } else {
        -x
    }
}

/// The sign of an integer: -1, 0 or 1.
pub open spec fn isign(x: int) -> int {
    if x > 0 {
        1
    } else if x < 0 {
        -1
    } else {
        0
    }
}

/// An exact rational number held as a signed numerator over a positive
/// denominator. The `simplified` mark records that the pair is already in
/// the reduced form that `simplify` would produce.
#[derive(Clone, Copy, Debug)]
pub struct Fraction {
    numerator: i64,
    denominator: u64,
    simplified: bool,
}

impl Fraction {
    /// The numerator, as a mathematical integer.
    pub closed spec fn num(self) -> int {
        self.numerator as int
    }

    /// The denominator, as a mathematical integer.
    pub closed spec fn den(self) -> int {
        self.denominator as int
    }

    pub closed spec fn spec_marked(self) -> bool {
        self.simplified
    }

    /// The numerator of the reduced form that `simplify` produces.
    pub open spec fn spec_reduced_num(self) -> int {
        if self.den() == 1 || iabs(self.num()) < 2 {
            self.num()
        } else if spec_gcd(iabs(self.num()), self.den()) == 1 {
            self.num()
        } else {
            (iabs(self.num()) / spec_gcd(iabs(self.num()), self.den())) * isign(self.num())
        }
    }

    /// The denominator of the reduced form that `simplify` produces.
    pub open spec fn spec_reduced_den(self) -> int {
        if self.den() == 1 || iabs(self.num()) < 2 {
            self.den()
        } else if spec_gcd(iabs(self.num()), self.den()) == 1 {
            self.den()
        } else {
            self.den() / spec_gcd(iabs(self.num()), self.den())
        }
    }

    /// Well-formedness: the denominator is positive and both parts stay
    /// strictly inside the i64 range, so that negation and absolute value
    /// never overflow; a fraction marked simplified is its own reduced form.
    pub open spec fn wf(self) -> bool {
        &&& 1 <= self.den() <= i64::MAX as int
        &&& -(i64::MAX as int) <= self.num() <= i64::MAX as int
        &&& (self.spec_marked() ==> self.spec_reduced_num() == self.num()
            && self.spec_reduced_den() == self.den())
    }

    /// This fraction equals the rational n/d (cross multiplication).
    pub open spec fn represents(self, n: int, d: int) -> bool
        recommends
            d != 0,
    {
        self.num() * d == n * self.den()
    }

    /// Two fractions stand for the same rational number.
    pub open spec fn same_value(self, other: Fraction) -> bool {
        self.num() * other.den() == other.num() * self.den()
    }

    /// The value `new` builds for a non-zero divisor.
    pub closed spec fn spec_new(n: int, d: int) -> Fraction {
        let abs_n = if n < 0 {
            -n
        } else {
            n
        };
        let abs_d = if d < 0 {
            -d
        } else {
            d
        };
        Fraction {
            numerator: (if (n < 0) != (d < 0) && abs_n != 0 {
                -abs_n
            } else {
                abs_n
            }) as i64,
            denominator: abs_d as u64,
            simplified: false,
        }
    }

    /// Builds the fraction numerator/divisor; `None` exactly when the
    /// divisor is zero. The i64 minimum is excluded so the sign
    /// normalisation cannot overflow.
    pub fn new(numerator: i64, divisor: i64) -> (r: Option<Fraction>)
        requires
            numerator != i64::MIN,
            divisor != i64::MIN,
        ensures
            (r is Some) <==> divisor != 0,
            r matches Some(f) ==> f == Fraction::spec_new(numerator as int, divisor as int),
            r matches Some(f) ==> f.wf() && f.represents(numerator as int, divisor as int)
                && !f.spec_marked(),
    {
        if divisor == 0 {
            return None;
        }
        let neg = (numerator < 0) != (divisor < 0);
        let abs_n = if numerator < 0 {
            -numerator
        } else {
            numerator
        };
        let abs_d = if divisor < 0 {
            -divisor
        } else {
            divisor
        };
        let out = Fraction {
            numerator: if neg && abs_n != 0 {
                -abs_n
            } else {
                abs_n
            },
            denominator: abs_d as u64,
            simplified: false,
        };
        proof {
            assert(out.num() * divisor == numerator * out.den()) by (nonlinear_arith)
                requires
                    out.num() == if neg && abs_n != 0 {
                        -abs_n as int
                    } else {
                        abs_n as int
                    },
                    out.den() == abs_d as int,
                    abs_n as int == iabs(numerator as int),
                    abs_d as int == iabs(divisor as int),
                    neg == ((numerator < 0) != (divisor < 0)),
                    divisor != 0,
            ;
        }
        Some(out)
    }

    /// The value `from_int` returns.
    pub closed spec fn spec_from_int(v: int) -> Fraction {
        Fraction { numerator: v as i64, denominator: 1, simplified: true }
    }

    /// A fraction standing for the given whole number.
    pub fn from_int(v: i64) -> (r: Fraction)
        requires
            v != i64::MIN,
        ensures
            r == Fraction::spec_from_int(v as int),
            r.wf(),
            r.num() == v as int,
            r.den() == 1,
    {
        Fraction { numerator: v, denominator: 1, simplified: true }
    }

    /// The numerator as a machine integer.
    pub fn numer(&self) -> (r: i64)
        ensures
            r as int == self.num(),
    {
        self.numerator
    }

    /// The denominator as a machine integer.
    pub fn denom(&self) -> (r: u64)
        ensures
            r as int == self.den(),
    {
        self.denominator
    }

    /// Whether the stored numerator is zero, which holds exactly when the
    /// rational value is zero.
    pub fn is_zero(&self) -> (r: bool)
        ensures
            r <==> self.num() == 0,
    {
        self.numerator == 0
    }

    /// Whether the stored denominator is one.
    pub fn is_whole(&self) -> (r: bool)
        ensures
            r <==> self.den() == 1,
    {
        self.denominator == 1
    }

    /// The same value with the sign of the numerator dropped.
    pub fn abs(self) -> (r: Fraction)
        requires
            self.wf(),
        ensures
            r.wf(),
            r.num() == iabs(self.num()),
            r.den() == self.den(),
    {
        let out = Fraction {
            numerator: if self.numerator < 0 {
                -self.numerator
            } else {
                self.numerator
            },
            denominator: self.denominator,
            simplified: self.simplified,
        };
        proof {
            if self.spec_marked() {
                lemma_reduced_abs(self);
            }
        }
        out
    }

    /// The negated value.
    pub fn neg(self) -> (r: Fraction)
        requires
            self.wf(),
        ensures
            r == self.spec_neg(),
            r.wf(),
            r.num() == -self.num(),
            r.den() == self.den(),
    {
        if self.numerator == 0 {
            self
        } else {
            let out = Fraction {
                numerator: -self.numerator,
                denominator: self.denominator,
                simplified: self.simplified,
            };
            proof {
                if self.spec_marked() {
                    lemma_reduced_abs(self);
                    lemma_reduced_abs(out);
                }
            }
            out
        }
    }

    /// Reduces the fraction to lowest terms (with a short cut when the
    /// numerator is already 0, 1 or -1, or the denominator is 1).
    pub fn simplify(self) -> (r: Fraction)
        requires
            self.wf(),
        ensures
            r == self.spec_simplify(),
            r.wf(),
            r.spec_marked(),
            r.num() == self.spec_reduced_num(),
            r.den() == self.spec_reduced_den(),
            r.same_value(self),
            r.den() <= self.den(),
            iabs(r.num()) <= iabs(self.num()),
            (r.num() == 0 <==> self.num() == 0),
    {
        proof {
            lemma_reduced_value(self);
        }
        if self.simplified {
            self
        } else {
            let abs_numerator = if self.numerator < 0 {
                -self.numerator
            } else {
                self.numerator
            };
            if self.denominator == 1 || abs_numerator < 2 {
                Fraction {
                    numerator: self.numerator,
                    denominator: self.denominator,
                    simplified: true,
                }
            } else {
                let g = gcd(abs_numerator, self.denominator as i64);
                if g == 1 {
                    Fraction {
                        numerator: self.numerator,
                        denominator: self.denominator,
                        simplified: true,
                    }
                } else {
                    proof {
                        lemma_gcd_quotients_coprime(iabs(self.num()), self.den());
                    }
                    let new_abs = abs_numerator / g;
                    let out = Fraction {
                        numerator: if self.numerator < 0 {
                            -new_abs
                        } else {
                            new_abs
                        },
                        denominator: ((self.denominator as i64) / g) as u64,
                        simplified: true,
                    };
                    proof {
                        lemma_reduced_fixpoint(self, out);
                    }
                    out
                }
            }
        }
    }
}

/// Reducing commutes with dropping the sign of the numerator.
proof fn lemma_reduced_abs(f: Fraction)
    requires
        1 <= f.den(),
        -(i64::MAX as int) <= f.num() <= i64::MAX as int,
    ensures
        f.spec_reduced_den() == f.abs_fields().spec_reduced_den(),
        f.spec_reduced_num() == f.num() ==> f.abs_fields().spec_reduced_num() == iabs(f.num()),
{
    assert(iabs(f.abs_fields().num()) == iabs(f.num()));
    if !(f.den() == 1 || iabs(f.num()) < 2) && spec_gcd(iabs(f.num()), f.den()) != 1 {
        assert(f.spec_reduced_num() != f.num() || f.num() == 0) by {
            lemma_reduced_shrinks(f);
        }
    }
}

impl Fraction {
    /// The same fields with the numerator sign dropped (spec helper).
    spec fn abs_fields(self) -> Fraction {
        Fraction {
            numerator: (if self.num() < 0 {
            -self.num()
        } else {
            self.num()
        }) as i64,
            denominator: self.denominator,
            simplified: self.simplified,
        }
    }
}

/// In the genuinely reducing branch the numerator strictly shrinks.
proof fn lemma_reduced_shrinks(f: Fraction)
    requires
        !(f.den() == 1 || iabs(f.num()) < 2),
        spec_gcd(iabs(f.num()), f.den()) != 1,
        1 <= f.den(),
    ensures
        iabs(f.spec_reduced_num()) < iabs(f.num()),
        f.spec_reduced_den() < f.den(),
{
    let a = iabs(f.num());
    let d = f.den();
    let g = spec_gcd(a, d);
    lemma_gcd_pos(a, d);
    lemma_gcd_quotients_coprime(a, d);
    let p = a / g;
    let q = d / g;
    assert(p < a) by (nonlinear_arith)
        requires
            a == g * p,
            g >= 2,
            p >= 1,
    ;
    assert(q < d) by (nonlinear_arith)
        requires
            d == g * q,
            g >= 2,
            q >= 1,
    ;
    assert(iabs(p * isign(f.num())) == p) by (nonlinear_arith)
        requires
            p >= 1,
            f.num() != 0,
            isign(f.num()) == if f.num() > 0 {
                1int
            } else {
                -1int
            },
    ;
}

/// The reduced form stands for the same rational value.
proof fn lemma_reduced_value(f: Fraction)
    requires
        1 <= f.den(),
    ensures
        f.spec_reduced_num() * f.den() == f.num() * f.spec_reduced_den(),
        1 <= f.spec_reduced_den() <= f.den(),
        iabs(f.spec_reduced_num()) <= iabs(f.num()),
        (f.spec_reduced_num() == 0 <==> f.num() == 0),
{
    let a = iabs(f.num());
    let d = f.den();
    if f.den() == 1 || iabs(f.num()) < 2 {
    } else if spec_gcd(a, d) == 1 {
    } else {
        let g = spec_gcd(a, d);
        lemma_gcd_pos(a, d);
        lemma_gcd_quotients_coprime(a, d);
        let p = a / g;
        let q = d / g;
        let s = isign(f.num());
        assert(f.num() == a * s || f.num() == -(a * s) && s == 0);
        assert(f.num() == s * a) by (nonlinear_arith)
            requires
                a == iabs(f.num()),
                s == isign(f.num()),
                a >= 2,
        ;
        assert((p * s) * d == (s * a) * q) by (nonlinear_arith)
            requires
                a == g * p,
                d == g * q,
        ;
        lemma_reduced_shrinks(f);
        assert(p * s != 0) by (nonlinear_arith)
            requires
                p >= 1,
                s == 1 || s == -1,
        ;
    }
}

impl Fraction {
    /// The reduced fraction that `simplify` returns, as a value.
    pub closed spec fn spec_simplify(self) -> Fraction {
        Fraction {
            numerator: self.spec_reduced_num() as i64,
            denominator: self.spec_reduced_den() as u64,
            simplified: true,
        }
    }

    /// Whether the raw product of two fractions stays inside the machine range.
    pub open spec fn mul_fits(self, rhs: Fraction) -> bool {
        &&& -(i64::MAX as int) <= self.num() * rhs.num() <= i64::MAX as int
        &&& self.den() * rhs.den() <= i64::MAX as int
    }

    /// The value `try_mul` returns.
    pub closed spec fn spec_try_mul(self, rhs: Fraction) -> Option<Fraction> {
        if self.mul_fits(rhs) {
            Some(
                Fraction {
                    numerator: (self.num() * rhs.num()) as i64,
                    denominator: (self.den() * rhs.den()) as u64,
                    simplified: false,
                }.spec_simplify(),
            )
        } else {
            None
        }
    }

    /// The common denominator that `make_same_divisor` scales both sides to.
    pub open spec fn spec_common_den(self, other: Fraction) -> int {
        if self.den() == other.den() {
            self.den()
        } else if self.num() == 0 {
            other.den()
        } else if other.num() == 0 {
            self.den()
        } else {
            spec_lcm(self.den(), other.den())
        }
    }

    /// The left numerator after scaling to the common denominator.
    pub open spec fn spec_scaled_num(self, other: Fraction) -> int {
        if self.den() == other.den() {
            self.num()
        } else if self.num() == 0 {
            0
        } else if other.num() == 0 {
            self.num()
        } else {
            self.num() * (spec_lcm(self.den(), other.den()) / self.den())
        }
    }

    /// The right numerator after scaling to the common denominator.
    pub open spec fn spec_scaled_num_rhs(self, other: Fraction) -> int {
        if self.den() == other.den() {
            other.num()
        } else if self.num() == 0 {
            other.num()
        } else if other.num() == 0 {
            0
        } else {
            other.num() * (spec_lcm(self.den(), other.den()) / other.den())
        }
    }

    /// Whether scaling both sides to the common denominator stays in range.
    pub open spec fn scale_fits(self, other: Fraction) -> bool {
        &&& self.spec_common_den(other) <= i64::MAX as int
        &&& -(i64::MAX as int) <= self.spec_scaled_num(other) <= i64::MAX as int
        &&& -(i64::MAX as int) <= self.spec_scaled_num_rhs(other) <= i64::MAX as int
    }

    /// Whether the whole addition stays inside the machine range.
    pub open spec fn add_fits(self, rhs: Fraction) -> bool {
        &&& self.scale_fits(rhs)
        &&& -(i64::MAX as int) <= self.spec_scaled_num(rhs) + self.spec_scaled_num_rhs(rhs)
            <= i64::MAX as int
    }

    /// The value `try_add` returns.
    pub closed spec fn spec_try_add(self, rhs: Fraction) -> Option<Fraction> {
        if self.add_fits(rhs) {
            Some(
                Fraction {
                    numerator: (self.spec_scaled_num(rhs) + self.spec_scaled_num_rhs(rhs)) as i64,
                    denominator: self.spec_common_den(rhs) as u64,
                    simplified: false,
                }.spec_simplify(),
            )
        } else {
            None
        }
    }

    /// The value `reciprocal` returns.
    pub closed spec fn spec_recip(self) -> Fraction {
        if self.num() == 0 {
            Fraction { numerator: 0, denominator: 1, simplified: true }
        } else {
            Fraction {
                numerator: (self.den() * isign(self.num())) as i64,
                denominator: iabs(self.num()) as u64,
                simplified: false,
            }.spec_simplify()
        }
    }

    /// The whole part, truncated towards zero.
    pub open spec fn spec_trunc(self) -> int {
        (iabs(self.num()) / self.den()) * isign(self.num())
    }

    /// The remainder left by the whole part, always non-negative.
    pub open spec fn spec_frac_rem(self) -> int {
        iabs(self.num()) % self.den()
    }

    /// Scales both fractions to one shared denominator, preserving both
    /// values.
    fn make_same_divisor(self, other: Fraction) -> (r: (Fraction, Fraction))
        requires
            self.wf(),
            other.wf(),
            self.scale_fits(other),
        ensures
            r.0.wf(),
            r.1.wf(),
            r.0.num() == self.spec_scaled_num(other),
            r.1.num() == self.spec_scaled_num_rhs(other),
            r.0.den() == self.spec_common_den(other),
            r.1.den() == self.spec_common_den(other),
            r.0.same_value(self),
            r.1.same_value(other),
    {
        if self.denominator == other.denominator {
            (self, other)
        } else if self.numerator == 0 {
            (
                Fraction { numerator: 0, denominator: other.denominator, simplified: true },
                other,
            )
        } else if other.numerator == 0 {
            (
                self,
                Fraction { numerator: 0, denominator: self.denominator, simplified: true },
            )
        } else {
            proof {
                lemma_lcm_parts(self.den(), other.den());
            }
            let d1 = self.denominator as i64;
            let d2 = other.denominator as i64;
            let g = gcd(d1, d2);
            let l = (d1 / g) * d2;
            let lcm_div_self = l / d1;
            let lcm_div_other = l / d2;
            let out_self = Fraction {
                numerator: self.numerator * lcm_div_self,
                denominator: l as u64,
                simplified: false,
            };
            let out_other = Fraction {
                numerator: other.numerator * lcm_div_other,
                denominator: l as u64,
                simplified: false,
            };
            proof {
                let li = spec_lcm(self.den(), other.den());
                assert(out_self.num() * self.den() == self.num() * li) by (nonlinear_arith)
                    requires
                        out_self.num() == self.num() * (li / self.den()),
                        self.den() * (li / self.den()) == li,
                ;
                assert(out_other.num() * other.den() == other.num() * li) by (nonlinear_arith)
                    requires
                        out_other.num() == other.num() * (li / other.den()),
                        other.den() * (li / other.den()) == li,
                ;
            }
            (out_self, out_other)
        }
    }

    /// The sum, when every intermediate value fits in the machine range;
    /// `None` exactly when one does not.
    pub fn try_add(self, rhs: Fraction) -> (r: Option<Fraction>)
        requires
            self.wf(),
            rhs.wf(),
        ensures
            r == self.spec_try_add(rhs),
            (r is Some) <==> self.add_fits(rhs),
            r matches Some(f) ==> f.wf() && f.num() * (self.den() * rhs.den()) == (self.num()
                * rhs.den() + rhs.num() * self.den()) * f.den(),
    {
        let fits = if self.denominator == rhs.denominator {
            let s = (self.numerator as i128) + (rhs.numerator as i128);
            s <= i64::MAX as i128 && s >= -(i64::MAX as i128)
        } else if self.numerator == 0 || rhs.numerator == 0 {
            true
        } else {
            proof {
                lemma_lcm_parts(self.den(), rhs.den());
            }
            let d1 = self.denominator as i64;
            let d2 = rhs.denominator as i64;
            let g = gcd(d1, d2);
            let q = d1 / g;
            proof {
                assert((q as i128) * (d2 as i128) <= (i64::MAX as i128) * (i64::MAX as i128)
                    && (q as i128) * (d2 as i128) >= 0) by (nonlinear_arith)
                    requires
                        0 <= q <= i64::MAX,
                        1 <= d2 <= i64::MAX,
                ;
            }
            let l = (q as i128) * (d2 as i128);
            if l <= i64::MAX as i128 {
                let li = l as i64;
                proof {
                    assert(li == spec_lcm(self.den(), rhs.den()));
                    assert(li >= 1);
                }
                let s1 = li / d1;
                let s2 = li / d2;
                proof {
                    lemma_i64_prod_in_i128(self.num(), s1 as int);
                    lemma_i64_prod_in_i128(rhs.num(), s2 as int);
                }
                let m1 = (self.numerator as i128) * (s1 as i128);
                let m2 = (rhs.numerator as i128) * (s2 as i128);
                if m1 <= i64::MAX as i128 && m1 >= -(i64::MAX as i128) && m2 <= i64::MAX as i128
                    && m2 >= -(i64::MAX as i128) {
                    let s = m1 + m2;
                    s <= i64::MAX as i128 && s >= -(i64::MAX as i128)
                } else {
                    false
                }
            } else {
                false
            }
        };
        proof {
            assert(fits == self.add_fits(rhs));
        }
        if !fits {
            return None;
        }
        let (a, b) = self.make_same_divisor(rhs);
        let sum = Fraction {
            numerator: a.numerator + b.numerator,
            denominator: a.denominator,
            simplified: false,
        };
        let out = sum.simplify();
        proof {
            lemma_add_value(self, rhs, sum, out);
        }
        Some(out)
    }

    /// The product, when the raw product fits in the machine range; `None`
    /// exactly when it does not.
    pub fn try_mul(self, rhs: Fraction) -> (r: Option<Fraction>)
        requires
            self.wf(),
            rhs.wf(),
        ensures
            r == self.spec_try_mul(rhs),
            (r is Some) <==> self.mul_fits(rhs),
            r matches Some(f) ==> f.wf() && f.num() * (self.den() * rhs.den()) == (self.num()
                * rhs.num()) * f.den(),
            r matches Some(f) ==> (f.num() == 0 <==> self.num() == 0 || rhs.num() == 0),
    {
        proof {
            lemma_i64_prod_in_i128(self.num(), rhs.num());
            assert((self.denominator as u128) * (rhs.denominator as u128) <= u128::MAX)
                by (nonlinear_arith)
                requires
                    self.denominator <= 0x7fff_ffff_ffff_ffffu64,
                    rhs.denominator <= 0x7fff_ffff_ffff_ffffu64,
            ;
        }
        let n = (self.numerator as i128) * (rhs.numerator as i128);
        let d = (self.denominator as u128) * (rhs.denominator as u128);
        proof {
            assert(self.den() * rhs.den() >= 1 && (self.den() * rhs.den() == (self.denominator
                as u128 * rhs.denominator as u128) as int)) by (nonlinear_arith)
                requires
                    1 <= self.den() <= i64::MAX as int,
                    1 <= rhs.den() <= i64::MAX as int,
                    self.den() == self.denominator as int,
                    rhs.den() == rhs.denominator as int,
            ;
        }
        if n > i64::MAX as i128 || n < -(i64::MAX as i128) || d > i64::MAX as u128 {
            return None;
        }
        let raw = Fraction { numerator: n as i64, denominator: d as u64, simplified: false };
        let out = raw.simplify();
        proof {
            assert(out.num() * (self.den() * rhs.den()) == (self.num() * rhs.num()) * out.den())
                by (nonlinear_arith)
                requires
                    out.num() * raw.den() == raw.num() * out.den(),
                    raw.num() == self.num() * rhs.num(),
                    raw.den() == self.den() * rhs.den(),
            ;
            assert(raw.num() == 0 <==> self.num() == 0 || rhs.num() == 0) by (nonlinear_arith)
                requires
                    raw.num() == self.num() * rhs.num(),
            ;
        }
        Some(out)
    }

    /// The multiplicative inverse; zero is mapped to zero.
    pub fn reciprocal(self) -> (r: Fraction)
        requires
            self.wf(),
        ensures
            r == self.spec_recip(),
            r.wf(),
            self.num() == 0 ==> r.num() == 0 && r.den() == 1,
            self.num() != 0 ==> r.num() * self.num() == self.den() * r.den(),
            self.num() != 0 ==> r.num() != 0,
    {
        if self.numerator == 0 {
            Fraction { numerator: 0, denominator: 1, simplified: true }
        } else {
            let numerator_sign: i64 = if self.numerator > 0 {
                1
            } else {
                -1
            };
            let swapped = Fraction {
                numerator: (self.denominator as i64) * numerator_sign,
                denominator: (if self.numerator < 0 {
                    -self.numerator
                } else {
                    self.numerator
                }) as u64,
                simplified: false,
            };
            let out = swapped.simplify();
            proof {
                assert(swapped.num() == self.den() * isign(self.num()));
                assert(out.num() * self.num() == self.den() * out.den()) by (nonlinear_arith)
                    requires
                        out.num() * swapped.den() == swapped.num() * out.den(),
                        swapped.num() == self.den() * isign(self.num()),
                        swapped.den() == iabs(self.num()),
                        self.num() != 0,
                        isign(self.num()) == if self.num() > 0 {
                            1int
                        } else {
                            -1int
                        },
                        iabs(self.num()) == if self.num() > 0 {
                            self.num()
                        } else {
                            -self.num()
                        },
                        1 <= self.den(),
                ;
                assert(out.num() != 0) by (nonlinear_arith)
                    requires
                        out.num() * self.num() == self.den() * out.den(),
                        self.num() != 0,
                        1 <= self.den(),
                        1 <= out.den(),
                ;
            }
            out
        }
    }

    /// The reduced fractional remainder that `mixed_number` hands back.
    pub closed spec fn spec_mixed_frac(self) -> Fraction {
        Fraction {
            numerator: (self.spec_frac_rem() * isign(self.num())) as i64,
            denominator: self.den() as u64,
            simplified: false,
        }.spec_simplify()
    }

    /// The value `neg` returns.
    pub closed spec fn spec_neg(self) -> Fraction {
        if self.num() == 0 {
            self
        } else {
            Fraction {
                numerator: (-self.num()) as i64,
                denominator: self.den() as u64,
                simplified: self.spec_marked(),
            }
        }
    }

    /// The value `try_sub` returns.
    pub open spec fn spec_try_sub(self, rhs: Fraction) -> Option<Fraction> {
        self.spec_try_add(rhs.spec_neg())
    }

    /// The value `try_div` returns.
    pub open spec fn spec_try_div(self, rhs: Fraction) -> Option<Fraction> {
        if rhs.num() == 0 {
            None
        } else {
            self.spec_try_mul(rhs.spec_recip())
        }
    }

    /// The difference, when every intermediate value fits in the machine
    /// range; `None` exactly when one does not.
    pub fn try_sub(self, rhs: Fraction) -> (r: Option<Fraction>)
        requires
            self.wf(),
            rhs.wf(),
        ensures
            r == self.spec_try_sub(rhs),
            (r is Some) <==> self.add_fits(rhs.spec_neg()),
            r matches Some(f) ==> f.wf() && f.num() * (self.den() * rhs.den()) == (self.num()
                * rhs.den() - rhs.num() * self.den()) * f.den(),
    {
        let n = rhs.neg();
        let r = self.try_add(n);
        proof {
            if r is Some {
                let f = r.unwrap();
                assert(f.num() * (self.den() * rhs.den()) == (self.num() * rhs.den() - rhs.num()
                    * self.den()) * f.den()) by (nonlinear_arith)
                    requires
                        f.num() * (self.den() * n.den()) == (self.num() * n.den() + n.num()
                            * self.den()) * f.den(),
                        n.den() == rhs.den(),
                        n.num() == -rhs.num(),
                ;
            }
        }
        r
    }

    /// The quotient; `None` exactly when the divisor is zero or the
    /// product with its reciprocal leaves the machine range.
    pub fn try_div(self, rhs: Fraction) -> (r: Option<Fraction>)
        requires
            self.wf(),
            rhs.wf(),
        ensures
            r == self.spec_try_div(rhs),
            (r is Some) <==> (rhs.num() != 0 && self.mul_fits(rhs.spec_recip())),
            r matches Some(f) ==> f.wf() && f.num() * (self.den() * rhs.num()) == (self.num()
                * rhs.den()) * f.den(),
            r matches Some(f) ==> (f.num() == 0 <==> self.num() == 0),
    {
        if rhs.is_zero() {
            return None;
        }
        let rc = rhs.reciprocal();
        let out = self.try_mul(rc);
        proof {
            if out is Some {
                let f = out.unwrap();
                assert(f.num() * (self.den() * rhs.num()) == (self.num() * rhs.den()) * f.den())
                    by (nonlinear_arith)
                    requires
                        f.num() * (self.den() * rc.den()) == (self.num() * rc.num()) * f.den(),
                        rc.num() * rhs.num() == rhs.den() * rc.den(),
                        1 <= rc.den(),
                        rhs.num() != 0,
                ;
            }
        }
        out
    }

    /// The sum, under the caller's proof that every intermediate value
    /// fits in the machine range.
    pub fn add(self, rhs: Fraction) -> (r: Fraction)
        requires
            self.wf(),
            rhs.wf(),
            self.add_fits(rhs),
        ensures
            Some(r) == self.spec_try_add(rhs),
            r.wf(),
            r.num() * (self.den() * rhs.den()) == (self.num() * rhs.den() + rhs.num()
                * self.den()) * r.den(),
    {
        let out = self.try_add(rhs);
        out.unwrap()
    }

    /// The product, under the caller's proof that the raw product fits in
    /// the machine range.
    pub fn mul(self, rhs: Fraction) -> (r: Fraction)
        requires
            self.wf(),
            rhs.wf(),
            self.mul_fits(rhs),
        ensures
            Some(r) == self.spec_try_mul(rhs),
            r.wf(),
            r.num() * (self.den() * rhs.den()) == (self.num() * rhs.num()) * r.den(),
    {
        let out = self.try_mul(rhs);
        out.unwrap()
    }

    /// The nearest whole number, with the upper half of each unit interval
    /// (measured on the reduced remainder) rounded away from zero.
    pub open spec fn spec_rounded(self) -> int {
        let t = self.spec_trunc();
        if self.spec_frac_rem() == 0 {
            t
        } else {
            let f = self.spec_mixed_frac();
            let half = f.den() / 2;
            if half == 0 {
                t
            } else if iabs(f.num()) < half {
                t
            } else {
                t + isign(self.num())
            }
        }
    }

    /// Rounds the value to a whole number as `spec_rounded` describes.
    pub fn rounded(&self) -> (r: i64)
        requires
            self.wf(),
        ensures
            r == self.spec_rounded(),
    {
        let (whole, fractional) = self.mixed_number();
        if let Some(fractional) = fractional {
            let half_denom = fractional.denominator / 2;
            if half_denom == 0 {
                whole
            } else {
                let num = if fractional.numerator < 0 {
                    -fractional.numerator
                } else {
                    fractional.numerator
                };
                if num < (half_denom as i64) {
                    whole
                } else {
                    proof {
                        lemma_trunc_small(*self);
                    }
                    let sign: i64 = if self.numerator > 0 {
                        1
                    } else if self.numerator < 0 {
                        -1
                    } else {
                        0
                    };
                    whole + sign
                }
            }
        } else {
            whole
        }
    }

    /// Splits the value into a whole part truncated towards zero and a
    /// proper fractional remainder carrying the original sign.
    pub fn mixed_number(&self) -> (r: (i64, Option<Fraction>))
        requires
            self.wf(),
        ensures
            r.0 == self.spec_trunc(),
            (r.1 is Some) <==> self.spec_frac_rem() != 0,
            r.1 matches Some(f) ==> {
                &&& f.wf()
                &&& f == self.spec_mixed_frac()
                &&& f.represents(self.spec_frac_rem() * isign(self.num()), self.den())
                &&& f.num() != 0
                &&& 2 <= f.den()
            },
    {
        let num = (if self.numerator < 0 {
            -self.numerator
        } else {
            self.numerator
        }) as u64;
        proof {
            lemma_mod_division_less_than_divisor(num as int, self.den());
            vstd::arithmetic::div_mod::lemma_div_pos_is_pos(num as int, self.den());
            vstd::arithmetic::div_mod::lemma_div_nonincreasing(num as int, self.den());
        }
        let remainder = (num % self.denominator) as i64;
        let whole_mag = (num / self.denominator) as i64;
        let result = if self.numerator < 0 {
            -whole_mag
        } else {
            whole_mag
        };
        proof {
            assert(result == self.spec_trunc()) by (nonlinear_arith)
                requires
                    whole_mag == iabs(self.num()) / self.den(),
                    whole_mag >= 0,
                    result == if self.num() < 0 {
                        -whole_mag as int
                    } else {
                        whole_mag as int
                    },
                    self.spec_trunc() == (iabs(self.num()) / self.den()) * isign(self.num()),
                    isign(self.num()) == if self.num() > 0 {
                        1int
                    } else if self.num() < 0 {
                        -1int
                    } else {
                        0int
                    },
                    self.num() == 0 ==> whole_mag == 0,
            ;
        }
        let fractional_part = if remainder != 0 {
            let signed_rem = if self.numerator < 0 {
                -remainder
            } else {
                remainder
            };
            let raw = Fraction {
                numerator: signed_rem,
                denominator: self.denominator,
                simplified: false,
            };
            let f = raw.simplify();
            proof {
                assert(self.num() != 0);
                assert(remainder == self.spec_frac_rem());
                assert(raw.num() == self.spec_frac_rem() * isign(self.num())) by (nonlinear_arith)
                    requires
                        raw.num() == if self.num() < 0 {
                            -self.spec_frac_rem()
                        } else {
                            self.spec_frac_rem()
                        },
                        self.num() != 0,
                        isign(self.num()) == if self.num() > 0 {
                            1int
                        } else {
                            -1int
                        },
                ;
                assert(f.num() * self.den() == (self.spec_frac_rem() * isign(self.num()))
                    * f.den()) by (nonlinear_arith)
                    requires
                        f.num() * raw.den() == raw.num() * f.den(),
                        raw.num() == self.spec_frac_rem() * isign(self.num()),
                        raw.den() == self.den(),
                ;
                assert(f.num() != 0) by (nonlinear_arith)
                    requires
                        raw.num() == self.spec_frac_rem() * isign(self.num()),
                        self.spec_frac_rem() != 0,
                        isign(self.num()) == 1 || isign(self.num()) == -1,
                        (f.num() == 0 <==> raw.num() == 0),
                ;
                assert(f.den() >= 2) by (nonlinear_arith)
                    requires
                        f.num() * self.den() == (self.spec_frac_rem() * isign(self.num()))
                            * f.den(),
                        0 < self.spec_frac_rem() < self.den(),
                        isign(self.num()) == 1 || isign(self.num()) == -1,
                        f.num() != 0,
                        1 <= f.den(),
                ;
            }
            Some(f)
        } else {
            None
        };
        (result, fractional_part)
    }
}

/// After dividing out the gcd the result is a fixed point of reduction.
proof fn lemma_reduced_fixpoint(f: Fraction, out: Fraction)
    requires
        1 <= f.den(),
        !(f.den() == 1 || iabs(f.num()) < 2),
        spec_gcd(iabs(f.num()), f.den()) != 1,
        out.num() == f.spec_reduced_num(),
        out.den() == f.spec_reduced_den(),
    ensures
        out.spec_reduced_num() == out.num(),
        out.spec_reduced_den() == out.den(),
{
    let a = iabs(f.num());
    let d = f.den();
    let g = spec_gcd(a, d);
    lemma_gcd_pos(a, d);
    lemma_gcd_quotients_coprime(a, d);
    let p = a / g;
    let q = d / g;
    let s = isign(f.num());
    assert(iabs(out.num()) == p) by (nonlinear_arith)
        requires
            out.num() == p * s,
            p >= 1,
            s == 1 || s == -1,
    ;
    if out.den() == 1 || iabs(out.num()) < 2 {
    } else {
        assert(spec_gcd(iabs(out.num()), out.den()) == 1);
    }
}

/// A product of two i64-range values always fits in i128.
pub proof fn lemma_i64_prod_in_i128(a: int, b: int)
    requires
        i64::MIN as int <= a <= i64::MAX as int,
        i64::MIN as int <= b <= i64::MAX as int,
    ensures
        i128::MIN as int <= a * b <= i128::MAX as int,
{
    assert(i128::MIN as int <= a * b <= i128::MAX as int) by (nonlinear_arith)
        requires
            -(0x8000_0000_0000_0000int) <= a <= 0x7fff_ffff_ffff_ffffint,
            -(0x8000_0000_0000_0000int) <= b <= 0x7fff_ffff_ffff_ffffint,
    ;
}

/// With a denominator of at least two, the truncated whole part sits well
/// inside the machine range, so stepping it by one cannot overflow.
proof fn lemma_trunc_small(f: Fraction)
    requires
        f.wf(),
        f.spec_frac_rem() != 0,
    ensures
        -(i64::MAX as int) < f.spec_trunc() < i64::MAX as int,
{
    let a = iabs(f.num());
    let d = f.den();
    if d < 2 {
        lemma_small_mod(a as nat, 1nat);
    }
    assert(d >= 2);
    assert(a >= 1) by {
        if a == 0 {
            lemma_small_mod(0nat, d as nat);
        }
    }
    vstd::arithmetic::div_mod::lemma_div_pos_is_pos(a, d);
    vstd::arithmetic::div_mod::lemma_div_is_ordered_by_denominator(a, 2, d);
    vstd::arithmetic::div_mod::lemma_div_nonincreasing(a, 2);
    assert(a / d <= a / 2);
    assert(a / 2 < a) by {
        vstd::arithmetic::div_mod::lemma_div_is_strictly_smaller(a, 2);
    }
    assert(f.spec_trunc() == (a / d) * isign(f.num()));
    assert(iabs(f.spec_trunc()) <= a / d) by (nonlinear_arith)
        requires
            f.spec_trunc() == (a / d) * isign(f.num()),
            a / d >= 0,
            isign(f.num()) == 1 || isign(f.num()) == -1 || isign(f.num()) == 0,
    ;
}

/// The scaled-and-summed pair stands for the exact rational sum.
proof fn lemma_add_value(a: Fraction, b: Fraction, sum: Fraction, out: Fraction)
    requires
        1 <= a.den(),
        1 <= b.den(),
        1 <= a.spec_common_den(b),
        sum.num() == a.spec_scaled_num(b) + a.spec_scaled_num_rhs(b),
        sum.den() == a.spec_common_den(b),
        out.num() * sum.den() == sum.num() * out.den(),
        a.spec_scaled_num(b) * a.den() == a.num() * a.spec_common_den(b),
        a.spec_scaled_num_rhs(b) * b.den() == b.num() * a.spec_common_den(b),
    ensures
        out.num() * (a.den() * b.den()) == (a.num() * b.den() + b.num() * a.den()) * out.den(),
{
    let cd = a.spec_common_den(b);
    let l = a.spec_scaled_num(b);
    let r = a.spec_scaled_num_rhs(b);
    let d1 = a.den();
    let d2 = b.den();
    assert((l + r) * (d1 * d2) == (a.num() * d2 + b.num() * d1) * cd) by (nonlinear_arith)
        requires
            l * d1 == a.num() * cd,
            r * d2 == b.num() * cd,
    ;
    assert(out.num() * (d1 * d2) * cd == (a.num() * d2 + b.num() * d1) * out.den() * cd)
        by (nonlinear_arith)
        requires
            out.num() * cd == (l + r) * out.den(),
            (l + r) * (d1 * d2) == (a.num() * d2 + b.num() * d1) * cd,
    ;
    assert(out.num() * (d1 * d2) == (a.num() * d2 + b.num() * d1) * out.den())
        by (nonlinear_arith)
        requires
            out.num() * (d1 * d2) * cd == (a.num() * d2 + b.num() * d1) * out.den() * cd,
            cd >= 1,
    ;
}

impl PartialEq for Fraction {
    /// Two fractions are equal exactly when they stand for the same
    /// rational number, whatever representation each one uses.
    fn eq(&self, other: &Fraction) -> (r: bool) {
        let self_neg = self.numerator < 0;
        let other_neg = other.numerator < 0;
        let m1 = (if self_neg {
            -(self.numerator as i128)
        } else {
            self.numerator as i128
        }) as u128;
        let m2 = (if other_neg {
            -(other.numerator as i128)
        } else {
            other.numerator as i128
        }) as u128;
        proof {
            assert(m1 * (other.denominator as u128) <= u128::MAX && m2 * (self.denominator
                as u128) <= u128::MAX) by (nonlinear_arith)
                requires
                    m1 <= 0x8000_0000_0000_0000u128,
                    m2 <= 0x8000_0000_0000_0000u128,
                    (other.denominator as u128) <= 0xffff_ffff_ffff_ffffu128,
                    (self.denominator as u128) <= 0xffff_ffff_ffff_ffffu128,
            ;
        }
        let p1 = m1 * (other.denominator as u128);
        let p2 = m2 * (self.denominator as u128);
        let r = p1 == p2 && (self_neg == other_neg || p1 == 0);
        proof {
            lemma_eq_by_parts(
                self.num(),
                self.den(),
                other.num(),
                other.den(),
                m1 as int,
                m2 as int,
                r,
            );
        }
        r
    }
}

/// Cross multiplication of signed pairs agrees with comparing magnitudes
/// and signs separately.
proof fn lemma_eq_by_parts(n1: int, d1: int, n2: int, d2: int, m1: int, m2: int, r: bool)
    requires
        m1 == iabs(n1),
        m2 == iabs(n2),
        d1 >= 0,
        d2 >= 0,
        r == ((m1 * d2 == m2 * d1) && ((n1 < 0 <==> n2 < 0) || m1 * d2 == 0)),
    ensures
        r <==> n1 * d2 == n2 * d1,
{
    assert((n1 * d2 == n2 * d1) <==> ((m1 * d2 == m2 * d1) && ((n1 < 0 <==> n2 < 0) || m1 * d2
        == 0))) by (nonlinear_arith)
        requires
            m1 == iabs(n1),
            m2 == iabs(n2),
            d1 >= 0,
            d2 >= 0,
    ;
}

impl vstd::std_specs::cmp::PartialEqSpecImpl for Fraction {
    open spec fn obeys_eq_spec() -> bool {
        true
    }

    open spec fn eq_spec(&self, other: &Fraction) -> bool {
        self.num() * other.den() == other.num() * self.den()
    }
}

impl Eq for Fraction {

}

impl Default for Fraction {
    /// The zero value, written as 0 over 1.
    fn default() -> (r: Fraction)
        ensures
            r.wf(),
            r.num() == 0,
            r.den() == 1,
    {
        Fraction { numerator: 0, denominator: 1, simplified: true }
    }
}

} // verus!
