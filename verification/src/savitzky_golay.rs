use vstd::prelude::*;

use crate::channeled::{same_shape, spec_frame_uniform, Channeled};
use crate::errors::PipelineError;
use crate::fixed::{lemma_round_div_bounds, round_div, round_div_wide};
use crate::framed::FramedMapper;
use crate::fraction::Fraction;

verus! {

// Exact-rational synthesis of Savitzky-Golay convolution rows via the
// Gram polynomial recurrence; every row is normalized to sum to one.

/// The Gram polynomial value the executable recursion produces, or
/// `None` where an intermediate value leaves the machine range.
pub open spec fn spec_gram_poly(i: int, m: int, k: int, s: int) -> Option<Fraction>
    decreases k + 2,
        when k >= -1
{
    if k > 0 {
        let r0 = spec_gram_poly(i, m, k - 1, s);
        let r1 = spec_gram_poly(i, m, k - 1, s - 1);
        let r2 = spec_gram_poly(i, m, k - 2, s);
        if r0 is None || r1 is None || r2 is None {
            None
        } else {
            spec_gram_step(i, m, k, s, r0.unwrap(), r1.unwrap(), r2.unwrap())
        }
    } else if k == 0 && s == 0 {
        Some(Fraction::spec_from_int(1))
    } else {
        Some(Fraction::spec_from_int(0))
    }
}

/// One step of the recurrence:
/// ((4k-2)/(k(2m-k+1))) * (i*r0 + s*r1) - ((k-1)(2m+k))/(k(2m-k+1)) * r2.
pub open spec fn spec_gram_step(
    i: int,
    m: int,
    k: int,
    s: int,
    r0: Fraction,
    r1: Fraction,
    r2: Fraction,
) -> Option<Fraction> {
    let d = k * (2 * m - k + 1);
    let a = spec_new_frac(4 * k - 2, d);
    let b = spec_new_frac((k - 1) * (2 * m + k), d);
    let t0 = Fraction::spec_from_int(i).spec_try_mul(r0);
    let t1 = Fraction::spec_from_int(s).spec_try_mul(r1);
    if t0 is None || t1 is None {
        None
    } else {
        let sum = t0.unwrap().spec_try_add(t1.unwrap());
        if sum is None {
            None
        } else {
            let left = a.spec_try_mul(sum.unwrap());
            let right = b.spec_try_mul(r2);
            if left is None || right is None {
                None
            } else {
                left.unwrap().spec_try_sub(right.unwrap())
            }
        }
    }
}

/// The fraction `Fraction::new` builds for a non-zero divisor.
pub open spec fn spec_new_frac(n: int, d: int) -> Fraction
    recommends
        d != 0,
{
    Fraction::spec_new(n, d)
}

/// The generalized factorial (a)(a-1)...(a-b+1), as the executable
/// product loop computes it, multiplying upwards.
pub open spec fn spec_gen_fact(a: int, b: int) -> Option<Fraction>
    decreases b,
        when b >= 0
{
    if b <= 0 {
        Some(Fraction::spec_from_int(1))
    } else {
        let rest = spec_gen_fact(a - 1, b - 1);
        if rest is None {
            None
        } else {
            rest.unwrap().spec_try_mul(Fraction::spec_from_int(a))
        }
    }
}

/// The raw (un-normalized) weight: the sum over polynomial orders
/// k = 0..n of (2k+1) * genFact(2m,k)/genFact(2m+k+1,k+1) * gram(i,k,0)
/// * gram(t,k,s).
pub open spec fn spec_weight_sum(i: int, t: int, m: int, n: int, s: int) -> Option<Fraction>
    decreases n + 1,
        when n >= -1
{
    if n < 0 {
        Some(Fraction::spec_from_int(0))
    } else {
        let rest = spec_weight_sum(i, t, m, n - 1, s);
        let term = spec_weight_term(i, t, m, n, s);
        if rest is None || term is None {
            None
        } else {
            rest.unwrap().spec_try_add(term.unwrap())
        }
    }
}

/// One term of the weight sum, at polynomial order k.
pub open spec fn spec_weight_term(i: int, t: int, m: int, k: int, s: int) -> Option<Fraction> {
    let f0 = spec_gen_fact(2 * m, k);
    let f1 = spec_gen_fact(2 * m + k + 1, k + 1);
    let p0 = spec_gram_poly(i, m, k, 0);
    let p1 = spec_gram_poly(t, m, k, s);
    if f0 is None || f1 is None || p0 is None || p1 is None {
        None
    } else {
        let quot = f0.unwrap().spec_try_div(f1.unwrap());
        if quot is None {
            None
        } else {
            let c = Fraction::spec_from_int(2 * k + 1).spec_try_mul(quot.unwrap());
            if c is None {
                None
            } else {
                let cp = c.unwrap().spec_try_mul(p0.unwrap());
                if cp is None {
                    None
                } else {
                    cp.unwrap().spec_try_mul(p1.unwrap())
                }
            }
        }
    }
}

/// The exact rational sum of a row, kept as a numerator/denominator
/// pair over the raw (unreduced) common denominator.
pub open spec fn seq_sum_pair(s: Seq<Fraction>) -> (int, int)
    decreases s.len(),
{
    if s.len() == 0 {
        (0, 1)
    } else {
        let rest = seq_sum_pair(s.drop_last());
        let f = s.last();
        (rest.0 * f.den() + f.num() * rest.1, rest.1 * f.den())
    }
}

/// The whole-row property at the heart of the setup: a normalized row
/// sums to exactly one.
pub open spec fn spec_row_sums_to_one(row: Seq<Fraction>) -> bool {
    &&& seq_sum_pair(row).0 == seq_sum_pair(row).1
    &&& seq_sum_pair(row).1 >= 1
}

/// Bounds under which the recurrence's small integer inputs stay far
/// from the machine limits.
pub open spec fn gram_args_ok(i: int, m: int, k: int, s: int) -> bool {
    &&& 1 <= m <= 30000
    &&& -(m as int) - 1 <= i <= m + 1
    &&& -1 <= k <= 2 * m
    &&& s - k > i64::MIN
    &&& s <= 30000
}

/// The executable Gram polynomial; it mirrors `spec_gram_poly` exactly.
fn gram_poly(i: i64, m: i64, k: i64, s: i64) -> (r: Option<Fraction>)
    requires
        gram_args_ok(i as int, m as int, k as int, s as int),
    ensures
        r == spec_gram_poly(i as int, m as int, k as int, s as int),
        r matches Some(f) ==> f.wf(),
    decreases k + 2,
{
    if k > 0 {
        let r0 = gram_poly(i, m, k - 1, s);
        let r1 = gram_poly(i, m, k - 1, s - 1);
        let r2 = gram_poly(i, m, k - 2, s);
        match (r0, r1, r2) {
            (Some(r0), Some(r1), Some(r2)) => {
                proof {
                    assert(1 <= (k as int) * (2 * (m as int) - k + 1)
                        <= 0x1_0000_0000_0000int && -(0x1_0000_0000_0000int) <= ((k as int) - 1)
                        * (2 * (m as int) + k) <= 0x1_0000_0000_0000int) by (nonlinear_arith)
                        requires
                            1 <= k as int <= 2 * (m as int),
                            1 <= m as int <= 30000,
                    ;
                }
                let d = k * (2 * m - k + 1);
                let a = match Fraction::new(4 * k - 2, d) {
                    Some(a) => a,
                    None => {
                        return None;
                    },
                };
                let b = match Fraction::new((k - 1) * (2 * m + k), d) {
                    Some(b) => b,
                    None => {
                        return None;
                    },
                };
                let t0 = match Fraction::from_int(i).try_mul(r0) {
                    Some(v) => v,
                    None => {
                        return None;
                    },
                };
                let t1 = match Fraction::from_int(s).try_mul(r1) {
                    Some(v) => v,
                    None => {
                        return None;
                    },
                };
                let sum = match t0.try_add(t1) {
                    Some(v) => v,
                    None => {
                        return None;
                    },
                };
                let left = match a.try_mul(sum) {
                    Some(v) => v,
                    None => {
                        return None;
                    },
                };
                let right = match b.try_mul(r2) {
                    Some(v) => v,
                    None => {
                        return None;
                    },
                };
                left.try_sub(right)
            },
            _ => None,
        }
    } else if k == 0 && s == 0 {
        Some(Fraction::from_int(1))
    } else {
        Some(Fraction::from_int(0))
    }
}

/// The executable generalized factorial, by the same upward product as
/// its specification.
fn gen_fact(a: i64, b: i64) -> (r: Option<Fraction>)
    requires
        0 <= b <= 100000,
        -(1000000) <= a - b,
        a <= 1000000,
    ensures
        r == spec_gen_fact(a as int, b as int),
        r matches Some(f) ==> f.wf(),
    decreases b,
{
    if b <= 0 {
        Some(Fraction::from_int(1))
    } else {
        match gen_fact(a - 1, b - 1) {
            None => None,
            Some(rest) => rest.try_mul(Fraction::from_int(a)),
        }
    }
}

/// The raw weight of row position `x` (tap x - m), before normalization.
pub open spec fn spec_raw_weight(m: int, t: int, n: int, s: int, x: int) -> Option<Fraction> {
    spec_weight_sum(x - m, t, m, n, s)
}

/// The running sum of the first `j` raw weights, as the executable fold
/// computes it.
pub open spec fn spec_fold_sum(m: int, t: int, n: int, s: int, j: int) -> Option<Fraction>
    decreases j,
        when j >= 0
{
    if j <= 0 {
        Some(Fraction::spec_from_int(0))
    } else {
        let rest = spec_fold_sum(m, t, n, s, j - 1);
        let w = spec_raw_weight(m, t, n, s, j - 1);
        if rest is None || w is None {
            None
        } else {
            rest.unwrap().spec_try_add(w.unwrap())
        }
    }
}

/// A whole row can be synthesized: every raw weight and the running sum
/// stay in range, the sum is non-zero, and every normalization fits.
pub open spec fn spec_row_ok(m: int, t: int, n: int, s: int) -> bool {
    let fold = spec_fold_sum(m, t, n, s, 2 * m + 1);
    &&& fold is Some
    &&& fold.unwrap().num() != 0
    &&& forall|x: int|
        0 <= x < 2 * m + 1 ==> #[trigger] spec_raw_weight(m, t, n, s, x) is Some
            && spec_raw_weight(m, t, n, s, x).unwrap().spec_try_div(fold.unwrap()) is Some
}

/// A `None` anywhere below `cnt` makes the whole fold `None`.
proof fn lemma_fold_none(m: int, t: int, n: int, s: int, j: int, cnt: int)
    requires
        0 <= j < cnt,
        spec_raw_weight(m, t, n, s, j) is None || spec_fold_sum(m, t, n, s, j + 1) is None,
    ensures
        spec_fold_sum(m, t, n, s, cnt) is None,
    decreases cnt,
{
    if j + 1 == cnt {
    } else {
        lemma_fold_none(m, t, n, s, j, cnt - 1);
    }
}

/// One fold step of the running-sum pair stays aligned with the exact
/// rational sum.
proof fn lemma_pair_add_step(
    big_a: int,
    big_b: int,
    wn: int,
    wd: int,
    accn: int,
    accd: int,
    newn: int,
    newd: int,
)
    requires
        big_b >= 1,
        accd >= 1,
        wd >= 1,
        accn * big_b == big_a * accd,
        newn * (accd * wd) == (accn * wd + wn * accd) * newd,
    ensures
        newn * (big_b * wd) == (big_a * wd + wn * big_b) * newd,
{
    broadcast use vstd::arithmetic::mul::group_mul_properties;

    assert(newn * (big_b * wd) * accd == (newn * (accd * wd)) * big_b);
    assert(((accn * wd + wn * accd) * newd) * big_b == (accn * big_b) * (wd * newd) + (wn * (newd
        * big_b)) * accd);
    assert((big_a * accd) * (wd * newd) + (wn * (newd * big_b)) * accd == ((big_a * wd + wn
        * big_b) * newd) * accd);
    lemma_cancel_factor(
        newn * (big_b * wd),
        (big_a * wd + wn * big_b) * newd,
        accd,
    );
}

/// Cancels a positive common factor on both sides of an equality.
proof fn lemma_cancel_factor(x: int, y: int, c: int)
    requires
        c >= 1,
        x * c == y * c,
    ensures
        x == y,
{
    assert(x == y) by (nonlinear_arith)
        requires
            c >= 1,
            x * c == y * c,
    ;
}

/// One normalization step keeps the partial normalized sum equal to the
/// partial raw sum divided by the total.
proof fn lemma_pair_div_step(
    p: int,
    q: int,
    big_a: int,
    big_b: int,
    wn: int,
    wd: int,
    cn: int,
    cd: int,
    nn: int,
    nd: int,
)
    requires
        q >= 1,
        big_b >= 1,
        wd >= 1,
        nd >= 1,
        cd >= 1,
        p * (big_b * cn) == big_a * cd * q,
        nn * (wd * cn) == (wn * cd) * nd,
    ensures
        (p * nd + nn * q) * ((big_b * wd) * cn) == (big_a * wd + wn * big_b) * cd * (q * nd),
{
    broadcast use vstd::arithmetic::mul::group_mul_properties;

    assert((p * nd + nn * q) * ((big_b * wd) * cn) == (p * (big_b * cn)) * (nd * wd) + (nn * (wd
        * cn)) * (q * big_b));
    assert((big_a * cd * q) * (nd * wd) + ((wn * cd) * nd) * (q * big_b) == (big_a * wd + wn
        * big_b) * cd * (q * nd));
}

/// Computes one normalized coefficient row: every raw weight, their sum,
/// and each weight divided by that sum. The row is exactly the raw
/// weights scaled so they sum to one.
fn weights(m: i64, t: i64, n: i64, s: i64) -> (r: Result<Vec<Fraction>, PipelineError>)
    requires
        1 <= m <= 30000,
        -(m as int) <= t <= m,
        0 <= n <= 2 * m,
        0 <= s <= 30000,
    ensures
        (r is Ok) <==> spec_row_ok(m as int, t as int, n as int, s as int),
        r matches Err(e) ==> (e == PipelineError::Config || e == PipelineError::Transform),
        (r == Err::<Vec<Fraction>, PipelineError>(PipelineError::Config)) <==> (spec_fold_sum(
            m as int,
            t as int,
            n as int,
            s as int,
            2 * m + 1,
        ) is Some && spec_fold_sum(m as int, t as int, n as int, s as int, 2 * m + 1).unwrap().num()
            == 0),
        r matches Ok(v) ==> {
            &&& v@.len() == 2 * m + 1
            &&& (forall|x: int| 0 <= x < v@.len() ==> (#[trigger] v@[x]).wf())
            &&& (forall|x: int|
                0 <= x < v@.len() ==> #[trigger] v@[x] == spec_raw_weight(
                    m as int,
                    t as int,
                    n as int,
                    s as int,
                    x,
                ).unwrap().spec_try_div(
                    spec_fold_sum(m as int, t as int, n as int, s as int, 2 * m + 1).unwrap(),
                ).unwrap())
            &&& spec_row_sums_to_one(v@)
        },
{
    let count = 2 * m + 1;
    let mut ws: Vec<Fraction> = Vec::new();
    let mut x: i64 = 0;
    while x < count
        invariant
            1 <= m <= 30000,
            -(m as int) <= t <= m,
            0 <= n <= 2 * m,
            0 <= s <= 30000,
            count == 2 * m + 1,
            0 <= x <= count,
            ws@.len() == x,
            forall|y: int|
                0 <= y < x ==> spec_raw_weight(m as int, t as int, n as int, s as int, y)
                    == Some(#[trigger] ws@[y]) && ws@[y].wf(),
        decreases count - x,
    {
        match weight(x - m, t, m, n, s) {
            None => {
                proof {
                    lemma_fold_none(
                        m as int,
                        t as int,
                        n as int,
                        s as int,
                        x as int,
                        2 * m as int + 1,
                    );
                }
                return Err(PipelineError::Transform);
            },
            Some(w) => {
                ws.push(w);
            },
        }
        x = x + 1;
    }
    // Fold the raw weights into the exact row sum.
    let mut acc = Fraction::from_int(0);
    let mut j: i64 = 0;
    proof {
        assert(seq_sum_pair(ws@.take(0)) == (0int, 1int)) by {
            assert(ws@.take(0) =~= Seq::<Fraction>::empty());
        }
    }
    while j < count
        invariant
            1 <= m <= 30000,
            count == 2 * m + 1,
            0 <= j <= count,
            ws@.len() == count,
            forall|y: int|
                0 <= y < count ==> spec_raw_weight(m as int, t as int, n as int, s as int, y)
                    == Some(#[trigger] ws@[y]) && ws@[y].wf(),
            acc.wf(),
            Some(acc) == spec_fold_sum(m as int, t as int, n as int, s as int, j as int),
            seq_sum_pair(ws@.take(j as int)).1 >= 1,
            acc.num() * seq_sum_pair(ws@.take(j as int)).1 == seq_sum_pair(ws@.take(j as int)).0
                * acc.den(),
        decreases count - j,
    {
        let w = ws[j as usize];
        let ghost pre_pair = seq_sum_pair(ws@.take(j as int));
        let next = match acc.try_add(w) {
            None => {
                proof {
                    lemma_fold_none(
                        m as int,
                        t as int,
                        n as int,
                        s as int,
                        j as int,
                        2 * m as int + 1,
                    );
                }
                return Err(PipelineError::Transform);
            },
            Some(v) => v,
        };
        proof {
            assert(ws@.take(j as int + 1).drop_last() =~= ws@.take(j as int));
            assert(ws@.take(j as int + 1).last() == ws@[j as int]);
            assert(seq_sum_pair(ws@.take(j as int + 1)).1 >= 1) by (nonlinear_arith)
                requires
                    seq_sum_pair(ws@.take(j as int + 1)).1 == pre_pair.1 * ws@[j as int].den(),
                    pre_pair.1 >= 1,
                    ws@[j as int].den() >= 1,
            ;
            lemma_pair_add_step(
                pre_pair.0,
                pre_pair.1,
                ws@[j as int].num(),
                ws@[j as int].den(),
                acc.num(),
                acc.den(),
                next.num(),
                next.den(),
            );
        }
        acc = next;
        j = j + 1;
    }
    if acc.is_zero() {
        return Err(PipelineError::Config);
    }
    // Normalize: divide every raw weight by the row sum.
    let mut out: Vec<Fraction> = Vec::new();
    let mut x2: i64 = 0;
    let ghost full_pair = seq_sum_pair(ws@);
    proof {
        assert(ws@.take(count as int) =~= ws@);
        assert(out@ =~= Seq::<Fraction>::empty());
        assert(seq_sum_pair(Seq::<Fraction>::empty()) == (0int, 1int));
        assert(ws@.take(0) =~= Seq::<Fraction>::empty());
        assert(seq_sum_pair(out@) == (0int, 1int));
        assert(seq_sum_pair(ws@.take(0)) == (0int, 1int));
        assert(seq_sum_pair(out@).0 * (seq_sum_pair(ws@.take(0)).1 * acc.num()) == seq_sum_pair(
            ws@.take(0),
        ).0 * acc.den() * seq_sum_pair(out@).1) by (nonlinear_arith)
            requires
                seq_sum_pair(out@) == (0int, 1int),
                seq_sum_pair(ws@.take(0)) == (0int, 1int),
        ;
    }
    while x2 < count
        invariant
            1 <= m <= 30000,
            count == 2 * m + 1,
            0 <= x2 <= count,
            ws@.len() == count,
            forall|y: int|
                0 <= y < count ==> spec_raw_weight(m as int, t as int, n as int, s as int, y)
                    == Some(#[trigger] ws@[y]) && ws@[y].wf(),
            acc.wf(),
            acc.num() != 0,
            Some(acc) == spec_fold_sum(m as int, t as int, n as int, s as int, count as int),
            full_pair == seq_sum_pair(ws@),
            full_pair.1 >= 1,
            acc.num() * full_pair.1 == full_pair.0 * acc.den(),
            out@.len() == x2,
            forall|y: int|
                0 <= y < x2 ==> #[trigger] out@[y] == ws@[y].spec_try_div(acc).unwrap()
                    && ws@[y].spec_try_div(acc) is Some && out@[y].wf(),
            seq_sum_pair(out@).1 >= 1,
            seq_sum_pair(out@).0 * (seq_sum_pair(ws@.take(x2 as int)).1 * acc.num())
                == seq_sum_pair(ws@.take(x2 as int)).0 * acc.den() * seq_sum_pair(out@).1,
            seq_sum_pair(ws@.take(x2 as int)).1 >= 1,
        decreases count - x2,
    {
        let w = ws[x2 as usize];
        let ghost pre_out = seq_sum_pair(out@);
        let ghost pre_out_seq = out@;
        let ghost pre_w = seq_sum_pair(ws@.take(x2 as int));
        let nw = match w.try_div(acc) {
            None => {
                proof {
                    assert(spec_raw_weight(m as int, t as int, n as int, s as int, x2 as int)
                        == Some(ws@[x2 as int]));
                    assert(!spec_row_ok(m as int, t as int, n as int, s as int));
                }
                return Err(PipelineError::Transform);
            },
            Some(v) => v,
        };
        out.push(nw);
        proof {
            assert(out@.drop_last() =~= pre_out_seq);
            assert(ws@.take(x2 as int + 1).drop_last() =~= ws@.take(x2 as int));
            assert(ws@.take(x2 as int + 1).last() == ws@[x2 as int]);
            assert(out@.last() == nw);
            lemma_pair_div_step(
                pre_out.0,
                pre_out.1,
                pre_w.0,
                pre_w.1,
                w.num(),
                w.den(),
                acc.num(),
                acc.den(),
                nw.num(),
                nw.den(),
            );
            assert(seq_sum_pair(out@).1 >= 1) by (nonlinear_arith)
                requires
                    seq_sum_pair(out@).1 == pre_out.1 * nw.den(),
                    pre_out.1 >= 1,
                    nw.den() >= 1,
            ;
            assert(seq_sum_pair(ws@.take(x2 as int + 1)).1 >= 1) by (nonlinear_arith)
                requires
                    seq_sum_pair(ws@.take(x2 as int + 1)).1 == pre_w.1 * ws@[x2 as int].den(),
                    pre_w.1 >= 1,
                    ws@[x2 as int].den() >= 1,
            ;
        }
        x2 = x2 + 1;
    }
    proof {
        assert(ws@.take(count as int) =~= ws@);
        let p = seq_sum_pair(out@);
        assert(p.0 * (full_pair.1 * acc.num()) == full_pair.0 * acc.den() * p.1);
        assert(full_pair.0 * acc.den() == acc.num() * full_pair.1);
        assert(p.0 == p.1) by (nonlinear_arith)
            requires
                p.0 * (full_pair.1 * acc.num()) == (acc.num() * full_pair.1) * p.1,
                full_pair.1 >= 1,
                acc.num() != 0,
        ;
        assert forall|x: int|
            0 <= x < 2 * (m as int) + 1 implies #[trigger] spec_raw_weight(
            m as int,
            t as int,
            n as int,
            s as int,
            x,
        ) is Some && spec_raw_weight(m as int, t as int, n as int, s as int, x).unwrap(
        ).spec_try_div(
            spec_fold_sum(m as int, t as int, n as int, s as int, 2 * (m as int) + 1).unwrap(),
        ) is Some by {
            assert(spec_raw_weight(m as int, t as int, n as int, s as int, x) == Some(ws@[x]));
            assert(out@[x] == ws@[x].spec_try_div(acc).unwrap() && ws@[x].spec_try_div(acc)
                is Some);
        }
        assert(spec_row_ok(m as int, t as int, n as int, s as int));
    }
    Ok(out)
}

/// The three dials of the smoother: how many neighbours to consider, the
/// polynomial degree to fit, and which derivative to extract (order zero
/// smooths the data itself).
#[derive(Clone, Copy, Debug, PartialEq, Eq, Hash, Structural)]
pub struct SavitzkyGolayConfig {
    /// The number of coefficients per row; odd, at least 3.
    pub window_size: u64,
    /// The degree of the fitted polynomial.
    pub degree: u64,
    /// The derivative order to extract.
    pub order: u64,
}

impl SavitzkyGolayConfig {
    /// Bounds under which the synthesis arithmetic stays in range.
    pub open spec fn spec_sane(self) -> bool {
        &&& 3 <= self.window_size <= 60001
        &&& self.window_size % 2 == 1
        &&& self.degree <= (self.window_size - 1)
        &&& self.order <= 30000
    }

    /// Computes one normalized coefficient row per time offset
    /// t = -M..=M, each row the exact rational Gram-polynomial weights
    /// scaled to sum to one.
    pub fn compute_coefficients(&self) -> (r: Result<Vec<Vec<Fraction>>, PipelineError>)
        requires
            self.spec_sane(),
        ensures
            (r is Ok) <==> (forall|t: int|
                0 <= t < self.window_size ==> #[trigger] spec_row_ok(
                    ((self.window_size - 1) / 2) as int,
                    t - ((self.window_size - 1) / 2) as int,
                    self.degree as int,
                    self.order as int,
                )),
            r matches Ok(rows) ==> {
                &&& rows@.len() == self.window_size
                &&& (forall|t: int|
                    0 <= t < rows@.len() ==> (#[trigger] rows@[t])@.len() == self.window_size)
                &&& (forall|t: int|
                    0 <= t < rows@.len() ==> spec_row_sums_to_one((#[trigger] rows@[t])@))
                &&& (forall|t: int, x: int|
                    0 <= t < rows@.len() && 0 <= x < (#[trigger] rows@[t])@.len()
                        ==> (#[trigger] (rows@[t])@[x]).wf())
                &&& (forall|t: int, x: int|
                    0 <= t < rows@.len() && 0 <= x < self.window_size
                        ==> (#[trigger] (rows@[t])@[x]) == spec_raw_weight(
                        ((self.window_size - 1) / 2) as int,
                        t - ((self.window_size - 1) / 2) as int,
                        self.degree as int,
                        self.order as int,
                        x,
                    ).unwrap().spec_try_div(
                        spec_fold_sum(
                            ((self.window_size - 1) / 2) as int,
                            t - ((self.window_size - 1) / 2) as int,
                            self.degree as int,
                            self.order as int,
                            self.window_size as int,
                        ).unwrap(),
                    ).unwrap())
            },
            r matches Err(e) ==> (e == PipelineError::Config || e == PipelineError::Transform),
    {
        let m = ((self.window_size - 1) / 2) as i64;
        let window = self.window_size as usize;
        let mut rows: Vec<Vec<Fraction>> = Vec::new();
        let mut t: usize = 0;
        proof {
            assert(2 * (m as int) + 1 == self.window_size) by {
                vstd::arithmetic::div_mod::lemma_fundamental_div_mod(
                    self.window_size as int - 1,
                    2,
                );
            }
        }
        while t < window
            invariant
                self.spec_sane(),
                window == self.window_size,
                1 <= m <= 30000,
                2 * (m as int) + 1 == self.window_size,
                t <= window,
                rows@.len() == t,
                forall|t2: int|
                    0 <= t2 < t ==> #[trigger] spec_row_ok(
                        m as int,
                        t2 - m as int,
                        self.degree as int,
                        self.order as int,
                    ),
                forall|t2: int, x: int|
                    0 <= t2 < t && 0 <= x < (#[trigger] rows@[t2])@.len() ==> (#[trigger] (
                    rows@[t2])@[x]).wf(),
                forall|t2: int|
                    0 <= t2 < t ==> (#[trigger] rows@[t2])@.len() == self.window_size
                        && spec_row_sums_to_one((rows@[t2])@) && (forall|x: int|
                        0 <= x < self.window_size ==> (#[trigger] (rows@[t2])@[x])
                            == spec_raw_weight(
                            m as int,
                            t2 - m as int,
                            self.degree as int,
                            self.order as int,
                            x,
                        ).unwrap().spec_try_div(
                            spec_fold_sum(
                                m as int,
                                t2 - m as int,
                                self.degree as int,
                                self.order as int,
                                self.window_size as int,
                            ).unwrap(),
                        ).unwrap()),
            decreases window - t,
        {
            let t_off = (t as i64) - m;
            let row = match weights(m, t_off, self.degree as i64, self.order as i64) {
                Ok(v) => v,
                Err(e) => {
                    proof {
                        assert(!spec_row_ok(
                            m as int,
                            t - m as int,
                            self.degree as int,
                            self.order as int,
                        ));
                    }
                    return Err(e);
                },
            };
            rows.push(row);
            t = t + 1;
        }
        proof {
            assert(m as int == ((self.window_size - 1) / 2) as int);
            assert forall|t2: int, x: int|
                0 <= t2 < rows@.len() && 0 <= x < self.window_size implies (#[trigger] (
            rows@[t2])@[x]) == spec_raw_weight(
                ((self.window_size - 1) / 2) as int,
                t2 - ((self.window_size - 1) / 2) as int,
                self.degree as int,
                self.order as int,
                x,
            ).unwrap().spec_try_div(
                spec_fold_sum(
                    ((self.window_size - 1) / 2) as int,
                    t2 - ((self.window_size - 1) / 2) as int,
                    self.degree as int,
                    self.order as int,
                    self.window_size as int,
                ).unwrap(),
            ).unwrap() by {
                assert((rows@[t2])@.len() == self.window_size);
            }
        }
        Ok(rows)
    }

    /// Every coefficient row can be synthesized within the machine range.
    pub open spec fn spec_rows_ok(self) -> bool {
        forall|t: int|
            0 <= t < self.window_size ==> #[trigger] spec_row_ok(
                ((self.window_size - 1) / 2) as int,
                t - ((self.window_size - 1) / 2) as int,
                self.degree as int,
                self.order as int,
            )
    }

    /// The full table of normalized coefficient rows this configuration
    /// stands for, entry by entry.
    pub open spec fn spec_coeff_table(self) -> Seq<Seq<Fraction>> {
        let m = ((self.window_size - 1) / 2) as int;
        Seq::new(
            self.window_size as nat,
            |t: int|
                Seq::new(
                    self.window_size as nat,
                    |x: int|
                        spec_raw_weight(
                            m,
                            t - m,
                            self.degree as int,
                            self.order as int,
                            x,
                        ).unwrap().spec_try_div(
                            spec_fold_sum(
                                m,
                                t - m,
                                self.degree as int,
                                self.order as int,
                                self.window_size as int,
                            ).unwrap(),
                        ).unwrap(),
                ),
        )
    }

    /// Synthesizes the rows and converts them into the integer form the
    /// per-tick mapper convolves with: this succeeds exactly when every
    /// row can be synthesized and the resulting table is representable
    /// on capped integer rows. The frame size is fixed by the pipeline
    /// contract; the mapper keeps its declared size equal to it.
    pub fn into_mapper(self, _size: usize) -> (r: Result<SavitzkyGolayMapper, PipelineError>)
        requires
            self.spec_sane(),
        ensures
            (r is Ok) <==> (self.spec_rows_ok()
                && SavitzkyGolayMapper::spec_rows_representable(self.spec_coeff_table())),
            r matches Ok(mapper) ==> mapper.spec_table_sane() && mapper.spec_rows().len()
                == self.window_size,
            r matches Err(e) ==> (e == PipelineError::Config || e == PipelineError::Transform),
    {
        let rows = match self.compute_coefficients() {
            Ok(v) => v,
            Err(e) => {
                proof {
                    assert(!self.spec_rows_ok());
                }
                return Err(e);
            },
        };
        proof {
            assert(rows@.map_values(|v: Vec<Fraction>| v@) =~~= self.spec_coeff_table());
        }
        SavitzkyGolayMapper::from_rows(&rows)
    }
}

/// The executable weight sum over polynomial orders.
fn weight(i: i64, t: i64, m: i64, n: i64, s: i64) -> (r: Option<Fraction>)
    requires
        1 <= m <= 30000,
        -(m as int) - 1 <= i <= m + 1,
        -(m as int) - 1 <= t <= m + 1,
        -1 <= n <= 2 * m,
        0 <= s <= 30000,
    ensures
        r == spec_weight_sum(i as int, t as int, m as int, n as int, s as int),
        r matches Some(f) ==> f.wf(),
    decreases n + 1,
{
    if n < 0 {
        Some(Fraction::from_int(0))
    } else {
        let rest = match weight(i, t, m, n - 1, s) {
            None => {
                return None;
            },
            Some(v) => v,
        };
        let f0 = match gen_fact(2 * m, n) {
            None => {
                return None;
            },
            Some(v) => v,
        };
        let f1 = match gen_fact(2 * m + n + 1, n + 1) {
            None => {
                return None;
            },
            Some(v) => v,
        };
        let p0 = match gram_poly(i, m, n, 0) {
            None => {
                return None;
            },
            Some(v) => v,
        };
        let p1 = match gram_poly(t, m, n, s) {
            None => {
                return None;
            },
            Some(v) => v,
        };
        let quot = match f0.try_div(f1) {
            None => {
                return None;
            },
            Some(v) => v,
        };
        let c = match Fraction::from_int(2 * n + 1).try_mul(quot) {
            None => {
                return None;
            },
            Some(v) => v,
        };
        let cp = match c.try_mul(p0) {
            None => {
                return None;
            },
            Some(v) => v,
        };
        let term = match cp.try_mul(p1) {
            None => {
                return None;
            },
            Some(v) => v,
        };
        rest.try_add(term)
    }
}


/// The window placement for output position `next` of a frame of length
/// `len` under a window of width `w`: interior positions centre the
/// window, edge positions pin it to the edge and shift the row instead.
pub open spec fn spec_win_start(w: int, len: int, next: int) -> int
    recommends
        3 <= w <= len,
{
    let half = w / 2;
    let tail_at = len - half - 1;
    if next <= half {
        0
    } else if next > tail_at {
        len - w
    } else {
        next - half
    }
}

/// The row picked for output position `next`: the centre row in the
/// interior, shifted by exactly the window's own shift at the edges.
pub open spec fn spec_win_row(w: int, len: int, next: int) -> int
    recommends
        3 <= w <= len,
{
    let half = w / 2;
    let tail_at = len - half - 1;
    if next <= half {
        next
    } else if next > tail_at {
        next - tail_at + half
    } else {
        half
    }
}

/// The convolution of one channel over the first `p` taps.
pub open spec fn spec_conv_ch(
    s: Seq<Channeled<i64>>,
    start: int,
    row: Seq<i64>,
    p: int,
    right: bool,
) -> int
    decreases p,
{
    if p <= 0 {
        0
    } else {
        spec_conv_ch(s, start, row, p - 1, right) + row[p - 1] * (match s[start + p - 1] {
            Channeled::Mono(v) => v as int,
            Channeled::Stereo(a, b) => if right {
                b as int
            } else {
                a as int
            },
        })
    }
}

/// The smoothed value at one output position: the selected row convolved
/// against the selected slice, divided by the row's denominator.
pub open spec fn spec_sg_out(
    s: Seq<Channeled<i64>>,
    start: int,
    row: Seq<i64>,
    den: int,
) -> Channeled<i64> {
    match s[start] {
        Channeled::Mono(_) => Channeled::Mono(
            round_div(spec_conv_ch(s, start, row, row.len() as int, false), den) as i64,
        ),
        Channeled::Stereo(_, _) => Channeled::Stereo(
            round_div(spec_conv_ch(s, start, row, row.len() as int, false), den) as i64,
            round_div(spec_conv_ch(s, start, row, row.len() as int, true), den) as i64,
        ),
    }
}

/// The rounded convolution at one output position stays representable.
pub open spec fn spec_sg_in_range(
    s: Seq<Channeled<i64>>,
    start: int,
    row: Seq<i64>,
    den: int,
) -> bool {
    &&& -(i64::MAX as int) <= round_div(spec_conv_ch(s, start, row, row.len() as int, false), den)
        <= i64::MAX as int
    &&& -(i64::MAX as int) <= round_div(spec_conv_ch(s, start, row, row.len() as int, true), den)
        <= i64::MAX as int
}

/// Every output position's rounded convolution stays representable.
pub open spec fn spec_sg_all_in_range(
    s: Seq<Channeled<i64>>,
    rows: Seq<Seq<i64>>,
    dens: Seq<i64>,
) -> bool {
    forall|next: int|
        0 <= next < s.len() ==> spec_sg_in_range(
            s,
            spec_win_start(rows.len() as int, s.len() as int, next),
            #[trigger] rows[spec_win_row(rows.len() as int, s.len() as int, next)],
            dens[spec_win_row(rows.len() as int, s.len() as int, next)] as int,
        )
}

/// Every value in the window starting at `start` shares its first
/// value's shape.
pub open spec fn spec_win_shape_clean(s: Seq<Channeled<i64>>, start: int, w: int) -> bool {
    forall|p: int| 0 <= p < w ==> same_shape(#[trigger] s[start + p], s[start])
}

/// Every element shares the shape of the first one, by hopping through
/// the overlapping shape-clean windows.
proof fn lemma_anchor_shape(s: Seq<Channeled<i64>>, w: int, i: int)
    requires
        3 <= w <= s.len(),
        0 <= i < s.len(),
        forall|st: int| 0 <= st <= s.len() - w ==> #[trigger] spec_win_shape_clean(s, st, w),
    ensures
        same_shape(s[i], s[0]),
    decreases i,
{
    if i < w {
        assert(spec_win_shape_clean(s, 0, w));
        assert(same_shape(s[0 + i], s[0]));
    } else {
        let st = i - w + 1;
        assert(spec_win_shape_clean(s, st, w));
        assert(same_shape(s[st + (w - 1)], s[st]));
        lemma_anchor_shape(s, w, st);
    }
}

/// A frame whose every window is shape-clean carries one shape overall.
proof fn lemma_windows_give_uniform(s: Seq<Channeled<i64>>, w: int)
    requires
        3 <= w <= s.len(),
        forall|st: int| 0 <= st <= s.len() - w ==> #[trigger] spec_win_shape_clean(s, st, w),
    ensures
        spec_frame_uniform(s),
{
    assert forall|i: int, j: int|
        0 <= i < s.len() && 0 <= j < s.len() implies same_shape(#[trigger] s[i], #[trigger] s[j]) by {
        lemma_anchor_shape(s, w, i);
        lemma_anchor_shape(s, w, j);
    }
}

/// Applies precomputed convolution rows to every frame, one weighted sum
/// per output position. The rows are held as integer numerators over one
/// denominator per row, so each tap is a single integer multiply.
pub struct SavitzkyGolayMapper {
    rows: Vec<Vec<i64>>,
    dens: Vec<i64>,
}

impl SavitzkyGolayMapper {
    pub closed spec fn spec_rows(&self) -> Seq<Seq<i64>> {
        self.rows@.map_values(|v: Vec<i64>| v@)
    }

    pub closed spec fn spec_dens(&self) -> Seq<i64> {
        self.dens@
    }

    /// A usable table: an odd number of rows, each as wide as the table
    /// is tall, with small entries and positive denominators.
    pub open spec fn spec_table_sane(&self) -> bool {
        &&& 3 <= self.spec_rows().len() <= 60001
        &&& self.spec_rows().len() % 2 == 1
        &&& self.spec_dens().len() == self.spec_rows().len()
        &&& (forall|t: int|
            0 <= t < self.spec_rows().len() ==> (#[trigger] self.spec_rows()[t]).len()
                == self.spec_rows().len())
        &&& (forall|t: int|
            0 <= t < self.spec_dens().len() ==> 1 <= #[trigger] self.spec_dens()[t]
                <= 0x100_0000_0000)
        &&& (forall|t: int, p: int|
            0 <= t < self.spec_rows().len() && 0 <= p < self.spec_rows().len()
                ==> -0x100_0000_0000 <= #[trigger] self.spec_rows()[t][p] <= 0x100_0000_0000)
    }

    /// The shared denominator the conversion folds up for one row: the
    /// running least common multiple of the entry denominators, `None`
    /// as soon as a denominator or the running value leaves the cap.
    pub closed spec fn spec_row_shared_den(row: Seq<Fraction>, p: int) -> Option<int>
        decreases p,
            when p >= 0
    {
        if p <= 0 {
            Some(1int)
        } else {
            let rest = Self::spec_row_shared_den(row, p - 1);
            if rest is None {
                None
            } else {
                let d = rest.unwrap();
                let fd = row[p - 1].den();
                if fd > 0x100_0000_0000 {
                    None
                } else {
                    let l = (d / crate::fraction::spec_gcd(d, fd)) * fd;
                    if l > 0x100_0000_0000 {
                        None
                    } else {
                        Some(l)
                    }
                }
            }
        }
    }

    /// Every entry of the row prefix scales exactly onto the shared
    /// denominator without leaving the entry cap.
    pub closed spec fn spec_row_scaled_ok(row: Seq<Fraction>, d: int, p: int) -> bool
        decreases p,
            when p >= 0
    {
        if p <= 0 {
            true
        } else {
            Self::spec_row_scaled_ok(row, d, p - 1) && {
                let f = row[p - 1];
                &&& f.den() <= 0x100_0000_0000
                &&& -0x100_0000_0000 <= f.num() * (d / f.den()) <= 0x100_0000_0000
                &&& (f.num() * (d / f.den())) * f.den() == f.num() * d
            }
        }
    }

    /// The whole table converts: an odd number of square rows inside the
    /// size bounds, each with a capped shared denominator onto which
    /// every entry scales exactly.
    pub open spec fn spec_rows_representable(rows: Seq<Seq<Fraction>>) -> bool {
        &&& 3 <= rows.len() <= 60001
        &&& rows.len() % 2 == 1
        &&& forall|t: int|
            0 <= t < rows.len() ==> (#[trigger] rows[t]).len() == rows.len()
                && Self::spec_row_shared_den(rows[t], rows.len() as int) is Some
                && Self::spec_row_scaled_ok(
                rows[t],
                Self::spec_row_shared_den(rows[t], rows.len() as int).unwrap(),
                rows.len() as int,
            )
    }

    /// Converts the exact rational rows into integer rows, verifying the
    /// cross-multiplied value of every entry as it goes; a row whose
    /// values cannot be scaled onto one denominator within the entry
    /// bounds is a transform failure.
    pub fn from_rows(rows: &Vec<Vec<Fraction>>) -> (r: Result<
        SavitzkyGolayMapper,
        PipelineError,
    >)
        requires
            forall|t: int| 0 <= t < rows@.len() ==> (forall|p: int|
                0 <= p < (#[trigger] rows@[t])@.len() ==> (#[trigger] (rows@[t])@[p]).wf()),
        ensures
            (r is Ok) <==> Self::spec_rows_representable(
                rows@.map_values(|v: Vec<Fraction>| v@),
            ),
            r matches Ok(m) ==> {
                &&& m.spec_table_sane()
                &&& m.spec_rows().len() == rows@.len()
                &&& (forall|t: int, p: int|
                    0 <= t < rows@.len() && 0 <= p < (#[trigger] rows@[t])@.len() && (
                    rows@[t])@.len() == rows@.len() ==> #[trigger] m.spec_rows()[t][p] * (
                    rows@[t])@[p].den() == (rows@[t])@[p].num() * m.spec_dens()[t])
            },
            r matches Err(e) ==> e == PipelineError::Transform,
    {
        let ghost rseq = rows@.map_values(|v: Vec<Fraction>| v@);
        if rows.len() < 3 || rows.len() > 60001 || rows.len() % 2 != 1 {
            proof {
                assert(rseq.len() == rows@.len());
                assert(!Self::spec_rows_representable(rseq));
            }
            return Err(PipelineError::Transform);
        }
        let w = rows.len();
        let mut int_rows: Vec<Vec<i64>> = Vec::new();
        let mut dens: Vec<i64> = Vec::new();
        let mut t: usize = 0;
        while t < w
            invariant
                rseq == rows@.map_values(|v: Vec<Fraction>| v@),
                rseq.len() == w,
                3 <= w <= 60001,
                w % 2 == 1,
                rows@.len() == w,
                t <= w,
                int_rows@.len() == t,
                dens@.len() == t,
                forall|t2: int|
                    0 <= t2 < t ==> (#[trigger] rseq[t2]).len() == w
                        && Self::spec_row_shared_den(rseq[t2], w as int) is Some
                        && Self::spec_row_scaled_ok(
                        rseq[t2],
                        Self::spec_row_shared_den(rseq[t2], w as int).unwrap(),
                        w as int,
                    ),
                forall|t2: int| 0 <= t2 < rows@.len() ==> (forall|p: int|
                    0 <= p < (#[trigger] rows@[t2])@.len() ==> (#[trigger] (rows@[t2])@[p]).wf()),
                forall|t2: int|
                    0 <= t2 < t ==> (#[trigger] int_rows@[t2])@.len() == w && 1 <= dens@[t2]
                        <= 0x100_0000_0000 && (forall|p: int|
                        0 <= p < w ==> -0x100_0000_0000 <= #[trigger] (int_rows@[t2])@[p]
                            <= 0x100_0000_0000),
                forall|t2: int, p: int|
                    0 <= t2 < t && 0 <= p < (#[trigger] rows@[t2])@.len() && (rows@[t2])@.len()
                        == w ==> #[trigger] (int_rows@[t2])@[p] * (rows@[t2])@[p].den() == (
                    rows@[t2])@[p].num() * dens@[t2],
            decreases w - t,
        {
            if rows[t].len() != w {
                proof {
                    assert(rseq[t as int].len() != w);
                    assert(!Self::spec_rows_representable(rseq));
                }
                return Err(PipelineError::Transform);
            }
            proof {
                assert(rseq[t as int] == (rows@[t as int])@);
            }
            // One shared denominator for the row: the running least
            // common multiple of the entry denominators, capped.
            let mut den: i64 = 1;
            let mut p: usize = 0;
            while p < w
                invariant
                    rseq == rows@.map_values(|v: Vec<Fraction>| v@),
                    rseq.len() == w,
                    rseq[t as int] == (rows@[t as int])@,
                    3 <= w <= 60001,
                    rows@.len() == w,
                    t < w,
                    (rows@[t as int])@.len() == w,
                    p <= w,
                    1 <= den <= 0x100_0000_0000,
                    Self::spec_row_shared_den(rseq[t as int], p as int) == Some(den as int),
                    forall|t2: int| 0 <= t2 < rows@.len() ==> (forall|p2: int|
                        0 <= p2 < (#[trigger] rows@[t2])@.len() ==> (#[trigger] (
                        rows@[t2])@[p2]).wf()),
                decreases w - p,
            {
                proof {
                    assert((rows@[t as int])@[p as int].wf());
                }
                let fd = rows[t][p].denom();
                if fd > 0x100_0000_0000u64 {
                    proof {
                        assert(Self::spec_row_shared_den(rseq[t as int], p as int + 1) is None);
                        lemma_shared_den_none(rseq[t as int], p as int + 1, w as int);
                        assert(!Self::spec_rows_representable(rseq));
                    }
                    return Err(PipelineError::Transform);
                }
                let fdi = fd as i64;
                let g = crate::fraction::gcd(den, fdi);
                let step = den / g;
                proof {
                    vstd::arithmetic::div_mod::lemma_div_non_zero(den as int, g as int);
                    crate::fraction::lemma_i64_prod_in_i128(step as int, fdi as int);
                }
                let wide = (step as i128) * (fdi as i128);
                if wide > 0x100_0000_0000i128 {
                    proof {
                        assert(Self::spec_row_shared_den(rseq[t as int], p as int + 1) is None);
                        lemma_shared_den_none(rseq[t as int], p as int + 1, w as int);
                        assert(!Self::spec_rows_representable(rseq));
                    }
                    return Err(PipelineError::Transform);
                }
                den = wide as i64;
                proof {
                    assert(den >= 1) by (nonlinear_arith)
                        requires
                            den == step * fdi,
                            step >= 1,
                            fdi >= 1,
                    ;
                    assert(Self::spec_row_shared_den(rseq[t as int], p as int + 1) == Some(
                        den as int,
                    ));
                }
                p = p + 1;
            }
            // Scale every entry onto the shared denominator, verifying
            // the exact value by cross multiplication.
            let mut int_row: Vec<i64> = Vec::new();
            let mut p2: usize = 0;
            while p2 < w
                invariant
                    rseq == rows@.map_values(|v: Vec<Fraction>| v@),
                    rseq.len() == w,
                    rseq[t as int] == (rows@[t as int])@,
                    3 <= w <= 60001,
                    rows@.len() == w,
                    t < w,
                    (rows@[t as int])@.len() == w,
                    p2 <= w,
                    1 <= den <= 0x100_0000_0000,
                    Self::spec_row_shared_den(rseq[t as int], w as int) == Some(den as int),
                    Self::spec_row_scaled_ok(rseq[t as int], den as int, p2 as int),
                    int_row@.len() == p2,
                    forall|t2: int| 0 <= t2 < rows@.len() ==> (forall|p3: int|
                        0 <= p3 < (#[trigger] rows@[t2])@.len() ==> (#[trigger] (
                        rows@[t2])@[p3]).wf()),
                    forall|p3: int|
                        0 <= p3 < p2 ==> -0x100_0000_0000 <= #[trigger] int_row@[p3]
                            <= 0x100_0000_0000 && int_row@[p3] * (rows@[t as int])@[p3].den() == (
                        rows@[t as int])@[p3].num() * den,
                decreases w - p2,
            {
                proof {
                    assert((rows@[t as int])@[p2 as int].wf());
                }
                let f = rows[t][p2];
                let fd = f.denom();
                if fd > 0x100_0000_0000u64 {
                    proof {
                        assert(!Self::spec_row_scaled_ok(
                            rseq[t as int],
                            den as int,
                            p2 as int + 1,
                        ));
                        if Self::spec_row_scaled_ok(rseq[t as int], den as int, w as int) {
                            lemma_scaled_prefix(
                                rseq[t as int],
                                den as int,
                                p2 as int + 1,
                                w as int,
                            );
                        }
                        assert(!Self::spec_rows_representable(rseq));
                    }
                    return Err(PipelineError::Transform);
                }
                let scale = den / (fd as i64);
                proof {
                    crate::fraction::lemma_i64_prod_in_i128(f.num(), scale as int);
                }
                let wide = (f.numer() as i128) * (scale as i128);
                if wide > 0x100_0000_0000i128 || wide < -0x100_0000_0000i128 {
                    proof {
                        assert(!Self::spec_row_scaled_ok(
                            rseq[t as int],
                            den as int,
                            p2 as int + 1,
                        ));
                        if Self::spec_row_scaled_ok(rseq[t as int], den as int, w as int) {
                            lemma_scaled_prefix(
                                rseq[t as int],
                                den as int,
                                p2 as int + 1,
                                w as int,
                            );
                        }
                        assert(!Self::spec_rows_representable(rseq));
                    }
                    return Err(PipelineError::Transform);
                }
                let scaled = wide as i64;
                // The defining check: scaled/den equals the entry exactly.
                proof {
                    crate::fraction::lemma_i64_prod_in_i128(scaled as int, f.den());
                    crate::fraction::lemma_i64_prod_in_i128(f.num(), den as int);
                }
                if (scaled as i128) * (fd as i128) != (f.numer() as i128) * (den as i128) {
                    proof {
                        assert(!Self::spec_row_scaled_ok(
                            rseq[t as int],
                            den as int,
                            p2 as int + 1,
                        ));
                        if Self::spec_row_scaled_ok(rseq[t as int], den as int, w as int) {
                            lemma_scaled_prefix(
                                rseq[t as int],
                                den as int,
                                p2 as int + 1,
                                w as int,
                            );
                        }
                        assert(!Self::spec_rows_representable(rseq));
                    }
                    return Err(PipelineError::Transform);
                }
                int_row.push(scaled);
                proof {
                    assert(Self::spec_row_scaled_ok(
                        rseq[t as int],
                        den as int,
                        p2 as int + 1,
                    ));
                }
                p2 = p2 + 1;
            }
            int_rows.push(int_row);
            dens.push(den);
            proof {
                assert(int_rows@.map_values(|v: Vec<i64>| v@)[t as int] == int_row@);
            }
            t = t + 1;
        }
        let out = SavitzkyGolayMapper { rows: int_rows, dens };
        proof {
            assert(out.spec_rows().len() == w);
            assert(out.spec_dens().len() == w);
            assert forall|t2: int| 0 <= t2 < w implies (#[trigger] out.spec_rows()[t2]).len()
                == w by {
                assert(out.spec_rows()[t2] == int_rows@[t2]@);
                assert((int_rows@[t2])@.len() == w);
            }
            assert forall|t2: int| 0 <= t2 < w implies 1 <= #[trigger] out.spec_dens()[t2]
                <= 0x100_0000_0000 by {
                assert(out.spec_rows()[t2] == int_rows@[t2]@);
                assert((int_rows@[t2])@.len() == w);
            }
            assert forall|t2: int, p: int|
                0 <= t2 < w && 0 <= p < w implies -0x100_0000_0000
                <= #[trigger] out.spec_rows()[t2][p] <= 0x100_0000_0000 by {
                assert(out.spec_rows()[t2] == int_rows@[t2]@);
            }
            assert forall|t2: int, p: int|
                0 <= t2 < rows@.len() && 0 <= p < (#[trigger] rows@[t2])@.len() && (
            rows@[t2])@.len() == rows@.len() implies #[trigger] out.spec_rows()[t2][p] * (
            rows@[t2])@[p].den() == (rows@[t2])@[p].num() * out.spec_dens()[t2] by {
                assert(out.spec_rows()[t2] == int_rows@[t2]@);
            }
        }
        Ok(out)
    }

    /// Verifies the table bounds at run time, mirroring the sanity
    /// predicate exactly.
    fn check_table(&self) -> (r: bool)
        ensures
            r == self.spec_table_sane(),
    {
        let w = self.rows.len();
        if w < 3 || w > 60001 || w % 2 != 1 || self.dens.len() != w {
            return false;
        }
        let mut t: usize = 0;
        while t < w
            invariant
                3 <= w <= 60001,
                self.spec_rows().len() == w,
                self.spec_dens().len() == w,
                w % 2 == 1,
                t <= w,
                forall|t2: int|
                    0 <= t2 < t ==> (#[trigger] self.spec_rows()[t2]).len() == w,
                forall|t2: int|
                    0 <= t2 < t ==> 1 <= #[trigger] self.spec_dens()[t2] <= 0x100_0000_0000,
                forall|t2: int, p: int|
                    0 <= t2 < t && 0 <= p < w ==> -0x100_0000_0000
                        <= #[trigger] self.spec_rows()[t2][p] <= 0x100_0000_0000,
            decreases w - t,
        {
            proof {
                assert(self.spec_rows()[t as int] == self.rows@[t as int]@);
            }
            if self.rows[t].len() != w {
                return false;
            }
            if self.dens[t] < 1 || self.dens[t] > 0x100_0000_0000i64 {
                return false;
            }
            let mut p: usize = 0;
            while p < w
                invariant
                    t < w,
                    self.spec_rows().len() == w,
                    (#[trigger] self.spec_rows()[t as int]).len() == w,
                    self.spec_rows()[t as int] == self.rows@[t as int]@,
                    p <= w,
                    forall|p2: int|
                        0 <= p2 < p ==> -0x100_0000_0000 <= #[trigger] self.spec_rows()[t as int][p2]
                            <= 0x100_0000_0000,
                decreases w - p,
            {
                let v = self.rows[t][p];
                if v < -0x100_0000_0000i64 || v > 0x100_0000_0000i64 {
                    proof {
                        assert(self.spec_rows()[t as int][p as int] == v);
                    }
                    return false;
                }
                p = p + 1;
            }
            t = t + 1;
        }
        true
    }
}

/// A fold already `None` stays `None` as the prefix grows.
proof fn lemma_shared_den_none(row: Seq<Fraction>, p: int, q: int)
    requires
        0 <= p <= q,
        SavitzkyGolayMapper::spec_row_shared_den(row, p) is None,
    ensures
        SavitzkyGolayMapper::spec_row_shared_den(row, q) is None,
    decreases q,
{
    if q > p {
        lemma_shared_den_none(row, p, q - 1);
    }
}

/// Scalability of a prefix follows from scalability of the whole row.
proof fn lemma_scaled_prefix(row: Seq<Fraction>, d: int, p: int, q: int)
    requires
        0 <= p <= q,
        SavitzkyGolayMapper::spec_row_scaled_ok(row, d, q),
    ensures
        SavitzkyGolayMapper::spec_row_scaled_ok(row, d, p),
    decreases q,
{
    if q > p {
        lemma_scaled_prefix(row, d, p, q - 1);
    }
}

impl FramedMapper<Channeled<i64>, Channeled<i64>> for SavitzkyGolayMapper {
    open spec fn spec_frame_size(&self, orig: nat) -> nat {
        orig
    }

    fn map_frame_size(&self, orig: usize) -> (r: usize) {
        orig
    }

    /// Smooths one frame: each output is the selected row convolved
    /// against the correspondingly placed input slice. Frames shorter
    /// than the window produce no output; on a full one-shape frame the
    /// stage must succeed unless a smoothed value leaves the machine
    /// range, and a mixed frame must fail.
    fn map(&mut self, input: &Vec<Channeled<i64>>, out: &mut Vec<Channeled<i64>>) -> (r: Result<
        bool,
        PipelineError,
    >)
        ensures
            final(self).spec_rows() == old(self).spec_rows(),
            final(self).spec_dens() == old(self).spec_dens(),
            r matches Err(e) ==> (e == PipelineError::Transform
                || e == PipelineError::ChannelMismatch),
            !old(self).spec_table_sane() ==> r == Err::<bool, PipelineError>(
                PipelineError::Transform,
            ),
            (r == Ok::<bool, PipelineError>(false)) <==> (old(self).spec_table_sane()
                && input@.len() < old(self).spec_rows().len()),
            (old(self).spec_table_sane() && input@.len() >= old(self).spec_rows().len()
                && spec_frame_uniform(input@) && spec_sg_all_in_range(
                input@,
                old(self).spec_rows(),
                old(self).spec_dens(),
            )) ==> r == Ok::<bool, PipelineError>(true),
            (old(self).spec_table_sane() && input@.len() >= old(self).spec_rows().len()
                && !spec_frame_uniform(input@)) ==> r is Err,
            (old(self).spec_table_sane() && input@.len() >= old(self).spec_rows().len()
                && spec_frame_uniform(input@)) ==> ((r == Err::<bool, PipelineError>(
                PipelineError::Transform,
            )) <==> !spec_sg_all_in_range(input@, old(self).spec_rows(), old(self).spec_dens())),
            (r matches Ok(p) && p) ==> {
                &&& final(out)@.len() == input@.len()
                &&& (forall|next: int|
                    0 <= next < input@.len() ==> #[trigger] final(out)@[next] == spec_sg_out(
                        input@,
                        spec_win_start(
                            old(self).spec_rows().len() as int,
                            input@.len() as int,
                            next,
                        ),
                        old(self).spec_rows()[spec_win_row(
                            old(self).spec_rows().len() as int,
                            input@.len() as int,
                            next,
                        )],
                        old(self).spec_dens()[spec_win_row(
                            old(self).spec_rows().len() as int,
                            input@.len() as int,
                            next,
                        )] as int,
                    ))
            },
            r == Err::<bool, PipelineError>(PipelineError::ChannelMismatch) ==> exists|
                i: int,
                j: int,
            |
                0 <= i < input@.len() && 0 <= j < input@.len() && !same_shape(
                    #[trigger] input@[i],
                    #[trigger] input@[j],
                ),
    {
        if !self.check_table() {
            return Err(PipelineError::Transform);
        }
        let w = self.rows.len();
        let len = input.len();
        if len < w {
            return Ok(false);
        }
        let half = w / 2;
        let tail_at = len - half - 1;
        proof {
            assert(2 * (half as int) < w);
            assert(tail_at as int == len - (w / 2) - 1);
        }
        out.clear();
        let mut next: usize = 0;
        while next < len
            invariant
                self.spec_table_sane(),
                w == self.spec_rows().len(),
                3 <= w <= len,
                input@.len() == len,
                half == w / 2,
                2 * half < w,
                tail_at == len - half - 1,
                next <= len,
                out@.len() == next,
                forall|n2: int|
                    0 <= n2 < next ==> #[trigger] out@[n2] == spec_sg_out(
                        input@,
                        spec_win_start(w as int, len as int, n2),
                        self.spec_rows()[spec_win_row(w as int, len as int, n2)],
                        self.spec_dens()[spec_win_row(w as int, len as int, n2)] as int,
                    ),
                forall|n2: int|
                    0 <= n2 < next ==> spec_sg_in_range(
                        input@,
                        spec_win_start(w as int, len as int, n2),
                        #[trigger] self.spec_rows()[spec_win_row(w as int, len as int, n2)],
                        self.spec_dens()[spec_win_row(w as int, len as int, n2)] as int,
                    ),
                forall|n2: int|
                    0 <= n2 < next ==> #[trigger] spec_win_shape_clean(
                        input@,
                        spec_win_start(w as int, len as int, n2),
                        w as int,
                    ),
            decreases len - next,
        {
            let (start, row_idx) = if next <= half {
                (0usize, next)
            } else if next > tail_at {
                (len - w, next - tail_at + half)
            } else {
                (next - half, half)
            };
            proof {
                assert(start as int == spec_win_start(w as int, len as int, next as int));
                assert(row_idx as int == spec_win_row(w as int, len as int, next as int));
                assert(row_idx < w);
                assert(start + w <= len);
            }
            let den = self.dens[row_idx];
            let stereo = match input[start] {
                Channeled::Mono(_) => false,
                Channeled::Stereo(_, _) => true,
            };
            let mut acc_l: i128 = 0;
            let mut acc_r: i128 = 0;
            let mut p: usize = 0;
            while p < w
                invariant
                    self.spec_table_sane(),
                    w == self.spec_rows().len(),
                    3 <= w <= len,
                    input@.len() == len,
                    row_idx < w,
                    (#[trigger] self.spec_rows()[row_idx as int]).len() == w,
                    start + w <= len,
                    p <= w,
                    stereo == (input@[start as int] is Stereo),
                    forall|p2: int|
                        0 <= p2 < p ==> same_shape(#[trigger] input@[start + p2], input@[
                        start as int]),
                    acc_l == spec_conv_ch(
                        input@,
                        start as int,
                        self.spec_rows()[row_idx as int],
                        p as int,
                        false,
                    ),
                    acc_r == spec_conv_ch(
                        input@,
                        start as int,
                        self.spec_rows()[row_idx as int],
                        p as int,
                        true,
                    ),
                    -(p as int) * 0x200_0000_0000_0000_0000_0000_0000int <= acc_l <= (p as int)
                        * 0x200_0000_0000_0000_0000_0000_0000int,
                    -(p as int) * 0x200_0000_0000_0000_0000_0000_0000int <= acc_r <= (p as int)
                        * 0x200_0000_0000_0000_0000_0000_0000int,
                decreases w - p,
            {
                proof {
                    assert(self.spec_rows()[row_idx as int] == self.rows@[row_idx as int]@);
                }
                let c = self.rows[row_idx][p];
                let v = input[start + p];
                let (xl, xr) = match (stereo, v) {
                    (false, Channeled::Mono(x)) => (x, x),
                    (true, Channeled::Stereo(a, b)) => (a, b),
                    _ => {
                        proof {
                            assert(!same_shape(
                                input@[start as int + p],
                                input@[start as int],
                            ));
                            assert(!spec_frame_uniform(input@));
                        }
                        return Err(PipelineError::ChannelMismatch);
                    },
                };
                proof {
                    crate::fraction::lemma_i64_prod_in_i128(c as int, xl as int);
                    crate::fraction::lemma_i64_prod_in_i128(c as int, xr as int);
                    assert(-0x100_0000_0000_0000_0000_0000_0000int <= (c as int) * (xl as int)
                        <= 0x100_0000_0000_0000_0000_0000_0000int
                        && -0x100_0000_0000_0000_0000_0000_0000int <= (c as int) * (xr as int)
                        <= 0x100_0000_0000_0000_0000_0000_0000int) by (nonlinear_arith)
                        requires
                            -0x100_0000_0000int <= c as int <= 0x100_0000_0000int,
                            -0x8000_0000_0000_0000int <= xl as int <= 0x7fff_ffff_ffff_ffffint,
                            -0x8000_0000_0000_0000int <= xr as int <= 0x7fff_ffff_ffff_ffffint,
                    ;
                }
                let ghost pre_l = acc_l as int;
                let ghost pre_r = acc_r as int;
                acc_l = acc_l + (c as i128) * (xl as i128);
                acc_r = acc_r + (c as i128) * (xr as i128);
                proof {
                    let row = self.spec_rows()[row_idx as int];
                    assert(spec_conv_ch(input@, start as int, row, p as int + 1, false)
                        == spec_conv_ch(input@, start as int, row, p as int, false) + row[
                        p as int] * (match input@[start as int + p] {
                        Channeled::Mono(vv) => vv as int,
                        Channeled::Stereo(aa, _) => aa as int,
                    }));
                    assert(spec_conv_ch(input@, start as int, row, p as int + 1, true)
                        == spec_conv_ch(input@, start as int, row, p as int, true) + row[
                        p as int] * (match input@[start as int + p] {
                        Channeled::Mono(vv) => vv as int,
                        Channeled::Stereo(_, bb) => bb as int,
                    }));
                }
                p = p + 1;
            }
            proof {
                assert((w as int) * 0x200_0000_0000_0000_0000_0000_0000int
                    <= 0x2000_0000_0000_0000_0000_0000_0000_0000int) by (nonlinear_arith)
                    requires
                        w as int <= 60001,
                ;
            }
            let ql = round_div_wide(acc_l, den as i128);
            let qr = round_div_wide(acc_r, den as i128);
            if ql > i64::MAX as i128 || ql < -(i64::MAX as i128) || qr > i64::MAX as i128 || qr
                < -(i64::MAX as i128) {
                proof {
                    assert(!spec_sg_in_range(
                        input@,
                        spec_win_start(w as int, len as int, next as int),
                        self.spec_rows()[spec_win_row(w as int, len as int, next as int)],
                        self.spec_dens()[spec_win_row(w as int, len as int, next as int)] as int,
                    ));
                    assert(!spec_sg_all_in_range(input@, self.spec_rows(), self.spec_dens()));
                }
                return Err(PipelineError::Transform);
            }
            let value = if stereo {
                Channeled::Stereo(ql as i64, qr as i64)
            } else {
                Channeled::Mono(ql as i64)
            };
            out.push(value);
            proof {
                assert(spec_win_shape_clean(
                    input@,
                    spec_win_start(w as int, len as int, next as int),
                    w as int,
                ));
            }
            next = next + 1;
        }
        proof {
            assert(2 * (half as int) + 1 == w);
            assert forall|st: int|
                0 <= st <= len - w implies #[trigger] spec_win_shape_clean(
                input@,
                st,
                w as int,
            ) by {
                let n2 = st + half;
                assert(spec_win_start(w as int, len as int, n2) == st);
                assert(spec_win_shape_clean(
                    input@,
                    spec_win_start(w as int, len as int, n2),
                    w as int,
                ));
            }
            lemma_windows_give_uniform(input@, w as int);
            assert(spec_sg_all_in_range(input@, self.spec_rows(), self.spec_dens())) by {
                assert forall|n2: int|
                    0 <= n2 < input@.len() implies spec_sg_in_range(
                    input@,
                    spec_win_start(
                        self.spec_rows().len() as int,
                        input@.len() as int,
                        n2,
                    ),
                    #[trigger] self.spec_rows()[spec_win_row(
                        self.spec_rows().len() as int,
                        input@.len() as int,
                        n2,
                    )],
                    self.spec_dens()[spec_win_row(
                        self.spec_rows().len() as int,
                        input@.len() as int,
                        n2,
                    )] as int,
                ) by {
                    assert(spec_sg_in_range(
                        input@,
                        spec_win_start(w as int, len as int, n2),
                        self.spec_rows()[spec_win_row(w as int, len as int, n2)],
                        self.spec_dens()[spec_win_row(w as int, len as int, n2)] as int,
                    ));
                }
            }
        }
        Ok(true)
    }
}

} // verus!
