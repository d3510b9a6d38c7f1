use vstd::prelude::*;

use crate::channeled::{same_shape, spec_frame_uniform, Channeled};
use crate::errors::PipelineError;
use crate::fixed::{lemma_round_div_bounds, round_div, round_div_wide, VALUE_ONE};
use crate::framed::FramedMapper;
use crate::fraction::Fraction;
use vstd::pervasive::VecAdditionalExecFns;

verus! {

/// The geometry a bin table is computed from. The frequency bounds and
/// the perceptual exponent are exact rationals; the caller supplies the
/// sampled gamma curve separately, since raising to a rational power is
/// not exact arithmetic.
#[derive(Clone, Copy, Debug)]
pub struct BinConfig {
    /// How many bars the caller wants at least.
    pub bins: usize,
    /// The spectrum length the table will be applied to.
    pub input_size: usize,
    /// Samples per second of the underlying stream.
    pub sample_rate: usize,
    /// The lowest frequency that lands in a bar, in Hz.
    pub fmin: Fraction,
    /// The highest frequency of interest, in Hz.
    pub fmax: Fraction,
    /// The perceptual spacing exponent.
    pub gamma: Fraction,
}

impl BinConfig {
    /// The integer bounds under which every comparison below stays well
    /// inside the wide machine range.
    pub open spec fn spec_sane(self) -> bool {
        &&& 1 < self.bins <= 0x10000
        &&& 1 <= self.input_size <= 0x100_0000
        &&& 1 <= self.sample_rate <= 0x1_0000_0000
        &&& self.fmin.wf() && self.fmax.wf() && self.gamma.wf()
        &&& 0 < self.fmin.num()
        &&& 0 < self.gamma.num()
        &&& self.fmin.num() <= 0x1_0000_0000 && self.fmin.den() <= 0x1_0000_0000
        &&& self.fmax.num() <= 0x1_0000_0000_0000 && self.fmax.den() <= 0x1_0000_0000
        &&& self.fmin.num() * self.fmax.den() < self.fmax.num() * self.fmin.den()
    }

    /// Whether source bin `i` lies below the configured low cut: the bin
    /// frequency is i * (rate/2) / inputSize.
    pub open spec fn spec_below_fmin(self, i: int) -> bool {
        i * self.sample_rate * self.fmin.den() < 2 * self.input_size * self.fmin.num()
    }
}

/// The clamped target bar for source bin `i`: the supplied gamma curve
/// value (a unit-range fixed-point number) scaled to the bar count and
/// rounded, with everything at or past the last bar pinned to it.
pub open spec fn spec_target(curve: Seq<i64>, num_bins: int, i: int) -> int {
    let raw = round_div(curve[i] * num_bins, VALUE_ONE as int);
    if raw >= num_bins {
        num_bins
    } else {
        raw
    }
}

/// A usable gamma curve: unit-range values, never decreasing.
pub open spec fn spec_curve_sane(curve: Seq<i64>) -> bool {
    &&& forall|i: int| 0 <= i < curve.len() ==> 0 <= #[trigger] curve[i] <= VALUE_ONE as int
    &&& forall|i: int, j: int| 0 <= i <= j < curve.len() ==> #[trigger] curve[i] <= #[trigger] curve[j]
}

/// The boundary list `v` holds, in order, the first source bin of every
/// target bar from `t0` up to the candidate bar count.
pub open spec fn spec_bounds_from(
    cfg: BinConfig,
    curve: Seq<i64>,
    num_bins: int,
    t0: int,
    v: Seq<usize>,
) -> bool {
    &&& t0 + v.len() == num_bins + 1
    &&& forall|k: int|
        0 <= k < v.len() ==> #[trigger] spec_first_with_target(
            cfg,
            curve,
            num_bins,
            t0 + k,
            v[k] as int,
        )
}

/// `j` is the first source bin at or above the low cut whose target is `t`.
pub open spec fn spec_first_with_target(
    cfg: BinConfig,
    curve: Seq<i64>,
    num_bins: int,
    t: int,
    j: int,
) -> bool {
    &&& 0 <= j < cfg.input_size
    &&& !cfg.spec_below_fmin(j)
    &&& spec_target(curve, num_bins, j) == t
    &&& forall|j2: int|
        0 <= j2 < j ==> cfg.spec_below_fmin(j2) || #[trigger] spec_target(curve, num_bins, j2)
            != t
}

/// Rounding a scaled curve value is monotone in the curve value.
proof fn lemma_target_monotone(curve: Seq<i64>, num_bins: int, i: int, j: int)
    requires
        0 <= i <= j < curve.len(),
        spec_curve_sane(curve),
        0 <= num_bins,
    ensures
        spec_target(curve, num_bins, i) <= spec_target(curve, num_bins, j),
{
    assert(curve[i] <= curve[j]);
    assert(curve[i] * num_bins <= curve[j] * num_bins) by (nonlinear_arith)
        requires
            curve[i] <= curve[j],
            num_bins >= 0,
    ;
    let s = VALUE_ONE as int;
    let a = curve[i] * num_bins;
    let b = curve[j] * num_bins;
    assert(a >= 0) by (nonlinear_arith)
        requires
            curve[i] >= 0,
            num_bins >= 0,
            a == curve[i] * num_bins,
    ;
    assert(round_div(a, s) <= round_div(b, s)) by {
        vstd::arithmetic::div_mod::lemma_div_is_ordered(2 * a + s, 2 * b + s, 2 * s);
    }
}

/// Source bin `j` lies at or above the low cut and maps to target bar
/// `t` under the given bar count.
pub open spec fn spec_covers_at(
    cfg: BinConfig,
    curve: Seq<i64>,
    num_bins: int,
    t: int,
    j: int,
) -> bool {
    &&& 0 <= j < cfg.input_size
    &&& !cfg.spec_below_fmin(j)
    &&& spec_target(curve, num_bins, j) == t
}

/// Target bar `t` receives at least one source bin at or above the low
/// cut under the given bar count.
pub open spec fn spec_covered(cfg: BinConfig, curve: Seq<i64>, num_bins: int, t: int) -> bool {
    exists|j: int| #[trigger] spec_covers_at(cfg, curve, num_bins, t, j)
}

/// The covered bars run unbroken from `t0` through the bar count,
/// nothing below `t0` is covered, and the run spans at least the
/// desired bar count.
pub open spec fn spec_run_from(cfg: BinConfig, curve: Seq<i64>, num_bins: int, t0: int) -> bool {
    &&& 0 <= t0
    &&& t0 + cfg.bins <= num_bins
    &&& forall|t: int| t0 <= t <= num_bins ==> #[trigger] spec_covered(cfg, curve, num_bins, t)
    &&& forall|t: int| 0 <= t < t0 ==> !#[trigger] spec_covered(cfg, curve, num_bins, t)
}

/// A candidate bar count works: some first bar starts an unbroken,
/// long-enough covered run reaching the count itself.
pub open spec fn spec_attempt_succeeds(cfg: BinConfig, curve: Seq<i64>, num_bins: int) -> bool {
    exists|t0: int| #[trigger] spec_run_from(cfg, curve, num_bins, t0)
}

/// One search attempt at a fixed candidate bar count. The attempt works
/// exactly when the covered bars reach the count in one unbroken,
/// long-enough run; the boundaries are then, in order, the first source
/// bin of every covered bar.
fn attempt_bins(cfg: &BinConfig, curve: &Vec<i64>, num_bins: usize) -> (r: Option<Vec<usize>>)
    requires
        cfg.spec_sane(),
        curve@.len() == cfg.input_size,
        spec_curve_sane(curve@),
        1 <= num_bins <= 0x100_0000,
    ensures
        (r is Some) <==> spec_attempt_succeeds(*cfg, curve@, num_bins as int),
        r matches Some(v) ==> {
            &&& v@.len() >= cfg.bins + 1
            &&& (forall|k: int| 0 <= k < v@.len() ==> #[trigger] v@[k] < cfg.input_size)
            &&& (forall|k: int, k2: int|
                0 <= k < k2 < v@.len() ==> #[trigger] v@[k] < #[trigger] v@[k2])
            &&& (exists|t0: int|
                0 <= t0 && #[trigger] spec_bounds_from(*cfg, curve@, num_bins as int, t0, v@))
            &&& !cfg.spec_below_fmin(v@[0] as int)
            &&& (forall|j: int| 0 <= j < v@[0] ==> #[trigger] cfg.spec_below_fmin(j))
        },
{
    let mut slots: Vec<Option<usize>> = Vec::new();
    let mut t: usize = 0;
    while t < num_bins + 1
        invariant
            t <= num_bins + 1,
            num_bins <= 0x100_0000,
            slots@.len() == t,
            forall|q: int| 0 <= q < t ==> #[trigger] slots@[q] is None,
        decreases num_bins + 1 - t,
    {
        slots.push(None);
        t = t + 1;
    }
    let mut i: usize = 0;
    let mut done = false;
    // Scan the source bins in order, recording the first index that maps
    // to every target bar; stop once the last bar is reached.
    while i < cfg.input_size && !done
        invariant
            cfg.spec_sane(),
            curve@.len() == cfg.input_size,
            spec_curve_sane(curve@),
            1 <= num_bins <= 0x100_0000,
            slots@.len() == num_bins + 1,
            i <= cfg.input_size,
            forall|q: int| #![trigger slots@[q]]
                0 <= q <= num_bins ==> (slots@[q] matches Some(j) ==> spec_first_with_target(
                    *cfg,
                    curve@,
                    num_bins as int,
                    q,
                    j as int,
                ) && j < i),
            forall|q: int, j: int|
                #![trigger slots@[q], spec_target(curve@, num_bins as int, j)]
                0 <= q <= num_bins && slots@[q] is None && 0 <= j < i ==> cfg.spec_below_fmin(j)
                    || spec_target(curve@, num_bins as int, j) != q,
            done ==> forall|j: int|
                i <= j < cfg.input_size && !cfg.spec_below_fmin(j) ==> #[trigger] spec_target(
                    curve@,
                    num_bins as int,
                    j,
                ) == num_bins && slots@[num_bins as int] is Some,
        decreases cfg.input_size - i,
    {
        let below = below_fmin(cfg, i);
        if below {
            i = i + 1;
            continue ;
        }
        let tgt = target_of(curve, num_bins, i);
        let is_last = tgt >= num_bins;
        if self_slot_is_none(&slots, tgt) {
            slots.set(tgt, Some(i));
        }
        if is_last {
            done = true;
            proof {
                assert forall|j: int|
                    i + 1 <= j < cfg.input_size && !cfg.spec_below_fmin(j) implies #[trigger]
                    spec_target(curve@, num_bins as int, j) == num_bins && slots@[num_bins
                    as int] is Some by {
                    lemma_target_monotone(curve@, num_bins as int, i as int, j);
                }
            }
        }
        i = i + 1;
    }
    proof {
        assert forall|q: int, j: int|
            0 <= q <= num_bins && 0 <= j < cfg.input_size && !cfg.spec_below_fmin(j)
                && slots@[q] is None implies spec_target(curve@, num_bins as int, j) != q by {
            if j < i {
            } else {
                assert(done);
            }
        }
    }
    // Collect the recorded boundaries; a hole after the first recorded
    // bar is a gap and fails this attempt.
    let mut fin: Vec<usize> = Vec::new();
    let mut first_t: usize = 0;
    let mut has_any = false;
    let mut q: usize = 0;
    while q < slots.len()
        invariant
            cfg.spec_sane(),
            curve@.len() == cfg.input_size,
            slots@.len() == num_bins + 1,
            q <= slots@.len(),
            forall|q2: int| #![trigger slots@[q2]]
                0 <= q2 <= num_bins ==> (slots@[q2] matches Some(j) ==> spec_first_with_target(
                    *cfg,
                    curve@,
                    num_bins as int,
                    q2,
                    j as int,
                )),
            forall|q2: int, j: int|
                #![trigger slots@[q2], spec_target(curve@, num_bins as int, j)]
                0 <= q2 <= num_bins && slots@[q2] is None && 0 <= j < cfg.input_size
                    ==> cfg.spec_below_fmin(j) || spec_target(curve@, num_bins as int, j) != q2,
            !has_any ==> fin@.len() == 0 && (forall|q2: int|
                0 <= q2 < q ==> #[trigger] slots@[q2] is None),
            has_any ==> {
                &&& first_t < q
                &&& fin@.len() == q - first_t
                &&& (forall|k: int|
                    0 <= k < fin@.len() ==> #[trigger] fin@[k] < cfg.input_size
                        && spec_first_with_target(
                        *cfg,
                        curve@,
                        num_bins as int,
                        first_t + k,
                        fin@[k] as int,
                    ))
                &&& (forall|q2: int| 0 <= q2 < first_t ==> #[trigger] slots@[q2] is None)
            },
        decreases slots@.len() - q,
    {
        let slot = slot_at(&slots, q);
        match slot {
            Some(v) => {
                if !has_any {
                    first_t = q;
                    has_any = true;
                }
                fin.push(v);
            },
            None => {
                if has_any {
                    proof {
                        lemma_gap_refutes(*cfg, curve@, num_bins as int, slots@, first_t as int,
                            q as int, fin@[0] as int);
                    }
                    return None;
                }
            },
        }
        q = q + 1;
    }
    if !has_any {
        proof {
            assert forall|t: int|
                0 <= t <= num_bins implies !#[trigger] spec_covered(
                *cfg,
                curve@,
                num_bins as int,
                t,
            ) by {
                if spec_covered(*cfg, curve@, num_bins as int, t) {
                    let j = choose|j: int|
                        #[trigger] spec_covers_at(*cfg, curve@, num_bins as int, t, j);
                    assert(slots@[t] is None);
                    assert(false);
                }
            }
            assert(!spec_attempt_succeeds(*cfg, curve@, num_bins as int)) by {
                if spec_attempt_succeeds(*cfg, curve@, num_bins as int) {
                    let t0 = choose|t0: int|
                        #[trigger] spec_run_from(*cfg, curve@, num_bins as int, t0);
                    assert(spec_covered(*cfg, curve@, num_bins as int, t0));
                    assert(false);
                }
            }
        }
        return None;
    }
    let n_bins_out = fin.len() - 1;
    if n_bins_out < cfg.bins {
        proof {
            assert(!spec_attempt_succeeds(*cfg, curve@, num_bins as int)) by {
                if spec_attempt_succeeds(*cfg, curve@, num_bins as int) {
                    let t0 = choose|t0: int|
                        #[trigger] spec_run_from(*cfg, curve@, num_bins as int, t0);
                    assert(t0 <= num_bins);
                    assert(spec_covered(*cfg, curve@, num_bins as int, t0));
                    if t0 < first_t {
                        assert(slots@[t0] is None);
                        let j = choose|j: int|
                            #[trigger] spec_covers_at(*cfg, curve@, num_bins as int, t0, j);
                        assert(false);
                    }
                    assert(first_t + cfg.bins <= num_bins);
                    assert(fin@.len() == num_bins + 1 - first_t);
                    assert(false);
                }
            }
        }
        return None;
    }
    proof {
        assert forall|k: int, k2: int|
            #![trigger fin@[k], fin@[k2]]
            0 <= k < k2 < fin@.len() implies fin@[k] < fin@[k2] by {
            lemma_boundaries_increase(*cfg, curve@, num_bins as int, first_t as int, fin@, k, k2);
        }
        assert(spec_bounds_from(*cfg, curve@, num_bins as int, first_t as int, fin@));
        assert forall|t: int|
            first_t as int <= t <= num_bins implies #[trigger] spec_covered(
            *cfg,
            curve@,
            num_bins as int,
            t,
        ) by {
            let k = t - first_t;
            assert(spec_first_with_target(*cfg, curve@, num_bins as int, t, fin@[k] as int));
            assert(spec_covers_at(*cfg, curve@, num_bins as int, t, fin@[k] as int));
        }
        assert forall|t: int|
            0 <= t < first_t implies !#[trigger] spec_covered(*cfg, curve@, num_bins as int, t) by {
            if spec_covered(*cfg, curve@, num_bins as int, t) {
                let j = choose|j: int| #[trigger] spec_covers_at(*cfg, curve@, num_bins as int, t, j);
                assert(slots@[t] is None);
                assert(false);
            }
        }
        assert(spec_run_from(*cfg, curve@, num_bins as int, first_t as int));
        assert(spec_attempt_succeeds(*cfg, curve@, num_bins as int));
        let v0 = fin@[0] as int;
        assert(spec_first_with_target(*cfg, curve@, num_bins as int, first_t as int, v0));
        assert forall|j: int| 0 <= j < v0 implies #[trigger] cfg.spec_below_fmin(j) by {
            if !cfg.spec_below_fmin(j) {
                let tj = spec_target(curve@, num_bins as int, j);
                lemma_target_monotone(curve@, num_bins as int, j, v0);
                assert(0 <= tj <= first_t as int) by {
                    lemma_target_nonneg(curve@, num_bins as int, j);
                }
                assert(slots@[tj] is Some || slots@[tj] is None);
                if slots@[tj] is None {
                } else {
                    let jw = slots@[tj].unwrap() as int;
                    assert(spec_first_with_target(*cfg, curve@, num_bins as int, tj, jw));
                    assert(tj < first_t ==> slots@[tj] is None);
                    assert(tj == first_t);
                    assert(jw == v0);
                    assert(false);
                }
            }
        }
    }
    Some(fin)
}

/// A hole above the first covered bar refutes any unbroken run: the
/// hole's bar is uncovered while a run reaching the count would have to
/// cover it.
proof fn lemma_gap_refutes(
    cfg: BinConfig,
    curve: Seq<i64>,
    num_bins: int,
    slots: Seq<Option<usize>>,
    first_t: int,
    q: int,
    v0: int,
)
    requires
        slots.len() == num_bins + 1,
        0 <= first_t < q <= num_bins,
        slots[q] is None,
        spec_first_with_target(cfg, curve, num_bins, first_t, v0),
        forall|q2: int, j: int|
            #![trigger slots[q2], spec_target(curve, num_bins, j)]
            0 <= q2 <= num_bins && slots[q2] is None && 0 <= j < cfg.input_size
                ==> cfg.spec_below_fmin(j) || spec_target(curve, num_bins, j) != q2,
    ensures
        !spec_attempt_succeeds(cfg, curve, num_bins),
{
    assert(spec_covers_at(cfg, curve, num_bins, first_t, v0));
    assert(spec_covered(cfg, curve, num_bins, first_t));
    assert(!spec_covered(cfg, curve, num_bins, q)) by {
        if spec_covered(cfg, curve, num_bins, q) {
            let j = choose|j: int| #[trigger] spec_covers_at(cfg, curve, num_bins, q, j);
            assert(cfg.spec_below_fmin(j) || spec_target(curve, num_bins, j) != q);
            assert(false);
        }
    }
    if spec_attempt_succeeds(cfg, curve, num_bins) {
        let t0 = choose|t0: int| #[trigger] spec_run_from(cfg, curve, num_bins, t0);
        assert(first_t >= t0) by {
            if first_t < t0 {
                assert(!spec_covered(cfg, curve, num_bins, first_t));
            }
        }
        assert(spec_covered(cfg, curve, num_bins, q));
        assert(false);
    }
}

/// A non-negative curve value gives a non-negative target.
proof fn lemma_target_nonneg(curve: Seq<i64>, num_bins: int, i: int)
    requires
        0 <= i < curve.len(),
        0 <= curve[i],
        0 <= num_bins,
    ensures
        0 <= spec_target(curve, num_bins, i),
{
    let a = curve[i] * num_bins;
    assert(a >= 0) by (nonlinear_arith)
        requires
            curve[i] >= 0,
            num_bins >= 0,
            a == curve[i] * num_bins,
    ;
    vstd::arithmetic::div_mod::lemma_div_pos_is_pos(2 * a + VALUE_ONE as int, 2 * (VALUE_ONE
        as int));
}

/// First indexes of strictly increasing targets come in strictly
/// increasing order.
proof fn lemma_boundaries_increase(
    cfg: BinConfig,
    curve: Seq<i64>,
    num_bins: int,
    first_t: int,
    fin: Seq<usize>,
    k: int,
    k2: int,
)
    requires
        cfg.spec_sane(),
        curve.len() == cfg.input_size,
        spec_curve_sane(curve),
        0 <= num_bins,
        0 <= k < k2 < fin.len(),
        0 <= first_t,
        forall|k3: int|
            0 <= k3 < fin.len() ==> #[trigger] fin[k3] < cfg.input_size
                && spec_first_with_target(cfg, curve, num_bins, first_t + k3, fin[k3] as int),
    ensures
        fin[k] < fin[k2],
{
    let a = fin[k] as int;
    let b = fin[k2] as int;
    assert(spec_first_with_target(cfg, curve, num_bins, first_t + k, a));
    assert(spec_first_with_target(cfg, curve, num_bins, first_t + k2, b));
    if b < a {
        lemma_target_monotone(curve, num_bins, b, a);
        assert(false);
    }
    if b == a {
        assert(false);
    }
}

/// Whether some workable bar count exists inside the explicit retry
/// range: from the desired count up to it plus the spectrum length,
/// capped by the search ceiling.
pub open spec fn spec_search_can_succeed(cfg: BinConfig, curve: Seq<i64>) -> bool {
    exists|nb: int|
        cfg.bins <= nb <= cfg.bins + cfg.input_size && nb <= 0x100_0000
            && #[trigger] spec_attempt_succeeds(cfg, curve, nb)
}

/// The boundary list the search returns: the table of the *smallest*
/// workable bar count, holding the first source bin of every covered
/// bar from the run's first bar through that count.
pub open spec fn spec_good_boundaries(cfg: BinConfig, curve: Seq<i64>, v: Seq<usize>) -> bool {
    exists|nb: int, t0: int|
        #![trigger spec_bounds_from(cfg, curve, nb, t0, v)]
        cfg.bins <= nb <= 0x100_0000 && 0 <= t0 && spec_attempt_succeeds(cfg, curve, nb) && (
        forall|nb2: int|
            cfg.bins <= nb2 < nb ==> !#[trigger] spec_attempt_succeeds(cfg, curve, nb2))
            && spec_bounds_from(cfg, curve, nb, t0, v)
}

/// Searches for the smallest workable bar count at or above the desired
/// one, growing the count until every bar receives a boundary; the retry
/// bound is explicit, and exhausting it is a configuration error.
pub fn compute_bin_indexes(cfg: &BinConfig, curve: &Vec<i64>) -> (r: Result<
    Vec<usize>,
    PipelineError,
>)
    requires
        cfg.spec_sane(),
        curve@.len() == cfg.input_size,
        spec_curve_sane(curve@),
    ensures
        (r is Ok) <==> spec_search_can_succeed(*cfg, curve@),
        r matches Ok(v) ==> {
            &&& v@.len() >= cfg.bins + 1
            &&& (forall|k: int| 0 <= k < v@.len() ==> #[trigger] v@[k] < cfg.input_size)
            &&& (forall|k: int, k2: int|
                0 <= k < k2 < v@.len() ==> #[trigger] v@[k] < #[trigger] v@[k2])
            &&& spec_good_boundaries(*cfg, curve@, v@)
            &&& !cfg.spec_below_fmin(v@[0] as int)
            &&& (forall|j: int| 0 <= j < v@[0] ==> #[trigger] cfg.spec_below_fmin(j))
        },
        r matches Err(e) ==> e == PipelineError::Config,
{
    let mut nb = cfg.bins;
    let mut tries: usize = 0;
    while tries <= cfg.input_size && nb <= 0x100_0000
        invariant
            cfg.spec_sane(),
            curve@.len() == cfg.input_size,
            spec_curve_sane(curve@),
            nb == cfg.bins + tries,
            forall|nb2: int|
                cfg.bins <= nb2 < nb ==> !#[trigger] spec_attempt_succeeds(*cfg, curve@, nb2),
        decreases cfg.input_size + 1 - tries,
    {
        match attempt_bins(cfg, curve, nb) {
            Some(v) => {
                proof {
                    let t0 = choose|t0: int|
                        0 <= t0 && #[trigger] spec_bounds_from(
                            *cfg,
                            curve@,
                            nb as int,
                            t0,
                            v@,
                        );
                    assert(spec_bounds_from(*cfg, curve@, nb as int, t0, v@));
                    assert(spec_good_boundaries(*cfg, curve@, v@));
                    assert(spec_search_can_succeed(*cfg, curve@));
                }
                return Ok(v);
            },
            None => {},
        }
        nb = nb + 1;
        tries = tries + 1;
    }
    proof {
        assert(!spec_search_can_succeed(*cfg, curve@)) by {
            if spec_search_can_succeed(*cfg, curve@) {
                let nb2 = choose|nb2: int|
                    cfg.bins <= nb2 <= cfg.bins + cfg.input_size && nb2 <= 0x100_0000
                        && #[trigger] spec_attempt_succeeds(*cfg, curve@, nb2);
                assert(nb2 < nb);
                assert(false);
            }
        }
    }
    Err(PipelineError::Config)
}

/// Sum of the left (or only) channel over the half-open index range.
pub open spec fn spec_sum_left(s: Seq<Channeled<i64>>, lo: int, hi: int) -> int
    decreases hi - lo,
{
    if lo >= hi {
        0
    } else {
        spec_sum_left(s, lo, hi - 1) + (match s[hi - 1] {
            Channeled::Mono(v) => v as int,
            Channeled::Stereo(a, _) => a as int,
        })
    }
}

/// Sum of the right (or only) channel over the half-open index range.
pub open spec fn spec_sum_right(s: Seq<Channeled<i64>>, lo: int, hi: int) -> int
    decreases hi - lo,
{
    if lo >= hi {
        0
    } else {
        spec_sum_right(s, lo, hi - 1) + (match s[hi - 1] {
            Channeled::Mono(v) => v as int,
            Channeled::Stereo(_, b) => b as int,
        })
    }
}

/// Every value in the half-open range shares the shape of its first
/// value.
pub open spec fn spec_bin_uniform(s: Seq<Channeled<i64>>, lo: int, hi: int) -> bool {
    forall|j: int| lo <= j < hi ==> same_shape(#[trigger] s[j], s[lo])
}

/// The value of output bar `b`: the bin's channel sums divided by the
/// full input length, in the shape of the bin's first source value.
pub open spec fn spec_bar_value(
    s: Seq<Channeled<i64>>,
    lo: int,
    hi: int,
    in_size: int,
) -> Channeled<i64> {
    match s[lo] {
        Channeled::Mono(_) => Channeled::Mono(
            round_div(spec_sum_left(s, lo, hi), in_size) as i64,
        ),
        Channeled::Stereo(_, _) => Channeled::Stereo(
            round_div(spec_sum_left(s, lo, hi), in_size) as i64,
            round_div(spec_sum_right(s, lo, hi), in_size) as i64,
        ),
    }
}

/// Reduces a spectrum to a small set of perceptually spaced bars by
/// summing each bar's source range and dividing by the input length.
pub struct Binner {
    indexes: Vec<usize>,
    n_bins: usize,
    in_size: usize,
}

impl Binner {
    pub closed spec fn spec_indexes(&self) -> Seq<usize> {
        self.indexes@
    }

    pub closed spec fn spec_n_bins(&self) -> nat {
        self.n_bins as nat
    }

    pub closed spec fn spec_in_size(&self) -> nat {
        self.in_size as nat
    }

    /// A usable boundary table: one more boundary than bars, strictly
    /// increasing, all inside the input.
    pub open spec fn spec_layout_sane(&self) -> bool {
        &&& self.spec_n_bins() >= 1
        &&& self.spec_indexes().len() == self.spec_n_bins() + 1
        &&& 1 <= self.spec_in_size() <= 0x100_0000
        &&& (forall|k: int|
            0 <= k < self.spec_indexes().len() ==> #[trigger] self.spec_indexes()[k]
                < self.spec_in_size())
        &&& (forall|k: int|
            0 <= k < self.spec_indexes().len() - 1 ==> #[trigger] self.spec_indexes()[k]
                < self.spec_indexes()[k + 1])
    }

    /// Builds the bar table for a configuration, from the supplied gamma
    /// curve samples.
    #[verifier::rlimit(30)]
    pub fn new(config: &BinConfig, curve: &Vec<i64>) -> (r: Result<Binner, PipelineError>)
        requires
            config.spec_sane(),
            curve@.len() == config.input_size,
            spec_curve_sane(curve@),
        ensures
            (r is Ok) <==> spec_search_can_succeed(*config, curve@),
            r matches Ok(b) ==> {
                &&& b.spec_layout_sane()
                &&& b.spec_in_size() == config.input_size
                &&& b.spec_n_bins() + 1 == b.spec_indexes().len()
                &&& b.spec_n_bins() >= config.bins
                &&& spec_good_boundaries(*config, curve@, b.spec_indexes())
            },
            r matches Err(e) ==> e == PipelineError::Config,
    {
        let indexes = match compute_bin_indexes(config, curve) {
            Ok(v) => v,
            Err(e) => {
                return Err(e);
            },
        };
        let n_bins = indexes.len() - 1;
        proof {
            assert forall|k: int|
                0 <= k < indexes@.len() - 1 implies #[trigger] indexes@[k] < indexes@[k + 1] by {
                assert(indexes@[k] < indexes@[k + 1]);
            }
        }
        Ok(Binner { indexes, n_bins, in_size: config.input_size })
    }
}

impl FramedMapper<Channeled<i64>, Channeled<i64>> for Binner {
    open spec fn spec_frame_size(&self, orig: nat) -> nat {
        self.spec_n_bins()
    }

    fn map_frame_size(&self, orig: usize) -> (r: usize) {
        self.n_bins
    }

    /// Sums every bar's source range and divides by the input length; a
    /// frame of the wrong length yields no output, and mixing mono with
    /// stereo inside a bar is a channel mismatch.
    fn map(&mut self, input: &Vec<Channeled<i64>>, out: &mut Vec<Channeled<i64>>) -> (r: Result<
        bool,
        PipelineError,
    >)
        ensures
            final(self).spec_indexes() == old(self).spec_indexes(),
            final(self).spec_n_bins() == old(self).spec_n_bins(),
            final(self).spec_in_size() == old(self).spec_in_size(),
            (r == Ok::<bool, PipelineError>(false)) <==> input@.len() != old(self).spec_in_size(),
            (r == Err::<bool, PipelineError>(PipelineError::Transform)) <==> (input@.len() == old(
                self,
            ).spec_in_size() && !old(self).spec_layout_sane()),
            (input@.len() == old(self).spec_in_size() && old(self).spec_layout_sane()
                && spec_frame_uniform(input@)) ==> {
                &&& r == Ok::<bool, PipelineError>(true)
                &&& final(out)@.len() == old(self).spec_n_bins()
                &&& (forall|b: int|
                    0 <= b < old(self).spec_n_bins() ==> #[trigger] final(out)@[b]
                        == spec_bar_value(
                        input@,
                        old(self).spec_indexes()[b] as int,
                        old(self).spec_indexes()[b + 1] as int,
                        old(self).spec_in_size() as int,
                    ))
            },
            r == Err::<bool, PipelineError>(PipelineError::ChannelMismatch) ==> exists|
                b: int,
                j: int,
            |
                #![trigger old(self).spec_indexes()[b], input@[j]]
                0 <= b < old(self).spec_n_bins() && old(self).spec_indexes()[b] <= j < old(
                    self,
                ).spec_indexes()[b + 1] && !same_shape(
                    input@[j],
                    input@[old(self).spec_indexes()[b] as int],
                ),
    {
        if input.len() != self.in_size {
            return Ok(false);
        }
        // Validate the boundary table before leaning on it.
        let layout_ok = self.check_layout();
        if !layout_ok {
            return Err(PipelineError::Transform);
        }
        out.clear();
        let mut b: usize = 0;
        while b < self.n_bins
            invariant
                self.spec_layout_sane(),
                input@.len() == self.spec_in_size(),
                b <= self.spec_n_bins(),
                out@.len() == b,
                forall|b2: int|
                    0 <= b2 < b ==> #[trigger] out@[b2] == spec_bar_value(
                        input@,
                        self.spec_indexes()[b2] as int,
                        self.spec_indexes()[b2 + 1] as int,
                        self.spec_in_size() as int,
                    ),
                forall|b2: int|
                    0 <= b2 < b ==> #[trigger] spec_bin_uniform(
                        input@,
                        self.spec_indexes()[b2] as int,
                        self.spec_indexes()[b2 + 1] as int,
                    ),
            decreases self.spec_n_bins() - b,
        {
            let lo = self.indexes[b];
            let hi = self.indexes[b + 1];
            let shape_stereo = match input[lo] {
                Channeled::Mono(_) => false,
                Channeled::Stereo(_, _) => true,
            };
            let mut sum_l: i128 = 0;
            let mut sum_r: i128 = 0;
            let mut j = lo;
            while j < hi
                invariant
                    self.spec_layout_sane(),
                    input@.len() == self.spec_in_size(),
                    b < self.spec_n_bins(),
                    lo == self.spec_indexes()[b as int],
                    hi == self.spec_indexes()[b as int + 1],
                    lo <= j <= hi,
                    hi <= input@.len(),
                    shape_stereo == (input@[lo as int] is Stereo),
                    sum_l == spec_sum_left(input@, lo as int, j as int),
                    sum_r == spec_sum_right(input@, lo as int, j as int),
                    (j - lo) * (i64::MIN as int) <= sum_l <= (j - lo) * (i64::MAX as int),
                    (j - lo) * (i64::MIN as int) <= sum_r <= (j - lo) * (i64::MAX as int),
                    forall|j2: int|
                        lo <= j2 < j ==> same_shape(#[trigger] input@[j2], input@[lo as int]),
                decreases hi - j,
            {
                let v = input[j];
                proof {
                    lemma_sum_step(input@, lo as int, j as int, sum_l as int, sum_r as int);
                }
                match (shape_stereo, v) {
                    (false, Channeled::Mono(x)) => {
                        sum_l = sum_l + (x as i128);
                        sum_r = sum_r + (x as i128);
                    },
                    (true, Channeled::Stereo(x, y)) => {
                        sum_l = sum_l + (x as i128);
                        sum_r = sum_r + (y as i128);
                    },
                    _ => {
                        proof {
                            assert(!same_shape(input@[j as int], input@[lo as int]));
                        }
                        return Err(PipelineError::ChannelMismatch);
                    },
                }
                j = j + 1;
            }
            let value = self.bar_from_sums(shape_stereo, sum_l, sum_r, hi - lo);
            proof {
                assert(value == spec_bar_value(
                    input@,
                    lo as int,
                    hi as int,
                    self.spec_in_size() as int,
                ));
            }
            out.push(value);
            proof {
                assert(out@[b as int] == spec_bar_value(
                    input@,
                    self.spec_indexes()[b as int] as int,
                    self.spec_indexes()[b as int + 1] as int,
                    self.spec_in_size() as int,
                ));
                assert(spec_bin_uniform(
                    input@,
                    self.spec_indexes()[b as int] as int,
                    self.spec_indexes()[b as int + 1] as int,
                ));
            }
            b = b + 1;
        }
        proof {
            if spec_frame_uniform(input@) {
            }
        }
        Ok(true)
    }
}

/// Adding one value extends both channel sums by that value's channels.
proof fn lemma_sum_step(s: Seq<Channeled<i64>>, lo: int, j: int, sum_l: int, sum_r: int)
    requires
        lo <= j < s.len(),
        sum_l == spec_sum_left(s, lo, j),
        sum_r == spec_sum_right(s, lo, j),
    ensures
        spec_sum_left(s, lo, j + 1) == sum_l + (match s[j] {
            Channeled::Mono(v) => v as int,
            Channeled::Stereo(a, _) => a as int,
        }),
        spec_sum_right(s, lo, j + 1) == sum_r + (match s[j] {
            Channeled::Mono(v) => v as int,
            Channeled::Stereo(_, b) => b as int,
        }),
{
}

impl Binner {
    /// Checks the boundary table at run time, mirroring the layout
    /// predicate exactly.
    fn check_layout(&self) -> (r: bool)
        ensures
            r == self.spec_layout_sane(),
    {
        if self.n_bins < 1 || self.in_size < 1 || self.in_size > 0x100_0000 {
            return false;
        }
        if self.indexes.len() == 0 || self.indexes.len() - 1 != self.n_bins {
            return false;
        }
        let mut k: usize = 0;
        while k < self.indexes.len()
            invariant
                k <= self.spec_indexes().len(),
                self.spec_indexes().len() == self.spec_n_bins() + 1,
                self.spec_n_bins() >= 1,
                self.spec_in_size() >= 1,
                forall|k2: int|
                    0 <= k2 < k ==> #[trigger] self.spec_indexes()[k2] < self.spec_in_size(),
                forall|k2: int|
                    0 <= k2 < k && k2 + 1 < self.spec_indexes().len()
                        ==> #[trigger] self.spec_indexes()[k2] < self.spec_indexes()[k2 + 1],
            decreases self.spec_indexes().len() - k,
        {
            if self.indexes[k] >= self.in_size {
                return false;
            }
            if k + 1 < self.indexes.len() && self.indexes[k] >= self.indexes[k + 1] {
                return false;
            }
            k = k + 1;
        }
        true
    }

    /// Turns the accumulated channel sums into one bar value.
    fn bar_from_sums(&self, stereo: bool, sum_l: i128, sum_r: i128, count: usize) -> (v: Channeled<
        i64,
    >)
        requires
            1 <= self.spec_in_size() <= 0x100_0000,
            count <= self.spec_in_size(),
            (count as int) * (i64::MIN as int) <= sum_l <= (count as int) * (i64::MAX as int),
            (count as int) * (i64::MIN as int) <= sum_r <= (count as int) * (i64::MAX as int),
        ensures
            !stereo ==> v == Channeled::Mono::<i64>(
                round_div(sum_l as int, self.spec_in_size() as int) as i64,
            ),
            stereo ==> v == Channeled::Stereo::<i64>(
                round_div(sum_l as int, self.spec_in_size() as int) as i64,
                round_div(sum_r as int, self.spec_in_size() as int) as i64,
            ),
    {
        let n = self.in_size as i128;
        proof {
            lemma_sum_div_in_range(sum_l as int, count as int, self.spec_in_size() as int);
            lemma_sum_div_in_range(sum_r as int, count as int, self.spec_in_size() as int);
        }
        let l = round_div_wide(sum_l, n) as i64;
        if stereo {
            let r = round_div_wide(sum_r, n) as i64;
            Channeled::Stereo(l, r)
        } else {
            Channeled::Mono(l)
        }
    }
}

/// A sum of at most `n` machine values divided by `n` stays in range.
proof fn lemma_sum_div_in_range(sum: int, count: int, n: int)
    requires
        1 <= n <= 0x100_0000,
        0 <= count <= n,
        count * (i64::MIN as int) <= sum <= count * (i64::MAX as int),
    ensures
        i64::MIN as int <= round_div(sum, n) <= i64::MAX as int,
        -(0x1_0000_0000_0000_0000_0000_0000_0000_0000int / 8) <= sum
            <= 0x1_0000_0000_0000_0000_0000_0000_0000_0000int / 8,
{
    assert(n * (i64::MIN as int) <= sum <= n * (i64::MAX as int)) by (nonlinear_arith)
        requires
            0 <= count <= n,
            count * (i64::MIN as int) <= sum <= count * (i64::MAX as int),
    ;
    assert((i64::MIN as int) * n <= sum <= (i64::MAX as int) * n) by (nonlinear_arith)
        requires
            n * (i64::MIN as int) <= sum <= n * (i64::MAX as int),
    ;
    assert(-(0x1_0000_0000_0000_0000_0000_0000_0000_0000int / 8) <= sum
        <= 0x1_0000_0000_0000_0000_0000_0000_0000_0000int / 8) by (nonlinear_arith)
        requires
            1 <= n <= 0x100_0000,
            (i64::MIN as int) * n <= sum <= (i64::MAX as int) * n,
    ;
    lemma_round_div_bounds(sum, n, i64::MIN as int, i64::MAX as int);
}

/// Whether source bin `i` sits below the low frequency cut.
fn below_fmin(cfg: &BinConfig, i: usize) -> (r: bool)
    requires
        cfg.spec_sane(),
        i <= cfg.input_size,
    ensures
        r == cfg.spec_below_fmin(i as int),
{
    proof {
        assert((i as i128) * (cfg.sample_rate as i128) * (cfg.fmin.den() as i128)
            <= 0x1000_0000_0000_0000_0000_0000_0000i128 && 2 * (cfg.input_size as i128)
            * (cfg.fmin.num() as i128) <= 0x1000_0000_0000_0000_0000_0000_0000i128)
            by (nonlinear_arith)
            requires
                0 <= (i as i128) <= 0x100_0000i128,
                1 <= (cfg.sample_rate as i128) <= 0x1_0000_0000i128,
                1 <= (cfg.fmin.den() as i128) <= 0x1_0000_0000i128,
                1 <= (cfg.input_size as i128) <= 0x100_0000i128,
                1 <= (cfg.fmin.num() as i128) <= 0x1_0000_0000i128,
        ;
        assert(0 <= (i as i128) * (cfg.sample_rate as i128)
            <= 0x100_0000_0000_0000_0000i128) by (nonlinear_arith)
            requires
                0 <= (i as i128) <= 0x100_0000i128,
                1 <= (cfg.sample_rate as i128) <= 0x1_0000_0000i128,
        ;
    }
    let lhs = (i as i128) * (cfg.sample_rate as i128) * (cfg.fmin.denom() as i128);
    let rhs = 2 * (cfg.input_size as i128) * (cfg.fmin.numer() as i128);
    lhs < rhs
}

/// The clamped-before-the-last-bar target of source bin `i`.
fn target_of(curve: &Vec<i64>, num_bins: usize, i: usize) -> (r: usize)
    requires
        spec_curve_sane(curve@),
        i < curve@.len(),
        1 <= num_bins <= 0x100_0000,
    ensures
        r as int == spec_target(curve@, num_bins as int, i as int),
        r <= num_bins,
{
    let c = curve[i];
    proof {
        assert(0 <= (c as i128) * (num_bins as i128) <= 0x100_0000_0000_0000i128)
            by (nonlinear_arith)
            requires
                0 <= c as i128 <= VALUE_ONE as i128,
                1 <= num_bins as i128 <= 0x100_0000i128,
        ;
    }
    let raw = round_div_wide((c as i128) * (num_bins as i128), VALUE_ONE as i128);
    proof {
        assert(0 * (VALUE_ONE as int) <= (c as int) * (num_bins as int) && (c as int) * (num_bins
            as int) <= (num_bins as int) * (VALUE_ONE as int)) by (nonlinear_arith)
            requires
                0 <= c as int <= VALUE_ONE as int,
                1 <= num_bins as int,
        ;
        lemma_round_div_bounds(
            ((c as i128) * (num_bins as i128)) as int,
            VALUE_ONE as int,
            0,
            num_bins as int,
        );
    }
    raw as usize
}

/// Reads one slot.
fn slot_at(slots: &Vec<Option<usize>>, q: usize) -> (r: Option<usize>)
    requires
        q < slots@.len(),
    ensures
        r == slots@[q as int],
{
    slots[q]
}

/// Whether a slot is still empty.
fn self_slot_is_none(slots: &Vec<Option<usize>>, q: usize) -> (r: bool)
    requires
        q < slots@.len(),
    ensures
        r == (slots@[q as int] is None),
{
    slots[q].is_none()
}

} // verus!
