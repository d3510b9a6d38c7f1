use vstd::prelude::*;

use crate::channeled::{same_shape, Channeled};
use crate::errors::PipelineError;
use crate::fixed::{lemma_round_div_bounds, round_div, round_div_wide, VALUE_ONE};
use crate::framed::FramedMapper;

verus! {

/// One windowed sample: the value scaled by a taper coefficient given as
/// a fixed-point factor in [0, 1].
pub open spec fn spec_windowed(c: int, v: Channeled<i64>) -> Channeled<i64> {
    match v {
        Channeled::Mono(x) => Channeled::Mono(round_div(x * c, VALUE_ONE as int) as i64),
        Channeled::Stereo(a, b) => Channeled::Stereo(
            round_div(a * c, VALUE_ONE as int) as i64,
            round_div(b * c, VALUE_ONE as int) as i64,
        ),
    }
}

/// Every taper factor is a fixed-point value in [0, 1].
pub open spec fn spec_table_sane(t: Seq<i64>) -> bool {
    forall|i: int| 0 <= i < t.len() ==> 0 <= #[trigger] t[i] <= VALUE_ONE as int
}

/// A precomputed taper table applied pointwise to every frame.
pub struct MemoizedWindowingMapper {
    coefficients: Vec<i64>,
}

impl MemoizedWindowingMapper {
    pub closed spec fn spec_coefficients(&self) -> Seq<i64> {
        self.coefficients@
    }

    /// Builds the full table from its first half (centre point included),
    /// mirroring it about the centre. The table is therefore symmetric by
    /// construction: entry `i` always equals entry `n - 1 - i`.
    pub fn from_half(half: &Vec<i64>, n: usize) -> (r: MemoizedWindowingMapper)
        requires
            half@.len() == (n + 1) / 2,
            spec_table_sane(half@),
        ensures
            r.spec_coefficients().len() == n,
            forall|i: int|
                0 <= i < n ==> #[trigger] r.spec_coefficients()[i] == half@[vstd::math::min(
                    i,
                    n - 1 - i,
                )],
            forall|i: int|
                0 <= i < n ==> #[trigger] r.spec_coefficients()[i] == r.spec_coefficients()[n - 1
                    - i],
            spec_table_sane(r.spec_coefficients()),
    {
        let mut coeffs: Vec<i64> = Vec::new();
        let mut i: usize = 0;
        while i < n
            invariant
                i <= n,
                coeffs@.len() == i,
                half@.len() == (n + 1) / 2,
                spec_table_sane(half@),
                forall|j: int|
                    0 <= j < i ==> #[trigger] coeffs@[j] == half@[vstd::math::min(j, n - 1 - j)],
            decreases n - i,
        {
            let idx = if i < n - 1 - i {
                i
            } else {
                n - 1 - i
            };
            proof {
                assert(2 * (idx as int) <= n - 1);
                assert(idx as int <= (n - 1) as int / 2) by {
                    vstd::arithmetic::div_mod::lemma_fundamental_div_mod((n - 1) as int, 2);
                }
                assert((n - 1) as int / 2 < (n + 1) as int / 2) by {
                    vstd::arithmetic::div_mod::lemma_fundamental_div_mod((n + 1) as int, 2);
                    vstd::arithmetic::div_mod::lemma_fundamental_div_mod((n - 1) as int, 2);
                    vstd::arithmetic::div_mod::lemma_mod_division_less_than_divisor(
                        (n + 1) as int,
                        2,
                    );
                    vstd::arithmetic::div_mod::lemma_mod_division_less_than_divisor(
                        (n - 1) as int,
                        2,
                    );
                }
            }
            coeffs.push(half[idx]);
            i = i + 1;
        }
        proof {
            assert forall|i: int| 0 <= i < n implies #[trigger] coeffs@[i] == coeffs@[n - 1
                - i] by {
                assert(coeffs@[i] == half@[vstd::math::min(i, n - 1 - i)]);
                assert(coeffs@[n - 1 - i] == half@[vstd::math::min(n - 1 - i, i)]);
            }
        }
        MemoizedWindowingMapper { coefficients: coeffs }
    }
}

impl MemoizedWindowingMapper {
    /// How many coefficients the table holds.
    pub fn table_len(&self) -> (r: usize)
        ensures
            r == self.spec_coefficients().len(),
    {
        self.coefficients.len()
    }

    /// One taper coefficient.
    pub fn coefficient(&self, i: usize) -> (r: i64)
        requires
            i < self.spec_coefficients().len(),
        ensures
            r == self.spec_coefficients()[i as int],
    {
        self.coefficients[i]
    }
}

impl FramedMapper<Channeled<i64>, Channeled<i64>> for MemoizedWindowingMapper {
    open spec fn spec_frame_size(&self, orig: nat) -> nat {
        orig
    }

    fn map_frame_size(&self, orig: usize) -> (r: usize) {
        orig
    }

    /// Multiplies every sample by its taper factor in one pass; samples
    /// past the end of the table pass through unchanged.
    fn map(&mut self, input: &Vec<Channeled<i64>>, out: &mut Vec<Channeled<i64>>) -> (r: Result<
        bool,
        PipelineError,
    >)
        ensures
            final(self).spec_coefficients() == old(self).spec_coefficients(),
            (r == Err::<bool, PipelineError>(PipelineError::Transform)) <==> !spec_table_sane(
                old(self).spec_coefficients(),
            ),
            spec_table_sane(old(self).spec_coefficients()) ==> {
                &&& r == Ok::<bool, PipelineError>(true)
                &&& final(out)@.len() == input@.len()
                &&& (forall|i: int|
                    0 <= i < input@.len() ==> #[trigger] final(out)@[i] == (if i < old(
                        self,
                    ).spec_coefficients().len() {
                        spec_windowed(old(self).spec_coefficients()[i] as int, input@[i])
                    } else {
                        input@[i]
                    }))
            },
    {
        let mut k: usize = 0;
        while k < self.coefficients.len()
            invariant
                k <= self.coefficients@.len(),
                forall|j: int|
                    0 <= j < k ==> 0 <= #[trigger] self.coefficients@[j] <= VALUE_ONE as int,
            decreases self.coefficients@.len() - k,
        {
            let c = self.coefficients[k];
            if c > VALUE_ONE || c < 0 {
                return Err(PipelineError::Transform);
            }
            k = k + 1;
        }
        out.clear();
        let mut i: usize = 0;
        while i < input.len()
            invariant
                i <= input@.len(),
                out@.len() == i,
                spec_table_sane(self.coefficients@),
                forall|j: int|
                    0 <= j < i ==> #[trigger] out@[j] == (if j < self.spec_coefficients().len() {
                        spec_windowed(self.spec_coefficients()[j] as int, input@[j])
                    } else {
                        input@[j]
                    }),
            decreases input@.len() - i,
        {
            let v = input[i];
            let next = if i < self.coefficients.len() {
                let c = self.coefficients[i];
                match v {
                    Channeled::Mono(x) => Channeled::Mono(Self::scale_one(x, c)),
                    Channeled::Stereo(a, b) => Channeled::Stereo(
                        Self::scale_one(a, c),
                        Self::scale_one(b, c),
                    ),
                }
            } else {
                v
            };
            out.push(next);
            i = i + 1;
        }
        Ok(true)
    }
}

impl MemoizedWindowingMapper {
    /// Scales one channel value by a taper factor.
    fn scale_one(x: i64, c: i64) -> (r: i64)
        requires
            0 <= c <= VALUE_ONE as int,
        ensures
            r == round_div(x * c, VALUE_ONE as int),
    {
        proof {
            crate::fraction::lemma_i64_prod_in_i128(x as int, c as int);
            assert(-0x1_0000_0000_0000_0000_0000_0000int <= (x as int) * (c as int)
                <= 0x1_0000_0000_0000_0000_0000_0000int) by (nonlinear_arith)
                requires
                    -0x8000_0000_0000_0000int <= x as int <= 0x7fff_ffff_ffff_ffffint,
                    0 <= c as int <= VALUE_ONE as int,
            ;
        }
        let q = round_div_wide((x as i128) * (c as i128), VALUE_ONE as i128);
        proof {
            let lo = vstd::math::min(x as int, 0);
            let hi = vstd::math::max(x as int, 0);
            assert(lo * (VALUE_ONE as int) <= x * c && x * c <= hi * (VALUE_ONE as int))
                by (nonlinear_arith)
                requires
                    0 <= c <= VALUE_ONE as int,
                    lo <= 0 <= hi,
                    lo <= x as int <= hi,
            ;
            lemma_round_div_bounds((x as i128) * (c as i128) as int, VALUE_ONE as int, lo, hi);
        }
        q as i64
    }
}

} // verus!
