use vstd::prelude::*;

use crate::channeled::{same_shape, Channeled};
use crate::errors::PipelineError;
use crate::fixed::{lemma_round_div_bounds, round_div, round_div_wide};
use crate::framed::FramedMapper;
use crate::fraction::Fraction;

verus! {

/// A smoothing factor is a rational in (0, 1] with a small denominator,
/// so the blend arithmetic stays far from the machine limits.
pub open spec fn alpha_sane(a: Fraction) -> bool {
    &&& 1 <= a.num() <= a.den()
    &&& a.den() <= 0x4000_0000
}

/// One recursive low-pass step on a single channel:
/// alpha * previous + (1 - alpha) * current, rounded back to the grid.
pub open spec fn spec_blend_one(alpha: Fraction, prev: int, cur: int) -> int {
    round_div(alpha.num() * prev + (alpha.den() - alpha.num()) * cur, alpha.den())
}

/// The blend applied to both channels; shapes are expected to match.
pub open spec fn spec_blend(alpha: Fraction, prev: Channeled<i64>, cur: Channeled<i64>) -> Channeled<
    i64,
>
    recommends
        same_shape(prev, cur),
{
    match (prev, cur) {
        (Channeled::Mono(p), Channeled::Mono(c)) => Channeled::Mono(
            spec_blend_one(alpha, p as int, c as int) as i64,
        ),
        (Channeled::Stereo(pl, pr), Channeled::Stereo(cl, cr)) => Channeled::Stereo(
            spec_blend_one(alpha, pl as int, cl as int) as i64,
            spec_blend_one(alpha, pr as int, cr as int) as i64,
        ),
        (_, c) => c,
    }
}

/// Two frames line up: same length and the same shape at every slot.
pub open spec fn frames_compatible(a: Seq<Channeled<i64>>, b: Seq<Channeled<i64>>) -> bool {
    &&& a.len() == b.len()
    &&& forall|i: int| 0 <= i < a.len() ==> same_shape(a[i], #[trigger] b[i])
}

/// The newest frame goes in front; at most depth + 1 frames are retained,
/// so a seek of up to `depth` steps stays answerable.
pub open spec fn spec_push_history(
    h: Seq<Seq<Channeled<i64>>>,
    f: Seq<Channeled<i64>>,
    depth: nat,
) -> Seq<Seq<Channeled<i64>>> {
    (seq![f] + h).take(vstd::math::min(depth as int + 1, h.len() as int + 1))
}

/// Single-pole recursive smoothing across time, with enough retained
/// output history to replay a bounded backward seek.
pub struct ExponentialSmoothing {
    previous: Vec<Vec<Channeled<i64>>>,
    n_prev: usize,
    alpha: Fraction,
}

impl ExponentialSmoothing {
    /// The retained outputs, newest first.
    pub closed spec fn spec_history(&self) -> Seq<Seq<Channeled<i64>>> {
        self.previous@.map_values(|v: Vec<Channeled<i64>>| v@)
    }

    /// The smoothing factor.
    pub closed spec fn spec_alpha(&self) -> Fraction {
        self.alpha
    }

    /// The seek-back limit.
    pub closed spec fn spec_depth(&self) -> nat {
        self.n_prev as nat
    }

    pub fn new(seek_back_limit: usize, alpha: Fraction) -> (r: ExponentialSmoothing)
        requires
            alpha_sane(alpha),
        ensures
            r.spec_history().len() == 0,
            r.spec_alpha() == alpha,
            r.spec_depth() == seek_back_limit,
    {
        let out = ExponentialSmoothing { previous: Vec::new(), n_prev: seek_back_limit, alpha };
        proof {
            assert(out.spec_history() =~= Seq::<Seq<Channeled<i64>>>::empty());
        }
        out
    }

    /// Rewinds by `n` emitted frames, dropping them from history; asking
    /// for more than is retained fails without touching the state.
    pub fn seek_back(&mut self, n: usize) -> (r: Result<(), PipelineError>)
        ensures
            final(self).spec_alpha() == old(self).spec_alpha(),
            final(self).spec_depth() == old(self).spec_depth(),
            n <= old(self).spec_history().len() ==> r is Ok && final(self).spec_history() == old(
                self,
            ).spec_history().skip(n as int),
            n > old(self).spec_history().len() ==> r == Err::<(), PipelineError>(
                PipelineError::SeekOutOfRange,
            ) && final(self).spec_history() == old(self).spec_history(),
    {
        if n > self.previous.len() {
            return Err(PipelineError::SeekOutOfRange);
        }
        let mut i: usize = 0;
        while i < n
            invariant
                i <= n,
                n <= old(self).spec_history().len(),
                self.spec_alpha() == old(self).spec_alpha(),
                self.spec_depth() == old(self).spec_depth(),
                self.spec_history() == old(self).spec_history().skip(i as int),
            decreases n - i,
        {
            proof {
                assert(self.spec_history().len() == self.previous@.len());
                assert(self.previous.len() > 0);
            }
            let ghost pre = self.previous@;
            self.previous.remove(0);
            i = i + 1;
            proof {
                assert(self.previous@ =~= pre.skip(1));
                let m_new = self.spec_history();
                let m_tgt = old(self).spec_history().skip(i as int);
                assert(m_new.len() == m_tgt.len());
                assert forall|j: int| 0 <= j < m_new.len() implies m_new[j] == m_tgt[j] by {
                    assert(m_new[j] == self.previous@[j]@);
                    assert(self.previous@[j] == pre[j + 1]);
                    assert(old(self).spec_history().skip(i - 1)[j + 1] == old(
                        self,
                    ).spec_history()[i - 1 + j + 1]);
                }
                assert(m_new =~= m_tgt);
            }
        }
        Ok(())
    }

    /// Blends one channel pair.
    fn blend_one(alpha: &Fraction, prev: i64, cur: i64) -> (r: i64)
        requires
            alpha_sane(*alpha),
        ensures
            r == spec_blend_one(*alpha, prev as int, cur as int),
    {
        let a = alpha.numer() as i128;
        let d = alpha.denom() as i128;
        let p = prev as i128;
        let c = cur as i128;
        proof {
            assert((-0x2000_0000_0000_0000_0000_0000int <= a * p
                <= 0x2000_0000_0000_0000_0000_0000int) && (-0x2000_0000_0000_0000_0000_0000int
                <= (d - a) * c <= 0x2000_0000_0000_0000_0000_0000int)) by (nonlinear_arith)
                requires
                    1 <= a <= d,
                    d <= 0x4000_0000,
                    -0x8000_0000_0000_0000int <= p <= 0x7fff_ffff_ffff_ffffint,
                    -0x8000_0000_0000_0000int <= c <= 0x7fff_ffff_ffff_ffffint,
            ;
        }
        let n = a * p + (d - a) * c;
        let out_wide = round_div_wide(n, d);
        proof {
            let lo = vstd::math::min(prev as int, cur as int);
            let hi = vstd::math::max(prev as int, cur as int);
            assert(lo * d <= n <= hi * d) by (nonlinear_arith)
                requires
                    1 <= a <= d,
                    n == a * p + (d - a) * c,
                    lo <= p <= hi,
                    lo <= c <= hi,
            ;
            lemma_round_div_bounds(n as int, d as int, lo, hi);
        }
        out_wide as i64
    }

    /// Pushes a frame copy in front of the history and trims it.
    fn push_history(&mut self, frame: &Vec<Channeled<i64>>)
        ensures
            final(self).spec_alpha() == old(self).spec_alpha(),
            final(self).spec_depth() == old(self).spec_depth(),
            final(self).spec_history() == spec_push_history(
                old(self).spec_history(),
                frame@,
                old(self).spec_depth(),
            ),
    {
        let mut copy: Vec<Channeled<i64>> = Vec::new();
        let mut i: usize = 0;
        while i < frame.len()
            invariant
                i <= frame.len(),
                copy@ == frame@.take(i as int),
            decreases frame.len() - i,
        {
            copy.push(frame[i]);
            i = i + 1;
        }
        proof {
            assert(copy@ =~= frame@);
        }
        self.previous.insert(0, copy);
        let cap = if self.n_prev == usize::MAX {
            usize::MAX
        } else {
            self.n_prev + 1
        };
        if self.previous.len() > cap {
            self.previous.truncate(cap);
        }
        proof {
            assert(self.spec_history() =~~= spec_push_history(
                old(self).spec_history(),
                frame@,
                old(self).spec_depth(),
            ));
        }
    }
}

impl FramedMapper<Channeled<i64>, Channeled<i64>> for ExponentialSmoothing {
    open spec fn spec_frame_size(&self, orig: nat) -> nat {
        orig
    }

    fn map_frame_size(&self, orig: usize) -> (r: usize) {
        orig
    }

    /// A backward pipeline seek rewinds this stage's retained outputs,
    /// exactly as `seek_back` states; forward seeks replay through `map`
    /// and leave the history alone.
    fn seek_stage(&mut self, n: isize) -> (r: Result<(), PipelineError>)
        ensures
            final(self).spec_alpha() == old(self).spec_alpha(),
            final(self).spec_depth() == old(self).spec_depth(),
            n >= 0 ==> r is Ok && final(self).spec_history() == old(self).spec_history(),
            (n < 0 && -(n as int) <= old(self).spec_history().len()) ==> r is Ok
                && final(self).spec_history() == old(self).spec_history().skip(-(n as int)),
            (n < 0 && -(n as int) > old(self).spec_history().len()) ==> r == Err::<
                (),
                PipelineError,
            >(PipelineError::SeekOutOfRange) && final(self).spec_history() == old(
                self,
            ).spec_history(),
    {
        if n >= 0 {
            Ok(())
        } else {
            let back = if n == isize::MIN {
                (isize::MAX as usize) + 1
            } else {
                (-n) as usize
            };
            self.seek_back(back)
        }
    }

    /// On the first tick the output is the raw input unchanged; afterwards
    /// every channel is blended with the previous output. The produced
    /// frame becomes the newest history entry.
    fn map(&mut self, input: &Vec<Channeled<i64>>, out: &mut Vec<Channeled<i64>>) -> (r: Result<
        bool,
        PipelineError,
    >)
        ensures
            final(self).spec_alpha() == old(self).spec_alpha(),
            final(self).spec_depth() == old(self).spec_depth(),
            !alpha_sane(old(self).spec_alpha()) ==> r == Err::<bool, PipelineError>(
                PipelineError::Config,
            ) && *final(self) == *old(self),
            (alpha_sane(old(self).spec_alpha()) && old(self).spec_history().len() == 0) ==> r
                == Ok::<bool, PipelineError>(true) && final(out)@ == input@
                && final(self).spec_history() == spec_push_history(
                old(self).spec_history(),
                input@,
                old(self).spec_depth(),
            ),
            (alpha_sane(old(self).spec_alpha()) && old(self).spec_history().len() > 0
                && !frames_compatible(old(self).spec_history()[0], input@)) ==> r == Err::<
                bool,
                PipelineError,
            >(PipelineError::ChannelMismatch) && *final(self) == *old(self),
            (alpha_sane(old(self).spec_alpha()) && old(self).spec_history().len() > 0
                && frames_compatible(old(self).spec_history()[0], input@)) ==> {
                &&& r == Ok::<bool, PipelineError>(true)
                &&& final(out)@.len() == input@.len()
                &&& (forall|i: int|
                    0 <= i < input@.len() ==> #[trigger] final(out)@[i] == spec_blend(
                        old(self).spec_alpha(),
                        old(self).spec_history()[0][i],
                        input@[i],
                    ))
                &&& final(self).spec_history() == spec_push_history(
                    old(self).spec_history(),
                    final(out)@,
                    old(self).spec_depth(),
                )
            },
            r matches Ok(p) ==> p,
    {
        let a_num = self.alpha.numer();
        let a_den = self.alpha.denom();
        if !(1 <= a_num && a_num as u64 <= a_den && a_den <= 0x4000_0000) {
            return Err(PipelineError::Config);
        }
        out.clear();
        if self.previous.len() == 0 {
            let mut i: usize = 0;
            while i < input.len()
                invariant
                    i <= input.len(),
                    out@ == input@.take(i as int),
                decreases input.len() - i,
            {
                out.push(input[i]);
                i = i + 1;
            }
            proof {
                assert(out@ =~= input@);
            }
            self.push_history(out);
            proof {
                assert(self.spec_history() == spec_push_history(
                    old(self).spec_history(),
                    input@,
                    old(self).spec_depth(),
                ));
            }
            return Ok(true);
        }
        if self.previous[0].len() != input.len() {
            proof {
                assert(self.spec_history()[0] == self.previous@[0]@);
                assert(!frames_compatible(old(self).spec_history()[0], input@));
            }
            return Err(PipelineError::ChannelMismatch);
        }
        proof {
            assert(self.spec_history()[0] == self.previous@[0]@);
        }
        let alpha = self.alpha;
        let mut i: usize = 0;
        while i < input.len()
            invariant
                alpha == self.spec_alpha(),
                alpha_sane(alpha),
                self == old(self),
                self.spec_history().len() > 0,
                self.spec_history()[0].len() == input@.len(),
                i <= input.len(),
                out@.len() == i,
                forall|j: int|
                    0 <= j < i ==> same_shape(self.spec_history()[0][j], input@[j])
                        && #[trigger] out@[j] == spec_blend(
                        alpha,
                        self.spec_history()[0][j],
                        input@[j],
                    ),
            decreases input.len() - i,
        {
            let prev = self.previous[0][i];
            let cur = input[i];
            let blended = match (prev, cur) {
                (Channeled::Mono(p), Channeled::Mono(c)) => Channeled::Mono(
                    Self::blend_one(&alpha, p, c),
                ),
                (Channeled::Stereo(pl, pr), Channeled::Stereo(cl, cr)) => Channeled::Stereo(
                    Self::blend_one(&alpha, pl, cl),
                    Self::blend_one(&alpha, pr, cr),
                ),
                _ => {
                    proof {
                        assert(!same_shape(
                            old(self).spec_history()[0][i as int],
                            input@[i as int],
                        ));
                        assert(!frames_compatible(old(self).spec_history()[0], input@));
                    }
                    return Err(PipelineError::ChannelMismatch);
                },
            };
            out.push(blended);
            i = i + 1;
        }
        proof {
            assert forall|j: int| 0 <= j < input@.len() implies same_shape(
                old(self).spec_history()[0][j],
                #[trigger] input@[j],
            ) by {
                assert(out@[j] == spec_blend(alpha, self.spec_history()[0][j], input@[j]));
            }
            assert(frames_compatible(old(self).spec_history()[0], input@));
        }
        self.push_history(out);
        Ok(true)
    }
}

/// After two ticks, seeking back one frame leaves the first tick's output
/// as the newest retained frame, so replaying the second tick blends
/// against exactly the state it originally saw.
pub proof fn lemma_seek_back_restores(
    first_out: Seq<Channeled<i64>>,
    second_out: Seq<Channeled<i64>>,
    depth: nat,
)
    requires
        depth >= 1,
    ensures
        ({
            let h1 = spec_push_history(Seq::<Seq<Channeled<i64>>>::empty(), first_out, depth);
            let h2 = spec_push_history(h1, second_out, depth);
            &&& h1.len() == 1
            &&& h1[0] == first_out
            &&& h2.len() == 2
            &&& h2.skip(1) == h1
        }),
{
    let h1 = spec_push_history(Seq::<Seq<Channeled<i64>>>::empty(), first_out, depth);
    let h2 = spec_push_history(h1, second_out, depth);
    assert(h1 =~= seq![first_out]);
    assert(h2 =~= seq![second_out, first_out]);
    assert(h2.skip(1) =~= h1);
}

} // verus!
