use vstd::prelude::*;

use crate::errors::PipelineError;
use crate::fixed::round_div;

verus! {

/// A pull-based source of single samples, with its stream geometry and
/// the sequence of samples it has yet to hand out.
pub trait Samples<T>: Sized {
    /// Samples per second.
    spec fn spec_sample_rate(&self) -> nat;

    /// Samples in the whole stream.
    spec fn spec_num_samples(&self) -> nat;

    /// The samples not yet handed out, oldest first.
    spec fn spec_pending(&self) -> Seq<T>;

    fn sample_rate(&self) -> (r: usize)
        ensures
            r == self.spec_sample_rate(),
    ;

    fn num_samples(&self) -> (r: usize)
        ensures
            r == self.spec_num_samples(),
    ;

    fn num_samples_remain(&self) -> (r: usize)
        ensures
            r == self.spec_pending().len(),
    ;

    /// Moves the read position by `n` samples; the stream geometry never
    /// changes.
    fn seek_samples(&mut self, n: isize) -> (r: Result<(), PipelineError>)
        ensures
            final(self).spec_sample_rate() == old(self).spec_sample_rate(),
            final(self).spec_num_samples() == old(self).spec_num_samples(),
    ;

    /// Pulls the next pending sample; `Ok(None)` signals end of stream
    /// and never an error.
    fn next_sample(&mut self) -> (r: Result<Option<T>, PipelineError>)
        ensures
            final(self).spec_sample_rate() == old(self).spec_sample_rate(),
            final(self).spec_num_samples() == old(self).spec_num_samples(),
            r matches Ok(v) ==> ((v is Some) <==> old(self).spec_pending().len() > 0),
            r matches Ok(v) ==> (v matches Some(x) ==> x == old(self).spec_pending()[0]
                && final(self).spec_pending() == old(self).spec_pending().skip(1)),
            r matches Ok(v) ==> (v is None ==> final(self).spec_pending()
                == old(self).spec_pending()),
    ;

    fn has_more_samples(&self) -> (r: bool)
        default_ensures
            r == (self.spec_pending().len() != 0),
    {
        self.num_samples_remain() != 0
    }

    /// How many samples cover the given duration, rounding to nearest.
    fn samples_from_dur(&self, dur_nanos: u64) -> (r: usize)
        requires
            self.spec_sample_rate() * dur_nanos <= u64::MAX,
            round_div((self.spec_sample_rate() * dur_nanos) as int, 1_000_000_000)
                <= usize::MAX,
        default_ensures
            r == round_div((self.spec_sample_rate() * dur_nanos) as int, 1_000_000_000),
    {
        let total = (self.sample_rate() as u128) * (dur_nanos as u128);
        let r = (2 * total + 1_000_000_000) / 2_000_000_000;
        r as usize
    }
}

/// A source that also knows how many interleaved channels it carries.
pub trait AudioSource {
    spec fn spec_num_channels(&self) -> nat;

    fn num_channels(&self) -> (r: usize)
        ensures
            r == self.spec_num_channels(),
    ;
}

/// A stateful frame transformer: one call per tick, with a declared
/// output size for each input size.
pub trait FramedMapper<T, R>: Sized {
    /// The declared output frame size for a given input frame size.
    spec fn spec_frame_size(&self, orig: nat) -> nat;

    fn map_frame_size(&self, orig: usize) -> (r: usize)
        ensures
            r == self.spec_frame_size(orig as nat),
    ;

    /// Transforms one frame; `Ok(false)` means no output this tick,
    /// which is not an error. The declared size never changes.
    fn map(&mut self, input: &Vec<T>, out: &mut Vec<R>) -> (r: Result<bool, PipelineError>)
        ensures
            forall|k: nat|
                final(self).spec_frame_size(k) == old(self).spec_frame_size(k),
            r matches Ok(true) ==> final(out)@.len() == old(self).spec_frame_size(
                input@.len() as nat,
            ),
    ;

    /// Rewinds or advances whatever per-tick state the stage keeps when
    /// the surrounding pipeline seeks by `n` frames; a stage with no
    /// seek-sensitive state keeps everything unchanged.
    fn seek_stage(&mut self, n: isize) -> (r: Result<(), PipelineError>)
        ensures
            forall|k: nat|
                final(self).spec_frame_size(k) == old(self).spec_frame_size(k),
        default_ensures
            r is Ok,
            *final(self) == *old(self),
    {
        Ok(())
    }
}

/// A pull-based source of whole frames.
pub trait Framed<T>: Sized {
    spec fn spec_num_frames(&self) -> nat;

    spec fn spec_num_frames_remain(&self) -> nat;

    spec fn spec_num_full_frames(&self) -> nat;

    /// The size of a full frame; late frames may come up short.
    spec fn spec_frame_size(&self) -> nat;

    fn num_frames(&self) -> (r: usize)
        ensures
            r == self.spec_num_frames(),
    ;

    fn num_frames_remain(&self) -> (r: usize)
        ensures
            r == self.spec_num_frames_remain(),
    ;

    fn num_full_frames(&self) -> (r: usize)
        ensures
            r == self.spec_num_full_frames(),
    ;

    fn full_frame_size(&self) -> (r: usize)
        ensures
            r == self.spec_frame_size(),
    ;

    /// Moves the frame position by `n`; the stream geometry never
    /// changes.
    fn seek_frame(&mut self, n: isize) -> (r: Result<(), PipelineError>)
        ensures
            final(self).spec_frame_size() == old(self).spec_frame_size(),
            final(self).spec_num_frames() == old(self).spec_num_frames(),
            final(self).spec_num_full_frames() == old(self).spec_num_full_frames(),
    ;

    /// Produces the next frame into `out`; `Ok(false)` signals end of
    /// stream and never an error.
    fn next_frame(&mut self, out: &mut Vec<T>) -> (r: Result<bool, PipelineError>)
        ensures
            final(self).spec_frame_size() == old(self).spec_frame_size(),
            final(self).spec_num_frames() == old(self).spec_num_frames(),
            final(self).spec_num_full_frames() == old(self).spec_num_full_frames(),
    ;

    fn num_full_frames_remain(&self) -> (r: usize)
        default_ensures
            r == spec_full_frames_remain(
                self.spec_num_frames(),
                self.spec_num_frames_remain(),
                self.spec_num_full_frames(),
            ),
    {
        let total_full_frames = self.num_full_frames();
        let total = self.num_frames();
        let remain = self.num_frames_remain();
        let frames_consumed = if total >= remain {
            total - remain
        } else {
            0
        };
        if frames_consumed > total_full_frames {
            0
        } else {
            total_full_frames - frames_consumed
        }
    }
}

/// Full frames left once the frames already consumed are taken out.
pub open spec fn spec_full_frames_remain(total: nat, remain: nat, full: nat) -> nat {
    let consumed = if total >= remain {
        (total - remain) as nat
    } else {
        0nat
    };
    if consumed > full {
        0nat
    } else {
        (full - consumed) as nat
    }
}

/// An in-memory sample source, the entry point for buffers that are
/// already decoded.
pub struct VecSource<T> {
    data: Vec<T>,
    at: usize,
    rate: usize,
    channels: usize,
}

impl<T: Copy> VecSource<T> {
    /// The whole stream, read position included.
    pub closed spec fn spec_all(&self) -> Seq<T> {
        self.data@
    }

    /// How many samples have been handed out or skipped, clamped to the
    /// stream length.
    pub closed spec fn spec_taken(&self) -> nat {
        if self.at <= self.data@.len() {
            self.at as nat
        } else {
            self.data@.len()
        }
    }

    pub fn new(data: Vec<T>, rate: usize, channels: usize) -> (r: VecSource<T>)
        ensures
            r.spec_num_samples() == data@.len(),
            r.spec_sample_rate() == rate,
            r.spec_pending() == data@,
            r.spec_all() == data@,
            r.spec_taken() == 0,
    {
        VecSource { data, at: 0, rate, channels }
    }
}

impl<T: Copy> Samples<T> for VecSource<T> {
    closed spec fn spec_sample_rate(&self) -> nat {
        self.rate as nat
    }

    closed spec fn spec_num_samples(&self) -> nat {
        self.data@.len()
    }

    closed spec fn spec_pending(&self) -> Seq<T> {
        self.data@.skip(self.spec_taken() as int)
    }

    fn sample_rate(&self) -> (r: usize) {
        self.rate
    }

    fn num_samples(&self) -> (r: usize) {
        self.data.len()
    }

    fn num_samples_remain(&self) -> (r: usize) {
        if self.at <= self.data.len() {
            self.data.len() - self.at
        } else {
            0
        }
    }

    /// Moves the read position, clamping at either end of the stream;
    /// the position afterwards is pinned exactly.
    fn seek_samples(&mut self, n: isize) -> (r: Result<(), PipelineError>)
        ensures
            r is Ok,
            final(self).spec_all() == old(self).spec_all(),
            n >= 0 ==> final(self).spec_taken() == vstd::math::min(
                old(self).spec_taken() + n,
                old(self).spec_num_samples() as int,
            ),
            n < 0 ==> final(self).spec_taken() == vstd::math::max(
                old(self).spec_taken() - (-(n as int)),
                0,
            ),
            final(self).spec_pending() == final(self).spec_all().skip(
                final(self).spec_taken() as int,
            ),
    {
        if self.at > self.data.len() {
            self.at = self.data.len();
        }
        if n >= 0 {
            let step = n as usize;
            if step <= self.data.len() && self.at <= self.data.len() - step {
                self.at = self.at + step;
            } else {
                self.at = self.data.len();
            }
        } else {
            let back = if n == isize::MIN {
                (isize::MAX as usize) + 1
            } else {
                (-n) as usize
            };
            if back <= self.at {
                self.at = self.at - back;
            } else {
                self.at = 0;
            }
        }
        Ok(())
    }

    fn next_sample(&mut self) -> (r: Result<Option<T>, PipelineError>) {
        if self.at < self.data.len() {
            let v = self.data[self.at];
            self.at = self.at + 1;
            proof {
                assert(self.spec_pending() =~= old(self).spec_pending().skip(1));
            }
            Ok(Some(v))
        } else {
            Ok(None)
        }
    }
}

impl<T: Copy> AudioSource for VecSource<T> {
    closed spec fn spec_num_channels(&self) -> nat {
        self.channels as nat
    }

    fn num_channels(&self) -> (r: usize) {
        self.channels
    }
}

/// A pure per-sample conversion, the entry stage that turns raw samples
/// into the pipeline's working numeric type.
pub trait SampleMapper<T, R> {
    /// The value the conversion produces.
    spec fn spec_apply(&self, v: T) -> R;

    fn apply(&self, v: T) -> (r: R)
        ensures
            r == self.spec_apply(v),
    ;
}

/// A sample source with a pure conversion applied to every sample.
pub struct MappedSamples<S, M, T, R> {
    source: S,
    mapper: M,
    _src_typ: core::marker::PhantomData<T>,
    _dst_typ: core::marker::PhantomData<R>,
}

impl<S, M, T, R> MappedSamples<S, M, T, R> where S: Samples<T>, M: SampleMapper<T, R> {
    /// The conversion this source applies.
    pub closed spec fn spec_mapper(&self) -> M {
        self.mapper
    }

    pub fn new(source: S, mapper: M) -> (r: MappedSamples<S, M, T, R>)
        ensures
            r.spec_num_samples() == source.spec_num_samples(),
            r.spec_sample_rate() == source.spec_sample_rate(),
            r.spec_pending() == source.spec_pending().map_values(
                |t: T| mapper.spec_apply(t),
            ),
            r.spec_mapper() == mapper,
    {
        MappedSamples {
            source,
            mapper,
            _src_typ: core::marker::PhantomData,
            _dst_typ: core::marker::PhantomData,
        }
    }
}

impl<S, M, T, R> Samples<R> for MappedSamples<S, M, T, R> where
    S: Samples<T>,
    M: SampleMapper<T, R>,
 {
    closed spec fn spec_sample_rate(&self) -> nat {
        self.source.spec_sample_rate()
    }

    closed spec fn spec_num_samples(&self) -> nat {
        self.source.spec_num_samples()
    }

    closed spec fn spec_pending(&self) -> Seq<R> {
        self.source.spec_pending().map_values(|t: T| self.mapper.spec_apply(t))
    }

    fn sample_rate(&self) -> (r: usize) {
        self.source.sample_rate()
    }

    fn num_samples(&self) -> (r: usize) {
        self.source.num_samples()
    }

    fn num_samples_remain(&self) -> (r: usize) {
        self.source.num_samples_remain()
    }

    fn seek_samples(&mut self, n: isize) -> (r: Result<(), PipelineError>) {
        self.source.seek_samples(n)
    }

    fn next_sample(&mut self) -> (r: Result<Option<R>, PipelineError>) {
        match self.source.next_sample() {
            Err(e) => Err(e),
            Ok(None) => Ok(None),
            Ok(Some(next)) => {
                let mapped = self.mapper.apply(next);
                proof {
                    assert(mapped == old(self).spec_pending()[0]);
                    assert(self.spec_pending() =~= old(self).spec_pending().skip(1));
                }
                Ok(Some(mapped))
            },
        }
    }
}

/// A frame source with a frame transformer applied to every frame.
pub struct MappedFramed<S, M, T, R> {
    source: S,
    mapper: M,
    buf: Vec<T>,
    _dst_typ: core::marker::PhantomData<R>,
}

impl<S, M, T, R> MappedFramed<S, M, T, R> where S: Framed<T>, M: FramedMapper<T, R> {
    pub fn new(source: S, mapper: M) -> (r: MappedFramed<S, M, T, R>)
        ensures
            r.spec_frame_size() == mapper.spec_frame_size(source.spec_frame_size()),
            r.spec_num_frames() == source.spec_num_frames(),
    {
        MappedFramed { source, mapper, buf: Vec::new(), _dst_typ: core::marker::PhantomData }
    }
}

impl<S, M, T, R> Framed<R> for MappedFramed<S, M, T, R> where S: Framed<T>, M: FramedMapper<
    T,
    R,
> {
    closed spec fn spec_num_frames(&self) -> nat {
        self.source.spec_num_frames()
    }

    closed spec fn spec_num_frames_remain(&self) -> nat {
        self.source.spec_num_frames_remain()
    }

    closed spec fn spec_num_full_frames(&self) -> nat {
        self.source.spec_num_full_frames()
    }

    closed spec fn spec_frame_size(&self) -> nat {
        self.mapper.spec_frame_size(self.source.spec_frame_size())
    }

    fn num_frames(&self) -> (r: usize) {
        self.source.num_frames()
    }

    fn num_frames_remain(&self) -> (r: usize) {
        self.source.num_frames_remain()
    }

    fn num_full_frames(&self) -> (r: usize) {
        self.source.num_full_frames()
    }

    fn full_frame_size(&self) -> (r: usize) {
        self.mapper.map_frame_size(self.source.full_frame_size())
    }

    /// Seeks the underlying source, then gives the stage its chance to
    /// rewind retained state (the time-smoothing stages restore their
    /// history here on a backward seek).
    fn seek_frame(&mut self, n: isize) -> (r: Result<(), PipelineError>) {
        match self.source.seek_frame(n) {
            Err(e) => {
                return Err(e);
            },
            Ok(()) => {},
        }
        self.mapper.seek_stage(n)
    }

    fn next_frame(&mut self, out: &mut Vec<R>) -> (r: Result<bool, PipelineError>) {
        let produced = match self.source.next_frame(&mut self.buf) {
            Err(e) => {
                return Err(e);
            },
            Ok(p) => p,
        };
        if !produced {
            return Ok(false);
        }
        self.mapper.map(&self.buf, out)
    }
}


/// Lifts a pure per-sample conversion to a whole-frame stage.
#[verifier::reject_recursive_types(T)]
#[verifier::reject_recursive_types(R)]
pub struct FramedMapFn<T, R, F> {
    mapper: F,
    _in_typ: core::marker::PhantomData<T>,
    _out_typ: core::marker::PhantomData<R>,
}

impl<T, R, F> FramedMapFn<T, R, F> where F: SampleMapper<T, R> {
    /// The conversion this stage applies.
    pub closed spec fn spec_mapper(&self) -> F {
        self.mapper
    }

    pub fn new(mapper: F) -> (r: FramedMapFn<T, R, F>)
        ensures
            r.spec_mapper() == mapper,
    {
        FramedMapFn { mapper, _in_typ: core::marker::PhantomData, _out_typ: core::marker::PhantomData }
    }
}

impl<T: Copy, R, F> FramedMapper<T, R> for FramedMapFn<T, R, F> where F: SampleMapper<T, R> {
    open spec fn spec_frame_size(&self, orig: nat) -> nat {
        orig
    }

    fn map_frame_size(&self, orig: usize) -> (r: usize) {
        orig
    }

    fn map(&mut self, input: &Vec<T>, out: &mut Vec<R>) -> (r: Result<bool, PipelineError>)
        ensures
            final(self).spec_mapper() == old(self).spec_mapper(),
            r == Ok::<bool, PipelineError>(true),
            final(out)@.len() == input@.len(),
            forall|i: int|
                0 <= i < input@.len() ==> #[trigger] final(out)@[i] == old(
                    self,
                ).spec_mapper().spec_apply(input@[i]),
    {
        out.clear();
        let mut i: usize = 0;
        while i < input.len()
            invariant
                i <= input@.len(),
                out@.len() == i,
                forall|j: int|
                    0 <= j < i ==> #[trigger] out@[j] == self.spec_mapper().spec_apply(
                        input@[j],
                    ),
            decreases input@.len() - i,
        {
            let v = self.mapper.apply(input[i]);
            out.push(v);
            i = i + 1;
        }
        Ok(true)
    }
}

/// Lifts a pure same-type per-sample rewrite to a whole-frame stage.
#[verifier::reject_recursive_types(T)]
pub struct FramedMutMapFn<T, F> {
    mapper: F,
    _in_typ: core::marker::PhantomData<T>,
}

impl<T, F> FramedMutMapFn<T, F> where F: SampleMapper<T, T> {
    /// The rewrite this stage applies.
    pub closed spec fn spec_mapper(&self) -> F {
        self.mapper
    }

    pub fn new(mapper: F) -> (r: FramedMutMapFn<T, F>)
        ensures
            r.spec_mapper() == mapper,
    {
        FramedMutMapFn { mapper, _in_typ: core::marker::PhantomData }
    }
}

impl<T: Copy, F> FramedMapper<T, T> for FramedMutMapFn<T, F> where F: SampleMapper<T, T> {
    open spec fn spec_frame_size(&self, orig: nat) -> nat {
        orig
    }

    fn map_frame_size(&self, orig: usize) -> (r: usize) {
        orig
    }

    fn map(&mut self, input: &Vec<T>, out: &mut Vec<T>) -> (r: Result<bool, PipelineError>)
        ensures
            final(self).spec_mapper() == old(self).spec_mapper(),
            r == Ok::<bool, PipelineError>(true),
            final(out)@.len() == input@.len(),
            forall|i: int|
                0 <= i < input@.len() ==> #[trigger] final(out)@[i] == old(
                    self,
                ).spec_mapper().spec_apply(input@[i]),
    {
        out.clear();
        let mut i: usize = 0;
        while i < input.len()
            invariant
                i <= input@.len(),
                out@.len() == i,
                forall|j: int|
                    0 <= j < i ==> #[trigger] out@[j] == self.spec_mapper().spec_apply(
                        input@[j],
                    ),
            decreases input@.len() - i,
        {
            let v = self.mapper.apply(input[i]);
            out.push(v);
            i = i + 1;
        }
        Ok(true)
    }
}


} // verus!
