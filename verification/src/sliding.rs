use vstd::prelude::*;

use crate::errors::PipelineError;
use crate::framed::{Framed, Samples};

verus! {

/// How many samples a tick pulls: enough to fill the frame, or all that
/// the source still has.
pub open spec fn spec_fill_count(size: int, buffered: int, pending: int) -> int {
    if buffered >= size {
        0
    } else {
        vstd::math::min(size - buffered, pending)
    }
}

/// The samples surviving the start-of-tick drop: everything but the
/// oldest stride (an untouched buffer keeps everything).
pub open spec fn spec_after_drop<T>(buf: Seq<T>, stride: int) -> Seq<T> {
    if buf.len() == 0 {
        buf
    } else {
        buf.skip(stride)
    }
}

/// Turns a sample stream into overlapping frames: each tick drops the
/// oldest `stride` samples, pulls new ones until the frame is full, and
/// signals end of stream when a full frame can no longer be built.
pub struct SlidingFrame<S, T> {
    source: S,
    buf: Vec<T>,
    size: usize,
    stride: usize,
}

impl<S, T> SlidingFrame<S, T> where S: Samples<T>, T: Copy {
    /// The samples currently buffered.
    pub closed spec fn spec_buffered(&self) -> Seq<T> {
        self.buf@
    }

    /// The stride between consecutive frames, never zero.
    pub closed spec fn spec_stride(&self) -> nat {
        if self.stride == 0 {
            1nat
        } else {
            self.stride as nat
        }
    }

    /// The source this framer pulls from.
    pub closed spec fn spec_source(&self) -> S {
        self.source
    }

    /// The source's samples not yet pulled.
    pub open spec fn spec_source_pending(&self) -> Seq<T> {
        self.spec_source().spec_pending()
    }

    /// A zero stride is read as one: every tick advances.
    pub fn new(source: S, size: usize, stride: usize) -> (r: SlidingFrame<S, T>)
        ensures
            r.spec_frame_size() == size,
            r.spec_stride() == (if stride == 0 {
                1nat
            } else {
                stride as nat
            }),
            r.spec_buffered().len() == 0,
            r.spec_source() == source,
    {
        let stride = if stride == 0 {
            1
        } else {
            stride
        };
        SlidingFrame { source, buf: Vec::new(), size, stride }
    }

    /// Drops the oldest `k` buffered samples.
    fn drop_buf_prefix(&mut self, k: usize)
        requires
            k <= old(self).spec_buffered().len(),
        ensures
            final(self).spec_buffered() == old(self).spec_buffered().skip(k as int),
            final(self).spec_source() == old(self).spec_source(),
            final(self).spec_stride() == old(self).spec_stride(),
            final(self).spec_frame_size() == old(self).spec_frame_size(),
    {
        let mut kept: Vec<T> = Vec::new();
        let mut i: usize = k;
        while i < self.buf.len()
            invariant
                k <= i <= self.buf.len(),
                kept@ == self.buf@.subrange(k as int, i as int),
            decreases self.buf.len() - i,
        {
            kept.push(self.buf[i]);
            i = i + 1;
        }
        proof {
            assert(kept@ == self.buf@.skip(k as int));
        }
        self.buf = kept;
    }

    /// Pulls pending samples, oldest first, until the buffer holds a
    /// full frame or the source runs dry.
    fn fill_buf(&mut self) -> (r: Result<(), PipelineError>)
        ensures
            final(self).spec_stride() == old(self).spec_stride(),
            final(self).spec_frame_size() == old(self).spec_frame_size(),
            final(self).spec_source().spec_num_samples() == old(
                self,
            ).spec_source().spec_num_samples(),
            final(self).spec_source().spec_sample_rate() == old(
                self,
            ).spec_source().spec_sample_rate(),
            r is Ok ==> ({
                let k = spec_fill_count(
                    old(self).spec_frame_size() as int,
                    old(self).spec_buffered().len() as int,
                    old(self).spec_source_pending().len() as int,
                );
                &&& final(self).spec_buffered() == old(self).spec_buffered() + old(
                    self,
                ).spec_source_pending().take(k)
                &&& final(self).spec_source_pending() == old(self).spec_source_pending().skip(k)
            }),
            r is Err ==> exists|j: int|
                0 <= j <= old(self).spec_source_pending().len() && final(self).spec_buffered()
                    == old(self).spec_buffered() + #[trigger] old(
                    self,
                ).spec_source_pending().take(j),
    {
        let ghost all = old(self).spec_source_pending();
        let ghost base = old(self).spec_buffered();
        loop
            invariant
                base == old(self).spec_buffered(),
                all == old(self).spec_source_pending(),
                self.spec_stride() == old(self).spec_stride(),
                self.spec_frame_size() == old(self).spec_frame_size(),
                self.spec_source().spec_num_samples() == old(
                    self,
                ).spec_source().spec_num_samples(),
                self.spec_source().spec_sample_rate() == old(
                    self,
                ).spec_source().spec_sample_rate(),
                base.len() <= self.spec_buffered().len(),
                self.spec_buffered() == base + all.take(
                    self.spec_buffered().len() - base.len(),
                ),
                self.spec_buffered().len() - base.len() <= all.len(),
                self.spec_source_pending() == all.skip(
                    self.spec_buffered().len() - base.len(),
                ),
                self.spec_buffered().len() > base.len() ==> base.len() < old(
                    self,
                ).spec_frame_size() && self.spec_buffered().len() <= old(self).spec_frame_size(),
            decreases self.spec_source_pending().len() + 1,
        {
            let ghost j = self.spec_buffered().len() - base.len();
            if self.buf.len() >= self.size {
                proof {
                    lemma_fill_done(
                        old(self).spec_frame_size() as int,
                        base.len() as int,
                        all.len() as int,
                        j as int,
                        self.spec_buffered().len() as int,
                    );
                    assert(j == spec_fill_count(
                        old(self).spec_frame_size() as int,
                        base.len() as int,
                        all.len() as int,
                    ));
                }
                return Ok(());
            }
            match self.source.next_sample() {
                Err(e) => {
                    proof {
                        assert(self.spec_buffered() == base + all.take(j as int));
                    }
                    return Err(e);
                },
                Ok(None) => {
                    proof {
                        assert(all.skip(j as int).len() == 0);
                        assert(j == all.len());
                        assert(all.take(j as int) =~= all);
                        assert(self.spec_buffered().len() < old(self).spec_frame_size());
                        assert(j == spec_fill_count(
                            old(self).spec_frame_size() as int,
                            base.len() as int,
                            all.len() as int,
                        ));
                    }
                    return Ok(());
                },
                Ok(Some(v)) => {
                    let ghost pre = self.buf@;
                    self.buf.push(v);
                    proof {
                        assert(v == all.skip(j as int)[0]);
                        assert(v == all[j as int]);
                        assert(self.buf@ =~= base + all.take(j as int + 1));
                        assert(all.skip(j as int).skip(1) =~= all.skip(j as int + 1));
                    }
                },
            }
        }
    }
}

/// Stopping at a full buffer matches the fill count.
proof fn lemma_fill_done(size: int, base: int, avail: int, j: int, buffered: int)
    requires
        0 <= j <= avail,
        buffered == base + j,
        buffered >= size,
        j == 0 || (base < size && buffered <= size),
    ensures
        j == spec_fill_count(size, base, avail),
{
}

impl<S, T> Framed<T> for SlidingFrame<S, T> where S: Samples<T>, T: Copy {
    closed spec fn spec_num_frames(&self) -> nat {
        self.source.spec_num_samples() / self.spec_stride()
    }

    closed spec fn spec_num_frames_remain(&self) -> nat {
        self.source.spec_pending().len() / self.spec_stride()
    }

    closed spec fn spec_num_full_frames(&self) -> nat {
        let samples = self.source.spec_num_samples() as int;
        let non_full = if self.size >= 1 {
            self.size as int - 1
        } else {
            0int
        };
        if non_full > samples {
            0nat
        } else {
            ((samples - non_full) as nat) / self.spec_stride()
        }
    }

    closed spec fn spec_frame_size(&self) -> nat {
        self.size as nat
    }

    fn num_frames(&self) -> (r: usize) {
        let stride = if self.stride == 0 {
            1
        } else {
            self.stride
        };
        self.source.num_samples() / stride
    }

    fn num_frames_remain(&self) -> (r: usize) {
        let stride = if self.stride == 0 {
            1
        } else {
            self.stride
        };
        self.source.num_samples_remain() / stride
    }

    fn num_full_frames(&self) -> (r: usize) {
        let stride = if self.stride == 0 {
            1
        } else {
            self.stride
        };
        let samples = self.source.num_samples();
        let non_full = if self.size >= 1 {
            self.size - 1
        } else {
            0
        };
        if non_full > samples {
            0
        } else {
            (samples - non_full) / stride
        }
    }

    fn full_frame_size(&self) -> (r: usize) {
        self.size
    }

    /// A backward seek first gives back the newest buffered samples; a
    /// forward seek drops the oldest. The remainder of the distance is
    /// delegated to the source.
    fn seek_frame(&mut self, n: isize) -> (r: Result<(), PipelineError>)
        ensures
            final(self).spec_stride() == old(self).spec_stride(),
            n > 0 ==> final(self).spec_buffered() == old(self).spec_buffered().skip(
                vstd::math::min(n as int, old(self).spec_buffered().len() as int),
            ),
            n < 0 ==> final(self).spec_buffered() == old(self).spec_buffered().take(
                old(self).spec_buffered().len() - vstd::math::min(
                    -(n as int),
                    old(self).spec_buffered().len() as int,
                ),
            ),
            n == 0 ==> final(self).spec_buffered() == old(self).spec_buffered(),
    {
        if n < 0 {
            let back = if n == isize::MIN {
                (isize::MAX as usize) + 1
            } else {
                (-n) as usize
            };
            let buf_len = self.buf.len();
            let to_remove = if buf_len < back {
                buf_len
            } else {
                back
            };
            let keep = buf_len - to_remove;
            self.buf.truncate(keep);
            proof {
                assert(self.buf@ =~= old(self).spec_buffered().take(
                    old(self).spec_buffered().len() - vstd::math::min(
                        -(n as int),
                        old(self).spec_buffered().len() as int,
                    ),
                ));
            }
        } else if n > 0 {
            let buf_len = self.buf.len();
            let fwd = n as usize;
            let to_remove = if buf_len < fwd {
                buf_len
            } else {
                fwd
            };
            self.drop_buf_prefix(to_remove);
        }
        self.source.seek_samples(n)
    }

    /// One tick: if fewer than `stride` samples are buffered the stream
    /// has ended; otherwise the oldest `stride` are dropped and pending
    /// samples pulled in order. Only a full-size frame is emitted; a
    /// buffer that cannot reach full size signals end of stream instead.
    fn next_frame(&mut self, out: &mut Vec<T>) -> (r: Result<bool, PipelineError>)
        ensures
            final(self).spec_stride() == old(self).spec_stride(),
            (old(self).spec_buffered().len() != 0 && old(self).spec_buffered().len() < old(
                self,
            ).spec_stride()) ==> (r == Ok::<bool, PipelineError>(false) && final(self).spec_buffered().len() == 0 && final(self).spec_source() == old(self).spec_source()),
            (r is Ok && !(old(self).spec_buffered().len() != 0 && old(
                self,
            ).spec_buffered().len() < old(self).spec_stride()) && old(self).spec_buffered().len()
                <= old(self).spec_frame_size()) ==> ({
                let kept = spec_after_drop(
                    old(self).spec_buffered(),
                    old(self).spec_stride() as int,
                );
                let k = spec_fill_count(
                    old(self).spec_frame_size() as int,
                    kept.len() as int,
                    old(self).spec_source_pending().len() as int,
                );
                let filled = kept + old(self).spec_source_pending().take(k);
                &&& final(self).spec_buffered() == filled
                &&& final(self).spec_source_pending() == old(self).spec_source_pending().skip(k)
                &&& ((r == Ok::<bool, PipelineError>(true)) <==> (filled.len() == old(
                    self,
                ).spec_frame_size() && old(self).spec_frame_size() > 0))
                &&& (r == Ok::<bool, PipelineError>(true) ==> final(out)@ == filled)
            }),
    {
        let stride = if self.stride == 0 {
            1
        } else {
            self.stride
        };
        if self.buf.len() != 0 {
            if self.buf.len() < stride {
                self.buf.clear();
                return Ok(false);
            }
            self.drop_buf_prefix(stride);
        }
        match self.fill_buf() {
            Err(e) => {
                return Err(e);
            },
            Ok(()) => {},
        }
        if self.buf.len() < self.size || self.buf.len() == 0 {
            return Ok(false);
        }
        out.clear();
        let mut i: usize = 0;
        while i < self.buf.len()
            invariant
                i <= self.buf.len(),
                out@ == self.buf@.take(i as int),
            decreases self.buf.len() - i,
        {
            out.push(self.buf[i]);
            i = i + 1;
        }
        proof {
            assert(out@ == self.buf@);
        }
        Ok(true)
    }
}

} // verus!
