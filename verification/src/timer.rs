use vstd::prelude::*;

use crate::errors::PipelineError;
use crate::framed::Framed;

verus! {

/// A pass-through frame source that counts the ticks it serves, so a
/// driver outside the library can sample every n-th tick.
pub struct FramedTimed<S, T> {
    source: S,
    every_nth: usize,
    counter: usize,
    _in_typ: core::marker::PhantomData<T>,
}

impl<S, T> FramedTimed<S, T> where S: Framed<T> {
    /// Ticks served so far.
    pub closed spec fn spec_counter(&self) -> nat {
        self.counter as nat
    }

    /// The sampling period handed in at construction.
    pub closed spec fn spec_every_nth(&self) -> nat {
        self.every_nth as nat
    }

    pub fn new(source: S, every_nth: usize) -> (r: FramedTimed<S, T>)
        ensures
            r.spec_counter() == 0,
            r.spec_every_nth() == every_nth,
            r.spec_frame_size() == source.spec_frame_size(),
            r.spec_num_frames() == source.spec_num_frames(),
    {
        FramedTimed { source, every_nth, counter: 0, _in_typ: core::marker::PhantomData }
    }

    /// Whether the tick just served is one the driver wants to inspect.
    pub fn is_sampled_tick(&self) -> (r: bool)
        ensures
            r == (self.spec_every_nth() != 0 && self.spec_counter() % self.spec_every_nth()
                == 0),
    {
        self.every_nth != 0 && self.counter % self.every_nth == 0
    }
}

impl<S, T> Framed<T> for FramedTimed<S, T> where S: Framed<T> {
    closed spec fn spec_num_frames(&self) -> nat {
        self.source.spec_num_frames()
    }

    closed spec fn spec_num_frames_remain(&self) -> nat {
        self.source.spec_num_frames_remain()
    }

    closed spec fn spec_num_full_frames(&self) -> nat {
        self.source.spec_num_full_frames()
    }

    closed spec fn spec_frame_size(&self) -> nat {
        self.source.spec_frame_size()
    }

    fn num_frames(&self) -> (r: usize) {
        self.source.num_frames()
    }

    fn num_frames_remain(&self) -> (r: usize) {
        self.source.num_frames_remain()
    }

    fn num_full_frames(&self) -> (r: usize) {
        self.source.num_full_frames()
    }

    fn full_frame_size(&self) -> (r: usize) {
        self.source.full_frame_size()
    }

    fn seek_frame(&mut self, n: isize) -> (r: Result<(), PipelineError>) {
        self.source.seek_frame(n)
    }

    /// Serves the next frame and advances the tick counter, which wraps
    /// instead of overflowing.
    fn next_frame(&mut self, out: &mut Vec<T>) -> (r: Result<bool, PipelineError>)
        ensures
            final(self).spec_counter() == (if old(self).spec_counter() == usize::MAX {
                0nat
            } else {
                old(self).spec_counter() + 1
            }),
    {
        let result = self.source.next_frame(out);
        if self.counter == usize::MAX {
            self.counter = 0;
        } else {
            self.counter = self.counter + 1;
        }
        result
    }
}

} // verus!
