use vstd::prelude::*;

use crate::channeled::{spec_frame_uniform, Channeled};
use crate::errors::PipelineError;

verus! {

// The spectral stage's buffer and channel contract. The transform
// itself is floating point and runs outside the library; what is owed
// around it is exact: a frame splits into per-channel buffers only when
// it carries one shape, inputs shorter than the configured size are
// zero-padded, and the transformed channels merge back pointwise.

/// The left (or only) channel of a value.
pub open spec fn spec_left(v: Channeled<i64>) -> i64 {
    match v {
        Channeled::Mono(x) => x,
        Channeled::Stereo(a, _) => a,
    }
}

/// The right (or only) channel of a value.
pub open spec fn spec_right(v: Channeled<i64>) -> i64 {
    match v {
        Channeled::Mono(x) => x,
        Channeled::Stereo(_, b) => b,
    }
}

/// Splits a frame into its channel buffers: one buffer for a mono
/// frame, two for a stereo frame. A frame mixing the two shapes is a
/// fatal channel mismatch, exactly and only then.
pub fn split_channels(input: &Vec<Channeled<i64>>) -> (r: Result<
    (Vec<i64>, Option<Vec<i64>>),
    PipelineError,
>)
    ensures
        (r is Err) <==> !spec_frame_uniform(input@),
        (r == Err::<(Vec<i64>, Option<Vec<i64>>), PipelineError>(PipelineError::ChannelMismatch))
            <==> !spec_frame_uniform(input@),
        r matches Ok(p) ==> {
            &&& p.0@.len() == input@.len()
            &&& ((p.1 is Some) <==> (input@.len() > 0 && input@[0] is Stereo))
            &&& (forall|i: int| 0 <= i < input@.len() ==> #[trigger] p.0@[i] == spec_left(
                input@[i],
            ))
            &&& (p.1 matches Some(rv) ==> rv@.len() == input@.len() && (forall|i: int|
                0 <= i < input@.len() ==> #[trigger] rv@[i] == spec_right(input@[i])))
        },
{
    let stereo = match input.len() {
        0 => false,
        _ => match input[0] {
            Channeled::Mono(_) => false,
            Channeled::Stereo(_, _) => true,
        },
    };
    let mut left: Vec<i64> = Vec::new();
    let mut right: Vec<i64> = Vec::new();
    let mut i: usize = 0;
    while i < input.len()
        invariant
            i <= input@.len(),
            left@.len() == i,
            right@.len() == i,
            input@.len() > 0 ==> stereo == (input@[0] is Stereo),
            forall|j: int| 0 <= j < i ==> #[trigger] left@[j] == spec_left(input@[j]),
            forall|j: int| 0 <= j < i ==> #[trigger] right@[j] == spec_right(input@[j]),
            forall|j: int|
                0 <= j < i ==> crate::channeled::same_shape(#[trigger] input@[j], input@[0]),
        decreases input@.len() - i,
    {
        match (stereo, input[i]) {
            (false, Channeled::Mono(x)) => {
                left.push(x);
                right.push(x);
            },
            (true, Channeled::Stereo(a, b)) => {
                left.push(a);
                right.push(b);
            },
            _ => {
                proof {
                    assert(!crate::channeled::same_shape(input@[i as int], input@[0]));
                    assert(!spec_frame_uniform(input@));
                }
                return Err(PipelineError::ChannelMismatch);
            },
        }
        i = i + 1;
    }
    proof {
        assert(spec_frame_uniform(input@));
    }
    if stereo {
        Ok((left, Some(right)))
    } else {
        Ok((left, None))
    }
}

/// Merges transformed channel buffers back into a frame, pointwise; a
/// right buffer of a different length is a channel mismatch, exactly
/// and only then.
pub fn merge_channels(left: &Vec<i64>, right: &Option<Vec<i64>>) -> (r: Result<
    Vec<Channeled<i64>>,
    PipelineError,
>)
    ensures
        (r is Err) <==> (right matches Some(rv) && rv@.len() != left@.len()),
        r matches Err(e) ==> e == PipelineError::ChannelMismatch,
        r matches Ok(v) ==> {
            &&& v@.len() == left@.len()
            &&& (right is None ==> forall|i: int|
                0 <= i < left@.len() ==> #[trigger] v@[i] == Channeled::Mono(left@[i]))
            &&& (right matches Some(rv) ==> forall|i: int|
                0 <= i < left@.len() ==> #[trigger] v@[i] == Channeled::Stereo(
                    left@[i],
                    rv@[i],
                ))
        },
{
    let mut out: Vec<Channeled<i64>> = Vec::new();
    match right {
        None => {
            let mut i: usize = 0;
            while i < left.len()
                invariant
                    i <= left@.len(),
                    out@.len() == i,
                    forall|j: int|
                        0 <= j < i ==> #[trigger] out@[j] == Channeled::Mono(left@[j]),
                decreases left@.len() - i,
            {
                out.push(Channeled::Mono(left[i]));
                i = i + 1;
            }
            Ok(out)
        },
        Some(rv) => {
            if rv.len() != left.len() {
                return Err(PipelineError::ChannelMismatch);
            }
            let mut i: usize = 0;
            while i < left.len()
                invariant
                    i <= left@.len(),
                    rv@.len() == left@.len(),
                    out@.len() == i,
                    forall|j: int|
                        0 <= j < i ==> #[trigger] out@[j] == Channeled::Stereo(
                            left@[j],
                            rv@[j],
                        ),
                decreases left@.len() - i,
            {
                out.push(Channeled::Stereo(left[i], rv[i]));
                i = i + 1;
            }
            Ok(out)
        },
    }
}

/// Pads a channel buffer with zeros up to the configured transform
/// length; a buffer already long enough is left untouched.
pub fn zero_pad(buf: &mut Vec<i64>, n: usize)
    ensures
        final(buf)@.len() == vstd::math::max(old(buf)@.len() as int, n as int),
        final(buf)@.take(old(buf)@.len() as int) == old(buf)@,
        forall|i: int|
            old(buf)@.len() <= i < final(buf)@.len() ==> #[trigger] final(buf)@[i] == 0i64,
{
    let ghost base = buf@;
    while buf.len() < n
        invariant
            base.len() <= buf@.len(),
            buf@.len() <= vstd::math::max(base.len() as int, n as int),
            buf@.take(base.len() as int) == base,
            forall|i: int| base.len() <= i < buf@.len() ==> #[trigger] buf@[i] == 0i64,
        decreases n - buf@.len(),
    {
        let ghost pre = buf@;
        buf.push(0);
        proof {
            assert(buf@.take(base.len() as int) =~= pre.take(base.len() as int));
        }
    }
    proof {
        assert(buf@.take(base.len() as int) =~= base);
    }
}

} // verus!
