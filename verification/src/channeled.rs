use vstd::prelude::*;

verus! {

/// One value per audio channel: a single value for mono streams, a left
/// and a right value for stereo streams.
#[derive(Clone, Copy, Debug, PartialEq, Eq, Hash)]
pub enum Channeled<T> {
    Mono(T),
    Stereo(T, T),
}

/// Two channeled values carry the same mono/stereo shape.
pub open spec fn same_shape<A, B>(a: Channeled<A>, b: Channeled<B>) -> bool {
    a is Mono <==> b is Mono
}

/// Every value in the frame carries one shape.
pub open spec fn spec_frame_uniform(s: Seq<Channeled<i64>>) -> bool {
    forall|i: int, j: int|
        0 <= i < s.len() && 0 <= j < s.len() ==> same_shape(#[trigger] s[i], #[trigger] s[j])
}

impl<T> Channeled<T> {
    /// Applies `f` to every channel, keeping the mono/stereo shape.
    pub fn map<R, F: Fn(T) -> R>(self, f: F) -> (r: Channeled<R>)
        requires
            self matches Channeled::Mono(a) ==> call_requires(f, (a,)),
            self matches Channeled::Stereo(a, b) ==> call_requires(f, (a,)) && call_requires(
                f,
                (b,),
            ),
        ensures
            same_shape(self, r),
            self matches Channeled::Mono(a) ==> (r matches Channeled::Mono(x) && call_ensures(
                f,
                (a,),
                x,
            )),
            self matches Channeled::Stereo(a, b) ==> (r matches Channeled::Stereo(x, y)
                && call_ensures(f, (a,), x) && call_ensures(f, (b,), y)),
    {
        match self {
            Channeled::Stereo(a, b) => Channeled::Stereo(f(a), f(b)),
            Channeled::Mono(a) => Channeled::Mono(f(a)),
        }
    }

    /// Applies a fallible `f` to every channel; the first error wins.
    pub fn try_map<R, X, F: Fn(T) -> Result<R, X>>(self, f: F) -> (r: Result<Channeled<R>, X>)
        requires
            self matches Channeled::Mono(a) ==> call_requires(f, (a,)),
            self matches Channeled::Stereo(a, b) ==> call_requires(f, (a,)) && call_requires(
                f,
                (b,),
            ),
        ensures
            r matches Ok(out) ==> same_shape(self, out),
            self matches Channeled::Mono(a) ==> (r matches Ok(out) ==> (out matches
                Channeled::Mono(x) && call_ensures(f, (a,), Ok(x)))),
            self matches Channeled::Stereo(a, b) ==> (r matches Ok(out) ==> (out matches
                Channeled::Stereo(x, y) && call_ensures(f, (a,), Ok(x)) && call_ensures(
                f,
                (b,),
                Ok(y),
            ))),
    {
        self.map(f).invert_result()
    }

    /// Runs `f` on every channel for its effect alone.
    pub fn for_each<F: Fn(T) -> ()>(self, f: F)
        requires
            self matches Channeled::Mono(a) ==> call_requires(f, (a,)),
            self matches Channeled::Stereo(a, b) ==> call_requires(f, (a,)) && call_requires(
                f,
                (b,),
            ),
    {
        self.map(f);
    }

    /// Borrows every channel in place.
    pub fn as_ref(&self) -> (r: Channeled<&T>)
        ensures
            same_shape(*self, r),
            self matches Channeled::Mono(a) ==> (r matches Channeled::Mono(x) && *x == a),
            self matches Channeled::Stereo(a, b) ==> (r matches Channeled::Stereo(x, y) && *x
                == a && *y == b),
    {
        match self {
            Channeled::Stereo(a, b) => Channeled::Stereo(a, b),
            Channeled::Mono(v) => Channeled::Mono(v),
        }
    }

    /// Pairs two channeled values pointwise; mixing mono with stereo is a
    /// shape mismatch and yields `None`.
    pub fn zip<O>(self, other: Channeled<O>) -> (r: Option<Channeled<(T, O)>>)
        ensures
            (r is Some) <==> same_shape(self, other),
            self matches Channeled::Mono(a) ==> (other matches Channeled::Mono(b) ==> r
                == Some(Channeled::Mono((a, b)))),
            self matches Channeled::Stereo(al, ar) ==> (other matches Channeled::Stereo(bl, br)
                ==> r == Some(Channeled::Stereo((al, bl), (ar, br)))),
    {
        match (self, other) {
            (Channeled::Stereo(al, ar), Channeled::Stereo(bl, br)) => Some(
                Channeled::Stereo((al, bl), (ar, br)),
            ),
            (Channeled::Mono(a), Channeled::Mono(b)) => Some(Channeled::Mono((a, b))),
            _ => None,
        }
    }
}

impl<R, X> Channeled<Result<R, X>> {
    /// Turns a channeled result inside out; the left channel's error is
    /// reported first.
    pub fn invert_result(self) -> (r: Result<Channeled<R>, X>)
        ensures
            r matches Ok(out) ==> same_shape(self, out),
            self matches Channeled::Mono(v) ==> (match v {
                Ok(x) => r == Ok::<Channeled<R>, X>(Channeled::Mono(x)),
                Err(e) => r == Err::<Channeled<R>, X>(e),
            }),
            self matches Channeled::Stereo(l, rv) ==> (match (l, rv) {
                (Ok(x), Ok(y)) => r == Ok::<Channeled<R>, X>(Channeled::Stereo(x, y)),
                (Err(e), _) => r == Err::<Channeled<R>, X>(e),
                (Ok(_), Err(e)) => r == Err::<Channeled<R>, X>(e),
            }),
    {
        match self {
            Channeled::Stereo(Ok(lv), Ok(rv)) => Ok(Channeled::Stereo(lv, rv)),
            Channeled::Mono(Ok(v)) => Ok(Channeled::Mono(v)),
            Channeled::Stereo(Err(err), _) => Err(err),
            Channeled::Stereo(_, Err(err)) => Err(err),
            Channeled::Mono(Err(err)) => Err(err),
        }
    }
}

impl Channeled<bool> {
    /// Conjunction over the channels.
    pub fn and(self) -> (r: bool)
        ensures
            self matches Channeled::Mono(v) ==> r == v,
            self matches Channeled::Stereo(a, b) ==> r == (a && b),
    {
        match self {
            Channeled::Stereo(a, b) => a && b,
            Channeled::Mono(v) => v,
        }
    }
}

} // verus!
