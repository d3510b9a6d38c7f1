use vstd::prelude::*;

use crate::channeled::Channeled;
use crate::fixed::VALUE_ONE;
use crate::framed::SampleMapper;

verus! {

/// One raw PCM sample as stored on disk: an unsigned byte or a signed
/// sixteen-bit word.
#[derive(Clone, Copy, Debug, PartialEq, Eq, Hash, Structural)]
pub enum SampleRaw {
    OneByte(u8),
    TwoBytes(i16),
}

/// The byte orders a container may use.
#[derive(Clone, Copy, Debug, PartialEq, Eq, Structural)]
pub enum ByteOrdering {
    LittleEndian,
    BigEndian,
}

impl ByteOrdering {
    /// The 16-bit word starting at `at`, under this byte order.
    pub open spec fn spec_u16(self, b: Seq<u8>, at: int) -> int {
        match self {
            ByteOrdering::LittleEndian => b[at] + 256 * b[at + 1],
            ByteOrdering::BigEndian => b[at + 1] + 256 * b[at],
        }
    }

    /// The 32-bit word starting at `at`, under this byte order.
    pub open spec fn spec_u32(self, b: Seq<u8>, at: int) -> int {
        match self {
            ByteOrdering::LittleEndian => b[at] + 256 * b[at + 1] + 65536 * b[at + 2] + 16777216
                * b[at + 3],
            ByteOrdering::BigEndian => b[at + 3] + 256 * b[at + 2] + 65536 * b[at + 1] + 16777216
                * b[at],
        }
    }

    /// Reads a 16-bit word; `None` when fewer than two bytes remain.
    pub fn read_u16(&self, bytes: &Vec<u8>, at: usize) -> (r: Option<u16>)
        ensures
            (r is Some) <==> at + 2 <= bytes@.len(),
            r matches Some(v) ==> v as int == self.spec_u16(bytes@, at as int),
    {
        if bytes.len() >= 2 && at <= bytes.len() - 2 {
            let lo: u16;
            let hi: u16;
            match self {
                ByteOrdering::LittleEndian => {
                    lo = bytes[at] as u16;
                    hi = bytes[at + 1] as u16;
                },
                ByteOrdering::BigEndian => {
                    lo = bytes[at + 1] as u16;
                    hi = bytes[at] as u16;
                },
            }
            Some(lo + 256 * hi)
        } else {
            None
        }
    }

    /// Reads a 32-bit word; `None` when fewer than four bytes remain.
    pub fn read_u32(&self, bytes: &Vec<u8>, at: usize) -> (r: Option<u32>)
        ensures
            (r is Some) <==> at + 4 <= bytes@.len(),
            r matches Some(v) ==> v as int == self.spec_u32(bytes@, at as int),
    {
        if bytes.len() >= 4 && at <= bytes.len() - 4 {
            let b0: u32;
            let b1: u32;
            let b2: u32;
            let b3: u32;
            match self {
                ByteOrdering::LittleEndian => {
                    b0 = bytes[at] as u32;
                    b1 = bytes[at + 1] as u32;
                    b2 = bytes[at + 2] as u32;
                    b3 = bytes[at + 3] as u32;
                },
                ByteOrdering::BigEndian => {
                    b0 = bytes[at + 3] as u32;
                    b1 = bytes[at + 2] as u32;
                    b2 = bytes[at + 1] as u32;
                    b3 = bytes[at] as u32;
                },
            }
            Some(b0 + 256 * b1 + 65536 * b2 + 16777216 * b3)
        } else {
            None
        }
    }

    /// The signed 16-bit sample starting at `at`: the unsigned word
    /// reinterpreted in two's complement.
    pub fn i16_from(&self, bytes: &Vec<u8>, at: usize) -> (r: Option<i16>)
        ensures
            (r is Some) <==> at + 2 <= bytes@.len(),
            r matches Some(v) ==> v as int == (if self.spec_u16(bytes@, at as int) < 32768 {
                self.spec_u16(bytes@, at as int)
            } else {
                self.spec_u16(bytes@, at as int) - 65536
            }),
    {
        match self.read_u16(bytes, at) {
            None => None,
            Some(w) => {
                if w < 32768 {
                    Some(w as i16)
                } else {
                    Some(((w as i32) - 65536) as i16)
                }
            },
        }
    }
}

/// Whether the bytes at `at` spell out the given container tag.
pub open spec fn spec_tag_at(b: Seq<u8>, at: int, tag: Seq<u8>) -> bool {
    &&& at + tag.len() <= b.len()
    &&& forall|k: int| 0 <= k < tag.len() ==> b[at + k] == #[trigger] tag[k]
}

/// Compares the bytes at `at` against a tag, reporting a mismatch or a
/// buffer that ends too early as `false`.
pub fn check_str_tag(bytes: &Vec<u8>, at: usize, tag: &Vec<u8>) -> (r: bool)
    ensures
        r == spec_tag_at(bytes@, at as int, tag@),
{
    if at > bytes.len() || bytes.len() - at < tag.len() {
        return false;
    }
    let end = at + tag.len();
    let mut p: usize = at;
    while p < end
        invariant
            at <= p <= end,
            end == at + tag@.len(),
            end <= bytes@.len(),
            forall|k2: int| 0 <= k2 < p - at ==> bytes@[at + k2] == #[trigger] tag@[k2],
        decreases end - p,
    {
        if bytes[p] != tag[p - at] {
            return false;
        }
        p = p + 1;
    }
    true
}

/// One raw sample as a fixed-point working value: an unsigned byte is
/// centred to [-1, 1] as (2b - 255)/255, and a sixteen-bit word is
/// scaled as 2w/65535, both exactly as rationals on the value grid.
pub open spec fn spec_raw_to_fixed(v: SampleRaw) -> int {
    match v {
        SampleRaw::OneByte(b) => crate::fixed::round_div(
            (2 * b - 255) * (VALUE_ONE as int),
            255,
        ),
        SampleRaw::TwoBytes(w) => crate::fixed::round_div(2 * w * (VALUE_ONE as int), 65535),
    }
}

/// The entry conversion from container samples to the pipeline's
/// fixed-point values, channel by channel.
pub struct RawToFixed;

impl SampleMapper<Channeled<SampleRaw>, Channeled<i64>> for RawToFixed {
    open spec fn spec_apply(&self, v: Channeled<SampleRaw>) -> Channeled<i64> {
        match v {
            Channeled::Mono(x) => Channeled::Mono(spec_raw_to_fixed(x) as i64),
            Channeled::Stereo(a, b) => Channeled::Stereo(
                spec_raw_to_fixed(a) as i64,
                spec_raw_to_fixed(b) as i64,
            ),
        }
    }

    fn apply(&self, v: Channeled<SampleRaw>) -> (r: Channeled<i64>) {
        match v {
            Channeled::Mono(x) => Channeled::Mono(Self::convert_one(x)),
            Channeled::Stereo(a, b) => Channeled::Stereo(
                Self::convert_one(a),
                Self::convert_one(b),
            ),
        }
    }
}

impl RawToFixed {
    /// Converts one channel's raw sample.
    fn convert_one(v: SampleRaw) -> (r: i64)
        ensures
            r == spec_raw_to_fixed(v),
    {
        match v {
            SampleRaw::OneByte(b) => {
                let n = (2 * (b as i128) - 255) * (VALUE_ONE as i128);
                let q = crate::fixed::round_div_wide(n, 255);
                proof {
                    assert((-(VALUE_ONE as int)) * 255 <= n && n <= (VALUE_ONE as int) * 255)
                        by (nonlinear_arith)
                        requires
                            n == (2 * (b as int) - 255) * (VALUE_ONE as int),
                            0 <= b as int <= 255,
                    ;
                    crate::fixed::lemma_round_div_bounds(
                        n as int,
                        255,
                        -(VALUE_ONE as int),
                        VALUE_ONE as int,
                    );
                }
                q as i64
            },
            SampleRaw::TwoBytes(w) => {
                let n = 2 * (w as i128) * (VALUE_ONE as i128);
                let q = crate::fixed::round_div_wide(n, 65535);
                proof {
                    assert((-(2 * (VALUE_ONE as int) + 1)) * 65535 <= n && n <= (2 * (VALUE_ONE
                        as int) + 1) * 65535) by (nonlinear_arith)
                        requires
                            n == 2 * (w as int) * (VALUE_ONE as int),
                            -32768 <= w as int <= 32767,
                    ;
                    crate::fixed::lemma_round_div_bounds(
                        n as int,
                        65535,
                        -(2 * (VALUE_ONE as int) + 1),
                        2 * (VALUE_ONE as int) + 1,
                    );
                }
                q as i64
            },
        }
    }
}

} // verus!
