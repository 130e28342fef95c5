//! Decoder for Pronto Hex, a textual encoding of infrared remote-control
//! signals: a carrier-scale header followed by two sequences of pulse/gap
//! burst timings, written as whitespace-separated 4-hex-digit groups.

use vstd::prelude::*;

pub mod encode;
pub mod parse;

use crate::parse::values_of;
use vstd::string::StringSliceAdditionalSpecFns;

verus! {

/// The mathematical content of a decoded frame: the raw carrier-scale header
/// value and the two burst timing sequences.
#[verifier::ext_equal]
pub struct FrameView {
    pub carrier_scale: u16,
    pub burst1: Seq<u16>,
    pub burst2: Seq<u16>,
}

/// Why a structurally invalid token stream was rejected.
#[derive(Debug, PartialEq, Eq, Structural, Clone, Copy)]
pub enum DataErrorKind {
    /// Fewer than the four header values were present.
    NotEnoughElements,
    /// The first header value (the format tag) was not zero.
    FormatTagNotZero,
    /// Fewer values remained than the declared burst-1 pair count requires.
    WrongLengthBurst1,
    /// The values left after burst 1 do not match the declared burst-2 length.
    BurstTwoLengthMismatch { expected: usize, actual: usize },
}

/// A failed decode: either a token was not a 16-bit hexadecimal number, or
/// the stream of values breaks the format's structural rules.
#[derive(Debug, PartialEq, Eq, Structural, Clone, Copy)]
pub enum Error {
    /// A token could not be parsed as a base-16 unsigned 16-bit integer.
    ParseError,
    /// The token stream is structurally invalid.
    DataError(DataErrorKind),
}

/// A decoded Pronto Hex frame, immutable once constructed by `decode`.
#[derive(Debug)]
pub struct ProntoFrame {
    carrier_scale: u16,
    burst1: Vec<u16>,
    burst2: Vec<u16>,
}

impl View for ProntoFrame {
    type V = FrameView;

    closed spec fn view(&self) -> FrameView {
        FrameView { carrier_scale: self.carrier_scale, burst1: self.burst1@, burst2: self.burst2@ }
    }
}

impl ProntoFrame {
    /// The raw carrier-scale header value. The carrier period in microseconds
    /// is this value times the Pronto clock-scale constant (0.241246 us per
    /// unit); the carrier frequency in Hz is 1e6 divided by that period.
    /// Both are floating-point derivations left to the caller.
    pub fn carrier_scale(&self) -> (r: u16)
        ensures
            r == self@.carrier_scale,
    {
        self.carrier_scale
    }

    /// Burst data 1: pulse/gap durations in carrier-period units.
    pub fn burst1(&self) -> (r: &[u16])
        ensures
            r@ == self@.burst1,
    {
        self.burst1.as_slice()
    }

    /// Burst data 2: pulse/gap durations in carrier-period units.
    pub fn burst2(&self) -> (r: &[u16])
        ensures
            r@ == self@.burst2,
    {
        self.burst2.as_slice()
    }

    /// Both bursts in order, behind a leading synthetic zero that marks the
    /// signal at rest. A fresh sequence on every call; the frame is unchanged.
    pub fn iter(&self) -> (r: Vec<u16>)
        ensures
            r@ == seq![0u16] + self@.burst1 + self@.burst2,
            r@.len() == 1 + self@.burst1.len() + self@.burst2.len(),
            r@[0] == 0u16,
    {
        let mut out: Vec<u16> = Vec::new();
        out.push(0u16);
        let mut k: usize = 0;
        while k < self.burst1.len()
            invariant
                k <= self.burst1.len(),
                out@ == seq![0u16] + self.burst1@.subrange(0, k as int),
            decreases self.burst1.len() - k,
        {
            out.push(self.burst1[k]);
            proof {
                assert(seq![0u16] + self.burst1@.subrange(0, k + 1) =~= (seq![0u16]
                    + self.burst1@.subrange(0, k as int)).push(self.burst1@[k as int]));
            }
            k = k + 1;
        }
        proof {
            assert(self.burst1@.subrange(0, self.burst1@.len() as int) =~= self.burst1@);
        }
        let mut k: usize = 0;
        while k < self.burst2.len()
            invariant
                k <= self.burst2.len(),
                out@ == seq![0u16] + self.burst1@ + self.burst2@.subrange(0, k as int),
            decreases self.burst2.len() - k,
        {
            out.push(self.burst2[k]);
            proof {
                assert(seq![0u16] + self.burst1@ + self.burst2@.subrange(0, k + 1) =~= (seq![0u16]
                    + self.burst1@ + self.burst2@.subrange(0, k as int)).push(
                    self.burst2@[k as int],
                ));
            }
            k = k + 1;
        }
        proof {
            assert(self.burst2@.subrange(0, self.burst2@.len() as int) =~= self.burst2@);
            assert(out@[0] == 0u16);
        }
        out
    }
}

/// Every frame that decoding can produce keeps the format's shape: both burst
/// sequences have even length, because each declared pair contributes a pulse
/// value and a gap value.
pub proof fn lemma_decoded_frame_invariant(s: Seq<u8>)
    ensures
        spec_decode(s) matches Ok(m) ==> m.burst1.len() % 2 == 0 && m.burst2.len() % 2 == 0,
{
}

/// Decoding is deterministic: two input strings with the same text decode to
/// the same outcome.
pub proof fn lemma_decode_deterministic(s1: &str, s2: &str)
    requires
        s1@ == s2@,
    ensures
        spec_decode(s1.spec_bytes()) == spec_decode(s2.spec_bytes()),
{
}

/// The frame the value stream denotes, or the error that rejects it:
/// at least four values; a zero format tag; then, after the four header
/// values, at least twice the declared burst-1 pair count of values, of
/// which the rest must number exactly twice the burst-2 pair count.
pub open spec fn frame_of(values: Seq<u16>) -> Result<FrameView, Error> {
    if values.len() < 4 {
        Err(Error::DataError(DataErrorKind::NotEnoughElements))
    } else if values[0] != 0 {
        Err(Error::DataError(DataErrorKind::FormatTagNotZero))
    } else {
        let burst1_len = 2 * (values[2] as int);
        let burst2_len = 2 * (values[3] as int);
        if 4 + burst1_len > values.len() {
            Err(Error::DataError(DataErrorKind::WrongLengthBurst1))
        } else if values.len() - 4 - burst1_len != burst2_len {
            Err(Error::DataError(DataErrorKind::BurstTwoLengthMismatch {
                expected: burst2_len as usize,
                actual: (values.len() - 4 - burst1_len) as usize,
            }))
        } else {
            Ok(FrameView {
                carrier_scale: values[1],
                burst1: values.subrange(4, 4 + burst1_len),
                burst2: values.subrange(4 + burst1_len, values.len() as int),
            })
        }
    }
}

/// What decoding a byte string yields: the frame of its hexadecimal token
/// values, or a parse error if some token is not a 16-bit hex number.
pub open spec fn spec_decode(s: Seq<u8>) -> Result<FrameView, Error> {
    match values_of(s) {
        Some(values) => frame_of(values),
        None => Err(Error::ParseError),
    }
}

/// Decode one line of Pronto Hex into a frame, or report exactly why the
/// line is rejected. Decoding is a pure function of the input text.
pub fn decode(s: &str) -> (r: Result<ProntoFrame, Error>)
    ensures
        match spec_decode(s.spec_bytes()) {
            Ok(m) => r matches Ok(f) && f@ == m,
            Err(e) => r == Err::<ProntoFrame, Error>(e),
        },
{
    let bytes = s.as_bytes();
    let values = match crate::parse::parse_hex_values(bytes) {
        Some(v) => v,
        None => {
            return Err(Error::ParseError);
        },
    };
    if values.len() < 4 {
        return Err(Error::DataError(DataErrorKind::NotEnoughElements));
    }
    if values[0] != 0 {
        return Err(Error::DataError(DataErrorKind::FormatTagNotZero));
    }
    let carrier_scale = values[1];
    // The declared lengths count burst pairs; each pair is two values.
    let burst1_len = (values[2] as usize) * 2;
    let burst2_len = (values[3] as usize) * 2;
    let burst1_end = 4 + burst1_len;
    if burst1_end > values.len() {
        return Err(Error::DataError(DataErrorKind::WrongLengthBurst1));
    }
    let actual = values.len() - burst1_end;
    if actual != burst2_len {
        return Err(Error::DataError(DataErrorKind::BurstTwoLengthMismatch {
            expected: burst2_len,
            actual,
        }));
    }
    let mut burst1: Vec<u16> = Vec::new();
    let mut k: usize = 4;
    while k < burst1_end
        invariant
            4 <= k <= burst1_end <= values.len(),
            burst1@ == values@.subrange(4, k as int),
        decreases burst1_end - k,
    {
        burst1.push(values[k]);
        proof {
            assert(values@.subrange(4, k + 1) =~= values@.subrange(4, k as int).push(
                values@[k as int],
            ));
        }
        k = k + 1;
    }
    let mut burst2: Vec<u16> = Vec::new();
    let mut k: usize = burst1_end;
    while k < values.len()
        invariant
            burst1_end <= k <= values.len(),
            burst2@ == values@.subrange(burst1_end as int, k as int),
        decreases values.len() - k,
    {
        burst2.push(values[k]);
        proof {
            assert(values@.subrange(burst1_end as int, k + 1) =~= values@.subrange(
                burst1_end as int,
                k as int,
            ).push(values@[k as int]));
        }
        k = k + 1;
    }
    let frame = ProntoFrame { carrier_scale, burst1, burst2 };
    proof {
        assert(frame@ =~= frame_of(values@).unwrap());
    }
    Ok(frame)
}

} // verus!

