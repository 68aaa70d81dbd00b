//! Errors of decoding and reframing.
use vstd::prelude::*;

verus! {

/// Why a decode or a reframe stopped.
#[derive(Debug, Clone, Copy, PartialEq, Eq, Structural)]
pub enum MpegErrorValue {
    /// A read went past the end of the input.
    BytesReadError,
    /// A sequence parameter set whose NAL type is not 7.
    SPSNalunitTypeNotCorrect,
    /// The resolution parser rejected a sequence parameter set.
    H264Error,
}

#[derive(Debug, Clone, Copy, PartialEq, Eq, Structural)]
pub struct MpegAvcError {
    pub value: MpegErrorValue,
}

} // verus!
