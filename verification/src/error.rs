//! Error kinds of the codec.
use vstd::prelude::*;

verus! {

/// Why a JPEG marker stream could not be walked up to its first scan.
#[derive(Clone, Copy, Debug, PartialEq, Eq, Structural)]
pub enum ScanError {
    /// The stream does not begin with the start-of-image marker.
    MissingSoi,
    /// The stream ends before the scan header is complete.
    Truncated,
    /// A segment declares a length too short for what it must hold.
    InvalidSegmentLength,
    /// A byte that cannot start a marker, or an end-of-image marker, stands
    /// where a header segment is expected.
    UnsupportedMarker,
    /// A frame header declares a sample precision other than eight bits.
    UnsupportedPrecision,
}

/// Why a container could not be read or written, or why one level of it
/// carries no pixels.
#[derive(Clone, Copy, Debug, PartialEq, Eq, Structural)]
pub enum BlpError {
    /// Wrong magic, a zero dimension, or too few bytes for the fixed header.
    InvalidHeader,
    /// A declared byte range reaches past the end of the buffer.
    Truncated,
    /// The content is not stored as JPEG.
    UnsupportedCompression,
    /// The marker stream of a level could not be walked.
    JpegParse(ScanError),
    /// The JPEG decoder refused a level, or gave pixels of another size.
    JpegDecode,
    /// The JPEG encoder refused a level.
    JpegEncode,
    /// The PNG encoder refused an image.
    PngEncode,
    /// The encoded levels do not share one marker prefix.
    SharedHeaderMismatch,
    /// The frame header disagrees with the level's dimensions and may not be
    /// rewritten, or the dimensions do not fit a frame header at all.
    MipDimsMismatch,
    /// The table slot that was asked for declares no payload.
    AbsentLevel,
    /// No level was selected for encoding.
    EmptyMipSet,
    /// A byte count does not fit the 32-bit fields of the container or the
    /// address space of the machine.
    OutputTooLarge,
}

impl ScanError {
    /// A short stable name of the kind.
    pub fn name(&self) -> (s: &'static str)
        ensures
            s@ == spec_scan_error_name(*self),
    {
        match self {
            ScanError::MissingSoi => "missing-soi",
            ScanError::Truncated => "truncated",
            ScanError::InvalidSegmentLength => "invalid-segment-length",
            ScanError::UnsupportedMarker => "unsupported-marker",
            ScanError::UnsupportedPrecision => "unsupported-precision",
        }
    }
}

/// The name of each scan error kind.
pub open spec fn spec_scan_error_name(e: ScanError) -> Seq<char> {
    match e {
        ScanError::MissingSoi => "missing-soi"@,
        ScanError::Truncated => "truncated"@,
        ScanError::InvalidSegmentLength => "invalid-segment-length"@,
        ScanError::UnsupportedMarker => "unsupported-marker"@,
        ScanError::UnsupportedPrecision => "unsupported-precision"@,
    }
}

/// The message key of each error kind.
pub open spec fn spec_error_key(e: BlpError) -> Seq<char> {
    match e {
        BlpError::InvalidHeader => "blp-invalid-header"@,
        BlpError::Truncated => "blp-truncated"@,
        BlpError::UnsupportedCompression => "blp-unsupported-compression"@,
        BlpError::JpegParse(_) => "blp-jpeg-parse"@,
        BlpError::JpegDecode => "blp-jpeg-decode"@,
        BlpError::JpegEncode => "blp-jpeg-encode"@,
        BlpError::PngEncode => "blp-png-encode"@,
        BlpError::SharedHeaderMismatch => "blp-shared-header-mismatch"@,
        BlpError::MipDimsMismatch => "blp-mip-dims-mismatch"@,
        BlpError::AbsentLevel => "blp-absent-level"@,
        BlpError::EmptyMipSet => "blp-empty-mip-set"@,
        BlpError::OutputTooLarge => "blp-output-too-large"@,
    }
}

impl BlpError {
    /// The key under which a front end looks up the localized message.
    pub fn key(&self) -> (s: &'static str)
        ensures
            s@ == spec_error_key(*self),
    {
        match self {
            BlpError::InvalidHeader => "blp-invalid-header",
            BlpError::Truncated => "blp-truncated",
            BlpError::UnsupportedCompression => "blp-unsupported-compression",
            BlpError::JpegParse(_) => "blp-jpeg-parse",
            BlpError::JpegDecode => "blp-jpeg-decode",
            BlpError::JpegEncode => "blp-jpeg-encode",
            BlpError::PngEncode => "blp-png-encode",
            BlpError::SharedHeaderMismatch => "blp-shared-header-mismatch",
            BlpError::MipDimsMismatch => "blp-mip-dims-mismatch",
            BlpError::AbsentLevel => "blp-absent-level",
            BlpError::EmptyMipSet => "blp-empty-mip-set",
            BlpError::OutputTooLarge => "blp-output-too-large",
        }
    }
}

} // verus!
