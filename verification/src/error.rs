use vstd::prelude::*;

verus! {

/// Every way a decode can fail. Each error is fatal to the decode that
/// raised it.
#[derive(Clone, Copy, PartialEq, Eq, Structural, Debug)]
pub enum PngError {
    /// The first eight bytes are not the PNG signature.
    InvalidSignature,
    /// The last eight bytes are not the tag and checksum of an empty `IEND` chunk.
    InvalidTerminator,
    /// A field runs past the end of its input.
    Truncated,
    /// Input is left over where the format says it has ended.
    UnexpectedTrailingBytes,
    /// The first chunk is not an `IHDR` chunk of thirteen bytes.
    MissingIHDR,
    /// The colour type and bit depth are not a pair the format allows.
    InvalidColorTypeDepth,
    /// A `PLTE` payload is not a whole number of RGB triples.
    InvalidPaletteLength,
    /// An indexed image has no palette.
    MissingPalette,
    /// A scanline starts with a filter code above 4.
    UnknownFilter,
    /// Sixteen-bit samples were asked of an odd number of bytes.
    MalformedSample,
    /// A palette index names no palette entry.
    IndexOutOfRange,
    /// The decompressor rejected the image data.
    InflateFailed,
}

impl PngError {
    /// The text of the error message, as a sequence of characters.
    pub open spec fn message(self) -> Seq<char> {
        match self {
            PngError::InvalidSignature => "invalid file signature"@,
            PngError::InvalidTerminator => "invalid end-of-image chunk"@,
            PngError::Truncated => "input ends inside a field"@,
            PngError::UnexpectedTrailingBytes => "unexpected trailing bytes"@,
            PngError::MissingIHDR => "missing image header"@,
            PngError::InvalidColorTypeDepth => "invalid colour type and bit depth"@,
            PngError::InvalidPaletteLength => "invalid palette length"@,
            PngError::MissingPalette => "missing palette"@,
            PngError::UnknownFilter => "unknown filter code"@,
            PngError::MalformedSample => "malformed sample"@,
            PngError::IndexOutOfRange => "palette index out of range"@,
            PngError::InflateFailed => "image data could not be decompressed"@,
        }
    }

    /// A short human-readable description of the error.
    pub fn as_str(&self) -> (s: &'static str)
        ensures
            s@ == self.message(),
    {
        match self {
            PngError::InvalidSignature => "invalid file signature",
            PngError::InvalidTerminator => "invalid end-of-image chunk",
            PngError::Truncated => "input ends inside a field",
            PngError::UnexpectedTrailingBytes => "unexpected trailing bytes",
            PngError::MissingIHDR => "missing image header",
            PngError::InvalidColorTypeDepth => "invalid colour type and bit depth",
            PngError::InvalidPaletteLength => "invalid palette length",
            PngError::MissingPalette => "missing palette",
            PngError::UnknownFilter => "unknown filter code",
            PngError::MalformedSample => "malformed sample",
            PngError::IndexOutOfRange => "palette index out of range",
            PngError::InflateFailed => "image data could not be decompressed",
        }
    }
}

} // verus!
