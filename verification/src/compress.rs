//! The compressed stream: the header `8C:` before a zlib copy of the encoded
//! value.

use crate::binary::{encodable, wxf_body};
use crate::error::{IoFailure, WolframError};
use crate::model::Expr;
use crate::text::push_bytes;
use crate::value::WolframValue;
use flate2::write::ZlibEncoder;
use flate2::Compression;
use std::io::Write;
use vstd::prelude::*;

verus! {

/// The effort of the compressor: the greatest of the scale from 0 to 9.
pub const COMPRESSION_LEVEL: u32 = 9;

/// The zlib stream that flate2 makes of a byte sequence at a compression
/// level, or `None` where the encoder reports a failure.
pub uninterp spec fn deflated(input: Seq<u8>, level: u32) -> Option<Seq<u8>>;

/// Feeds the bytes to a `flate2::write::ZlibEncoder` over an empty `Vec`, made
/// with `Compression::new(level)`, by `write_all`, and takes the stream out
/// with `finish`. The contract only names the result; a failure that either
/// call reports becomes `None`. The level stays on the scale from 0 to 9 that
/// the crate documents; its default backend asserts in debug builds that the
/// level is at most 10.
#[verifier::external_body]
pub(crate) fn zlib_stream(input: &[u8], level: u32) -> (r: Option<Vec<u8>>)
    requires
        level <= 9,
    ensures
        match r {
            Some(stream) => deflated(input@, level) == Some(stream@),
            None => deflated(input@, level) is None,
        },
{
    let mut encoder = ZlibEncoder::new(Vec::new(), Compression::new(level));
    match encoder.write_all(input) {
        Ok(()) => encoder.finish().ok(),
        Err(_) => None,
    }
}

/// The stream header of a compressed encoding: `8C:`.
pub open spec fn compressed_header() -> Seq<u8> {
    seq![56u8, 67u8, 58u8]
}

/// The compressed encoding of a value, where the compressor does not fail:
/// the header and the zlib stream of the encoded value at the greatest
/// compression level.
pub open spec fn wxf_compressed(e: Expr) -> Option<Seq<u8>> {
    match deflated(wxf_body(e), COMPRESSION_LEVEL) {
        Some(stream) => Some(compressed_header() + stream),
        None => None,
    }
}

/// Puts the header `8C:` before a compressed stream.
pub fn frame_compressed(stream: &[u8]) -> (out: Vec<u8>)
    ensures
        out@ == compressed_header() + stream@,
{
    let mut out: Vec<u8> = Vec::new();
    out.push(56u8);
    out.push(67u8);
    out.push(58u8);
    push_bytes(&mut out, stream);
    assert(out@ =~= compressed_header() + stream@);
    out
}

impl WolframValue {
    /// The compressed encoding of the value: the header `8C:` and the zlib
    /// stream of the encoded value, made at the greatest compression level.
    /// The value is always compressed, whether or not that makes it shorter. A value without an encoding is refused
    /// with `NotImplemented`; a failure of the compressor is reported as an
    /// I/O error.
    pub fn to_compressed(&self) -> (r: Result<Vec<u8>, WolframError>)
        ensures
            match r {
                Ok(bytes) => encodable(self@) && wxf_compressed(self@) == Some(bytes@),
                Err(WolframError::NotImplemented) => !encodable(self@),
                Err(WolframError::IOError(IoFailure::Other)) => encodable(self@) && wxf_compressed(
                    self@,
                ) is None,
                Err(_) => false,
            },
    {
        if !self.is_encodable() {
            return Err(WolframError::NotImplemented);
        }
        let mut body: Vec<u8> = Vec::new();
        self.write_body(&mut body);
        assert(body@ =~= wxf_body(self@));
        match zlib_stream(body.as_slice(), COMPRESSION_LEVEL) {
            Some(stream) => {
                Ok(frame_compressed(stream.as_slice()))
            },
            None => Err(WolframError::IOError(IoFailure::Other)),
        }
    }
}

} // verus!
