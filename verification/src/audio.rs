//! Audio slicing rules: how large a slice may be once encoded, and the data
//! URL a slice is sent as.
use vstd::prelude::*;
use crate::api::io_error_text;
use crate::base64::{base64, base64_encode, base64_encoded_len, encoded_len};
use crate::ffmpeg::{ffmpeg_error_text, FfmpegError};
use crate::text::concat;

verus! {

/// Longest slice, in seconds.
pub const MAX_CHUNK_SECONDS: u32 = 150;

/// Largest Base64 text of one slice, in bytes.
pub const MAX_BASE64_BYTES: usize = 9437184;

/// How much a slice that is too large is shortened at a time, in seconds.
pub const CHUNK_SHRINK_STEP: u32 = 10;

/// Shortest slice, in seconds.
pub const MIN_CHUNK_SECONDS: u32 = 5;

/// Errors of audio slicing.
#[derive(Debug)]
pub enum AudioError {
    FfmpegError(FfmpegError),
    IoError(std::io::Error),
    EncodingError(String),
}

impl AudioError {
    /// The text shown for this error. For an I/O error it is `IO 错误: `
    /// followed by the I/O error's own text.
    pub fn message(&self) -> (s: String)
        ensures
            match *self {
                AudioError::FfmpegError(e) => s@ == ffmpeg_error_text(e),
                AudioError::EncodingError(m) => s@ == "编码错误: "@ + m@,
                AudioError::IoError(_) => s@.len() >= "IO 错误: "@.len() && s@.take(
                    "IO 错误: "@.len() as int,
                ) == "IO 错误: "@,
            },
    {
        match self {
            AudioError::FfmpegError(e) => e.message(),
            AudioError::IoError(e) => {
                let t = io_error_text(e);
                let r = concat("IO 错误: ", t.as_str());
                assert(r@.take("IO 错误: "@.len() as int) =~= "IO 错误: "@);
                r
            },
            AudioError::EncodingError(m) => concat("编码错误: ", m.as_str()),
        }
    }
}

impl From<FfmpegError> for AudioError {
    fn from(e: FfmpegError) -> (r: Self) {
        AudioError::FfmpegError(e)
    }
}

impl vstd::std_specs::convert::FromSpecImpl<FfmpegError> for AudioError {
    open spec fn obeys_from_spec() -> bool {
        true
    }

    open spec fn from_spec(e: FfmpegError) -> Self {
        AudioError::FfmpegError(e)
    }
}

impl From<std::io::Error> for AudioError {
    fn from(e: std::io::Error) -> (r: Self) {
        AudioError::IoError(e)
    }
}

impl vstd::std_specs::convert::FromSpecImpl<std::io::Error> for AudioError {
    open spec fn obeys_from_spec() -> bool {
        true
    }

    open spec fn from_spec(e: std::io::Error) -> Self {
        AudioError::IoError(e)
    }
}

/// Whether a slice of `byte_len` bytes is small enough once Base64-encoded.
pub fn slice_fits(byte_len: usize) -> (b: bool)
    ensures
        b == (encoded_len(byte_len as nat) <= MAX_BASE64_BYTES),
{
    if byte_len > MAX_BASE64_BYTES {
        // the encoded text is never shorter than the bytes
        assert(encoded_len(byte_len as nat) >= byte_len) by (nonlinear_arith)
            requires
                encoded_len(byte_len as nat) == (byte_len + 2) / 3 * 4,
        ;
        return false;
    }
    base64_encoded_len(byte_len) <= MAX_BASE64_BYTES
}

/// The data URL of a WAV slice.
pub fn wav_data_url(audio_bytes: &[u8]) -> (u: String)
    ensures
        u@ == "data:audio/wav;base64,"@ + base64(audio_bytes@),
{
    let b64 = base64_encode(audio_bytes);
    concat("data:audio/wav;base64,", b64.as_str())
}

} // verus!
