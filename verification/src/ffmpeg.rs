//! Audio format facts and the WAV layout: which files need converting, where
//! the sample data of a WAV file starts, and how 16-bit PCM bytes read.
use vstd::prelude::*;
use crate::api::io_error_text;
use crate::text::concat;

verus! {

/// Errors of audio processing.
#[derive(Debug)]
pub enum FfmpegError {
    InputNotFound(String),
    OutputDirNotFound(String),
    FfmpegFailed(String),
    InvalidOutput(String),
}

/// The text shown for an error.
pub open spec fn ffmpeg_error_text(e: FfmpegError) -> Seq<char> {
    match e {
        FfmpegError::InputNotFound(p) => "输入文件不存在: "@ + p@,
        FfmpegError::OutputDirNotFound(p) => "输出目录不存在: "@ + p@,
        FfmpegError::FfmpegFailed(m) => "音频处理失败: "@ + m@,
        FfmpegError::InvalidOutput(m) => "无效输出: "@ + m@,
    }
}

impl FfmpegError {
    /// The text shown for this error.
    pub fn message(&self) -> (s: String)
        ensures
            s@ == ffmpeg_error_text(*self),
    {
        match self {
            FfmpegError::InputNotFound(p) => concat("输入文件不存在: ", p.as_str()),
            FfmpegError::OutputDirNotFound(p) => concat("输出目录不存在: ", p.as_str()),
            FfmpegError::FfmpegFailed(m) => concat("音频处理失败: ", m.as_str()),
            FfmpegError::InvalidOutput(m) => concat("无效输出: ", m.as_str()),
        }
    }
}

/// The error for a failed file operation: processing failed, with the I/O
/// error's text.
pub fn io_err(e: std::io::Error) -> (r: FfmpegError)
    ensures
        r is FfmpegFailed,
{
    FfmpegError::FfmpegFailed(io_error_text(&e))
}

/// Format facts of an audio file.
#[derive(Debug)]
pub struct AudioInfo {
    pub sample_rate: u32,
    pub channels: u32,
    pub bits_per_sample: u32,
    pub codec: String,
    pub is_wav: bool,
}

/// Whether a file already has the format the API takes: 16 kHz, mono,
/// 16-bit WAV.
pub open spec fn target_format(info: AudioInfo) -> bool {
    info.is_wav && info.sample_rate == 16000 && info.channels == 1 && info.bits_per_sample == 16
}

/// Whether a file already has the format the API takes.
pub fn is_target_format(info: &AudioInfo) -> (b: bool)
    ensures
        b == target_format(*info),
{
    info.is_wav && info.sample_rate == 16000 && info.channels == 1 && info.bits_per_sample == 16
}

/// The value of an optional field, or a default.
pub open spec fn or_default(o: Option<u32>, d: u32) -> u32 {
    match o {
        Some(v) => v,
        None => d,
    }
}

/// Format facts from what the decoder reports: a missing rate, channel count
/// or sample width counts as zero; the file is WAV when its codec is 16-bit
/// PCM (either byte order).
pub fn audio_info_from_params(
    sample_rate: Option<u32>,
    channels: Option<u32>,
    bits_per_sample: Option<u32>,
    codec: String,
    is_pcm_s16: bool,
) -> (info: AudioInfo)
    ensures
        info.sample_rate == or_default(sample_rate, 0),
        info.channels == or_default(channels, 0),
        info.bits_per_sample == or_default(bits_per_sample, 0),
        info.codec@ == codec@,
        info.is_wav == is_pcm_s16,
{
    AudioInfo {
        sample_rate: match sample_rate {
            Some(v) => v,
            None => 0,
        },
        channels: match channels {
            Some(v) => v,
            None => 0,
        },
        bits_per_sample: match bits_per_sample {
            Some(v) => v,
            None => 0,
        },
        codec,
        is_wav: is_pcm_s16,
    }
}

/// The number of sample frames of a PCM WAV file of `file_len` bytes, taking
/// its header as 44 bytes: missing channel count and sample width count as
/// one and sixteen; `None` when a frame has no bytes or the file has no
/// data.
pub open spec fn frame_count(file_len: u64, channels: Option<u32>, bits: Option<u32>) -> Option<u64> {
    let bytes_per_frame = or_default(channels, 1) * or_default(bits, 16) / 8;
    if bytes_per_frame > 0 && file_len > 44 {
        Some(((file_len - 44) / bytes_per_frame) as u64)
    } else {
        None
    }
}

/// Law: the frame count of a PCM WAV file counts whole frames of the data
/// after a 44-byte header, each frame holding one sample of `bits` bits per
/// channel (one channel and 16 bits when not reported): the frames fill the
/// data but for less than one frame. There is a count exactly when a frame
/// has at least one byte and the file is longer than its header.
pub proof fn lemma_frame_count(file_len: u64, channels: Option<u32>, bits: Option<u32>)
    ensures
        ({
            let ch: int = match channels {
                Some(c) => c as int,
                None => 1,
            };
            let bt: int = match bits {
                Some(b) => b as int,
                None => 16,
            };
            let per_frame = ch * bt / 8;
            &&& frame_count(file_len, channels, bits) is Some <==> (per_frame > 0 && file_len > 44)
            &&& frame_count(file_len, channels, bits) matches Some(f) ==> f * per_frame <= file_len
                - 44 < (f + 1) * per_frame
        }),
{
    let ch: int = match channels {
        Some(c) => c as int,
        None => 1,
    };
    let bt: int = match bits {
        Some(b) => b as int,
        None => 16,
    };
    let per_frame = ch * bt / 8;
    assert(or_default(channels, 1) * or_default(bits, 16) == ch * bt);
    if per_frame > 0 && file_len > 44 {
        let d = file_len - 44;
        let f = d / per_frame;
        assert(f * per_frame <= d < (f + 1) * per_frame) by (nonlinear_arith)
            requires
                per_frame > 0,
                d >= 0,
                f == d / per_frame,
        ;
    }
}

/// The number of sample frames of a PCM WAV file, from its size.
pub fn wav_frame_count(file_len: u64, channels: Option<u32>, bits: Option<u32>) -> (n: Option<u64>)
    ensures
        n == frame_count(file_len, channels, bits),
{
    let ch: u64 = match channels {
        Some(c) => c as u64,
        None => 1,
    };
    let b: u64 = match bits {
        Some(v) => v as u64,
        None => 16,
    };
    assert(ch * b <= 0xffff_ffff_ffff_ffff) by (nonlinear_arith)
        requires
            ch <= 0xffff_ffff,
            b <= 0xffff_ffff,
    ;
    let bytes_per_frame = ch * b / 8;
    if bytes_per_frame > 0 && file_len > 44 {
        Some((file_len - 44) / bytes_per_frame)
    } else {
        None
    }
}

/// Byte offset and byte length, within the sample data, of `num_samples`
/// frames of 16-bit samples starting at frame `start_sample`.
pub fn pcm_byte_span(start_sample: u32, num_samples: u32, channels: u16) -> (r: (u64, u64))
    ensures
        r.0 == start_sample * 2 * channels,
        r.1 == num_samples * 2 * channels,
{
    let ch = channels as u64;
    assert(start_sample as u64 * 2 * ch <= 0xffff_ffff_ffff_ffff) by (nonlinear_arith)
        requires
            start_sample <= 0xffff_ffff,
            ch <= 0xffff,
    ;
    assert(num_samples as u64 * 2 * ch <= 0xffff_ffff_ffff_ffff) by (nonlinear_arith)
        requires
            num_samples <= 0xffff_ffff,
            ch <= 0xffff,
    ;
    ((start_sample as u64) * 2 * ch, (num_samples as u64) * 2 * ch)
}

/// The 16-bit sample stored little-endian in two bytes.
pub open spec fn le_i16(lo: u8, hi: u8) -> i16 {
    ((lo as u16) | ((hi as u16) << 8u16)) as i16
}

/// The 16-bit little-endian samples of a byte sequence, one per whole pair
/// of bytes (a trailing odd byte is ignored).
pub fn pcm16_samples(bytes: &[u8]) -> (s: Vec<i16>)
    ensures
        s@.len() == bytes@.len() / 2,
        forall|i: int|
            0 <= i < s@.len() ==> #[trigger] s@[i] == le_i16(bytes@[2 * i], bytes@[2 * i + 1]),
{
    let mut s: Vec<i16> = Vec::new();
    let len = bytes.len();
    let n = len / 2;
    let mut i: usize = 0;
    while i < n
        invariant
            len == bytes@.len(),
            n == len / 2,
            i <= n,
            s@.len() == i,
            forall|j: int| 0 <= j < i ==> #[trigger] s@[j] == le_i16(bytes@[2 * j], bytes@[2 * j + 1]),
        decreases n - i,
    {
        assert(2 * i + 1 < bytes@.len());
        let k = i + i;
        let lo = bytes[k];
        let hi = bytes[k + 1];
        let v: i16 = ((lo as u16) | ((hi as u16) << 8u16)) as i16;
        s.push(v);
        i = i + 1;
    }
    s
}

// ---------------------------------------------------------------------
// Locating the sample data of a WAV file
// ---------------------------------------------------------------------

/// Where a scan of a WAV file's header stands.
#[derive(Clone, Copy)]
pub enum WavScanStage {
    /// Expecting the `RIFF` tag.
    Riff,
    /// Expecting the RIFF size, which is ignored.
    RiffSize,
    /// Expecting the `WAVE` tag.
    Wave,
    /// Expecting a chunk's id.
    ChunkId,
    /// Expecting the size of the chunk with this id.
    ChunkSize([u8; 4]),
    /// The scan has ended.
    Finished,
}

/// What the reader of the file does next.
pub enum WavScanAction {
    /// Skip this many bytes forward, then read the next four bytes and pass
    /// them (or the read error) to the scan.
    Read(u64),
    /// The sample data starts at the reader's current position.
    Found,
    /// The scan failed.
    Failed(FfmpegError),
}

/// The view of a scan action: the skip of a read, found, an invalid-file
/// message, a failed read (processing failed, with the I/O error's text), or
/// a failure of any other kind.
pub enum ScanOutcome {
    Read(u64),
    Found,
    Invalid(Seq<char>),
    ReadFailed,
    OtherFailure,
}

/// The view of an action.
pub open spec fn scan_outcome(a: WavScanAction) -> ScanOutcome {
    match a {
        WavScanAction::Read(n) => ScanOutcome::Read(n),
        WavScanAction::Found => ScanOutcome::Found,
        WavScanAction::Failed(FfmpegError::InvalidOutput(m)) => ScanOutcome::Invalid(m@),
        WavScanAction::Failed(FfmpegError::FfmpegFailed(_)) => ScanOutcome::ReadFailed,
        WavScanAction::Failed(_) => ScanOutcome::OtherFailure,
    }
}

/// Message for a file that is not WAV.
pub open spec fn not_wav_text() -> Seq<char> {
    "不是有效的 WAV 文件"@
}

/// Message for a WAV file without a `data` chunk.
pub open spec fn no_data_text() -> Seq<char> {
    "WAV 文件中未找到 data 块"@
}

/// The four bytes of a tag.
pub open spec fn tag4(a: u8, b: u8, c: u8, d: u8) -> Seq<u8> {
    seq![a, b, c, d]
}

/// The little-endian value of four bytes.
pub open spec fn le_u32(b: [u8; 4]) -> nat {
    (b[0] as nat) + (b[1] as nat) * 256 + (b[2] as nat) * 65536 + (b[3] as nat) * 16777216
}

/// One step of the scan, given the four bytes read (`None` when the read
/// failed): the stage after it and what the reader does next. The file
/// starts with `RIFF`, a size and `WAVE`; then come chunks, each an id, a
/// little-endian size and that many bytes (padded to an even count); the
/// sample data starts right after the size of the `data` chunk. Running out
/// of chunks means there is no `data` chunk; any other failed read fails the
/// scan as processing failed (`FfmpegFailed`).
pub open spec fn scan_step(stage: WavScanStage, read: Option<[u8; 4]>) -> (WavScanStage, ScanOutcome) {
    match stage {
        WavScanStage::Riff => match read {
            Some(b) => if b@ == tag4(82, 73, 70, 70) {
                (WavScanStage::RiffSize, ScanOutcome::Read(0))
            } else {
                (WavScanStage::Finished, ScanOutcome::Invalid(not_wav_text()))
            },
            None => (WavScanStage::Finished, ScanOutcome::ReadFailed),
        },
        WavScanStage::RiffSize => match read {
            Some(_) => (WavScanStage::Wave, ScanOutcome::Read(0)),
            None => (WavScanStage::Finished, ScanOutcome::ReadFailed),
        },
        WavScanStage::Wave => match read {
            Some(b) => if b@ == tag4(87, 65, 86, 69) {
                (WavScanStage::ChunkId, ScanOutcome::Read(0))
            } else {
                (WavScanStage::Finished, ScanOutcome::Invalid(not_wav_text()))
            },
            None => (WavScanStage::Finished, ScanOutcome::ReadFailed),
        },
        WavScanStage::ChunkId => match read {
            Some(id) => (WavScanStage::ChunkSize(id), ScanOutcome::Read(0)),
            None => (WavScanStage::Finished, ScanOutcome::Invalid(no_data_text())),
        },
        WavScanStage::ChunkSize(id) => match read {
            Some(sz) => if id@ == tag4(100, 97, 116, 97) {
                (WavScanStage::Finished, ScanOutcome::Found)
            } else {
                let n = le_u32(sz);
                (WavScanStage::ChunkId, ScanOutcome::Read((n + n % 2) as u64))
            },
            None => (WavScanStage::Finished, ScanOutcome::ReadFailed),
        },
        WavScanStage::Finished => (WavScanStage::Finished, ScanOutcome::Invalid(no_data_text())),
    }
}

/// The scan for the start of a WAV file's sample data.
pub struct WavDataScan {
    stage: WavScanStage,
}

fn same4(a: [u8; 4], b0: u8, b1: u8, b2: u8, b3: u8) -> (r: bool)
    ensures
        r == (a@ == tag4(b0, b1, b2, b3)),
{
    let r = a[0] == b0 && a[1] == b1 && a[2] == b2 && a[3] == b3;
    proof {
        if r {
            assert(a@ =~= tag4(b0, b1, b2, b3));
        }
    }
    r
}

impl WavDataScan {
    /// Where the scan stands.
    pub closed spec fn stage(&self) -> WavScanStage {
        self.stage
    }

    /// A scan at the start of the file; the reader first reads four bytes
    /// at the start.
    pub fn new() -> (s: Self)
        ensures
            s.stage() == WavScanStage::Riff,
    {
        WavDataScan { stage: WavScanStage::Riff }
    }

    /// Takes the result of the read that the previous action asked for.
    pub fn step(&mut self, read: Result<[u8; 4], std::io::Error>) -> (action: WavScanAction)
        ensures
            (final(self).stage(), scan_outcome(action)) == scan_step(
                old(self).stage(),
                match read {
                    Ok(b) => Some(b),
                    Err(_) => None,
                },
            ),
    {
        let stage = self.stage;
        self.stage = WavScanStage::Finished;
        match stage {
            WavScanStage::Riff => match read {
                Ok(b) => if same4(b, 82, 73, 70, 70) {
                    self.stage = WavScanStage::RiffSize;
                    WavScanAction::Read(0)
                } else {
                    WavScanAction::Failed(
                        FfmpegError::InvalidOutput(String::from_str("不是有效的 WAV 文件")),
                    )
                },
                Err(e) => WavScanAction::Failed(io_err(e)),
            },
            WavScanStage::RiffSize => match read {
                Ok(_) => {
                    self.stage = WavScanStage::Wave;
                    WavScanAction::Read(0)
                },
                Err(e) => WavScanAction::Failed(io_err(e)),
            },
            WavScanStage::Wave => match read {
                Ok(b) => if same4(b, 87, 65, 86, 69) {
                    self.stage = WavScanStage::ChunkId;
                    WavScanAction::Read(0)
                } else {
                    WavScanAction::Failed(
                        FfmpegError::InvalidOutput(String::from_str("不是有效的 WAV 文件")),
                    )
                },
                Err(e) => WavScanAction::Failed(io_err(e)),
            },
            WavScanStage::ChunkId => match read {
                Ok(id) => {
                    self.stage = WavScanStage::ChunkSize(id);
                    WavScanAction::Read(0)
                },
                Err(_) => WavScanAction::Failed(
                    FfmpegError::InvalidOutput(String::from_str("WAV 文件中未找到 data 块")),
                ),
            },
            WavScanStage::ChunkSize(id) => match read {
                Ok(sz) => if same4(id, 100, 97, 116, 97) {
                    WavScanAction::Found
                } else {
                    let n: u64 = (sz[0] as u64) + (sz[1] as u64) * 256 + (sz[2] as u64) * 65536 + (
                    sz[3] as u64) * 16777216;
                    self.stage = WavScanStage::ChunkId;
                    WavScanAction::Read(n + n % 2)
                },
                Err(e) => WavScanAction::Failed(io_err(e)),
            },
            WavScanStage::Finished => WavScanAction::Failed(
                FfmpegError::InvalidOutput(String::from_str("WAV 文件中未找到 data 块")),
            ),
        }
    }
}

} // verus!
