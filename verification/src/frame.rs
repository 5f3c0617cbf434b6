//! Camera frames: formats, dimensions and validation.
//!
//! Opening a device and pulling frames off it is hardware I/O and lives
//! outside this library; the frame data model and its size checks are
//! verified here.

use vstd::prelude::*;
use vstd::string::StringExecFns;

verus! {

/// Errors of a camera backend.
#[derive(Debug)]
pub enum CameraError {
    /// No camera is present.
    NotAvailable(String),
    /// The device could not be opened.
    OpenFailed(String),
    /// A capture failed.
    CaptureFailed(String),
    /// The device offers no supported pixel format.
    UnsupportedFormat(String),
    /// The capture timed out.
    CaptureTimeout,
}

/// Pixel format of a captured frame.
#[derive(Clone, Copy, PartialEq, Eq, Structural)]
pub enum FrameFormat {
    /// 8-bit RGB, three bytes per pixel.
    Rgb8,
    /// 8-bit grayscale, one byte per pixel.
    Gray8,
    /// Compressed MJPEG, variable size; decoded to RGB downstream.
    MjPeg,
}

/// Bytes per pixel of a format once decoded.
pub open spec fn channels_of(format: FrameFormat) -> u32 {
    match format {
        FrameFormat::Rgb8 => 3,
        FrameFormat::Gray8 => 1,
        FrameFormat::MjPeg => 3,
    }
}

impl FrameFormat {
    pub fn channels(&self) -> (r: u32)
        ensures
            r == channels_of(*self),
    {
        match self {
            FrameFormat::Rgb8 => 3,
            FrameFormat::Gray8 => 1,
            FrameFormat::MjPeg => 3,
        }
    }
}

/// One captured frame.
pub struct Frame {
    /// Raw pixel bytes.
    pub data: Vec<u8>,
    /// Width in pixels.
    pub width: u32,
    /// Height in pixels.
    pub height: u32,
    /// Pixel format of `data`.
    pub format: FrameFormat,
    /// Capture timestamp, milliseconds since the stream started.
    pub timestamp_ms: u64,
}

/// The data size a frame must have: exact for raw formats, free for
/// compressed ones.
pub open spec fn frame_size_ok(f: Frame) -> bool {
    match f.format {
        FrameFormat::Rgb8 => f.data@.len() == f.width * f.height * 3,
        FrameFormat::Gray8 => f.data@.len() == f.width * f.height,
        FrameFormat::MjPeg => true,
    }
}

impl Frame {
    /// Decoded bytes per pixel.
    pub fn channels(&self) -> (r: u32)
        ensures
            r == channels_of(self.format),
    {
        self.format.channels()
    }

    /// Check that the data size matches the dimensions.
    pub fn validate(&self) -> (r: Result<(), CameraError>)
        ensures
            r is Ok <==> frame_size_ok(*self),
            r is Err ==> r matches Err(CameraError::CaptureFailed(_)),
    {
        proof {
            assert((self.width as int) * (self.height as int) * 3 < u128::MAX)
                by (nonlinear_arith)
                requires
                    self.width <= u32::MAX,
                    self.height <= u32::MAX,
            ;
        }
        let expected: u128 = match self.format {
            FrameFormat::Rgb8 => (self.width as u128) * (self.height as u128) * 3,
            FrameFormat::Gray8 => (self.width as u128) * (self.height as u128),
            FrameFormat::MjPeg => self.data.len() as u128,
        };
        if self.data.len() as u128 != expected {
            return Err(
                CameraError::CaptureFailed(String::from_str("taille de frame incorrecte")),
            );
        }
        Ok(())
    }
}

/// Camera configuration.
pub struct CameraConfig {
    /// Device path, such as `/dev/video0`.
    pub device_path: String,
    /// Requested width in pixels.
    pub width: u32,
    /// Requested height in pixels.
    pub height: u32,
    /// Preferred pixel format.
    pub preferred_format: FrameFormat,
    /// Requested frames per second.
    pub fps: u32,
    /// Capture timeout in milliseconds.
    pub capture_timeout_ms: u64,
}

impl Default for CameraConfig {
    /// 640x480 RGB at 30 fps from `/dev/video0`, five-second timeout.
    fn default() -> (r: Self)
        ensures
            r.device_path@ == "/dev/video0"@,
            r.width == 640,
            r.height == 480,
            r.preferred_format == FrameFormat::Rgb8,
            r.fps == 30,
            r.capture_timeout_ms == 5000,
    {
        CameraConfig {
            device_path: String::from_str("/dev/video0"),
            width: 640,
            height: 480,
            preferred_format: FrameFormat::Rgb8,
            fps: 30,
            capture_timeout_ms: 5000,
        }
    }
}


/// Division truncating toward zero, as the conversion arithmetic
/// rounds.
pub open spec fn tdiv1000(a: int) -> int {
    if a >= 0 {
        a / 1000
    } else {
        -((-a) / 1000)
    }
}

/// Clamp an intermediate color value into one byte.
pub open spec fn clamp_byte(v: int) -> int {
    if v < 0 {
        0
    } else if v > 255 {
        255
    } else {
        v
    }
}

/// Red from luma and the V chroma delta.
pub open spec fn yuyv_red(y: int, v: int) -> int {
    clamp_byte(y + tdiv1000(1402 * (v - 128)))
}

/// Green from luma and both chroma deltas.
pub open spec fn yuyv_green(y: int, u: int, v: int) -> int {
    clamp_byte(y - tdiv1000(344 * (u - 128)) - tdiv1000(714 * (v - 128)))
}

/// Blue from luma and the U chroma delta.
pub open spec fn yuyv_blue(y: int, u: int) -> int {
    clamp_byte(y + tdiv1000(1772 * (u - 128)))
}

/// `1402 * (v - 128)`, truncated toward zero over a thousand.
fn scaled_chroma(coef: i64, byte: u8) -> (r: i64)
    requires
        0 < coef <= 2000,
    ensures
        r == tdiv1000(coef * (byte - 128)),
{
    let delta: i64 = (byte as i64) - 128;
    proof {
        assert(-300_000 <= coef * delta <= 300_000) by (nonlinear_arith)
            requires
                0 < coef <= 2000,
                -128 <= delta <= 127,
        ;
        assert(-300_000 <= coef * (-delta) <= 300_000) by (nonlinear_arith)
            requires
                0 < coef <= 2000,
                -128 <= delta <= 127,
        ;
    }
    if delta >= 0 {
        proof {
            assert(coef * delta >= 0) by (nonlinear_arith)
                requires
                    coef > 0,
                    delta >= 0,
            ;
        }
        (coef * delta) / 1000
    } else {
        proof {
            assert(coef * (-delta) >= 0 && coef * (-delta) == -(coef * delta))
                by (nonlinear_arith)
                requires
                    coef > 0,
                    delta < 0,
                    -128 <= delta,
            ;
        }
        -((coef * (-delta)) / 1000)
    }
}

/// Clamp an intermediate color value into one byte.
fn clamp_to_byte(v: i64) -> (r: u8)
    requires
        -1_000_000 <= v <= 1_000_000,
    ensures
        r == clamp_byte(v as int),
{
    if v < 0 {
        0
    } else if v > 255 {
        255
    } else {
        v as u8
    }
}

/// Convert packed YUYV bytes to RGB, two pixels per four input bytes.
/// Each output byte is pinned to the fixed-point conversion formulas;
/// a trailing partial chunk is dropped, as the packing leaves none in
/// a well-formed frame.
pub fn yuyv_to_rgb(data: &[u8], _width: u32, _height: u32) -> (rgb: Vec<u8>)
    ensures
        rgb@.len() == (data@.len() / 4) * 6,
        forall|k: int|
            #![trigger rgb@[6 * k]]
            0 <= k < data@.len() / 4 ==> {
                let y1 = data@[4 * k] as int;
                let u = data@[4 * k + 1] as int;
                let y2 = data@[4 * k + 2] as int;
                let v = data@[4 * k + 3] as int;
                &&& rgb@[6 * k] == yuyv_red(y1, v)
                &&& rgb@[6 * k + 1] == yuyv_green(y1, u, v)
                &&& rgb@[6 * k + 2] == yuyv_blue(y1, u)
                &&& rgb@[6 * k + 3] == yuyv_red(y2, v)
                &&& rgb@[6 * k + 4] == yuyv_green(y2, u, v)
                &&& rgb@[6 * k + 5] == yuyv_blue(y2, u)
            },
{
    let n = data.len();
    let chunks = n / 4;
    let mut rgb: Vec<u8> = Vec::new();
    let mut k: usize = 0;
    while k < chunks
        invariant
            0 <= k <= chunks,
            chunks == data@.len() / 4,
            n == data@.len(),
            rgb@.len() == 6 * k,
            forall|j: int|
                #![trigger rgb@[6 * j]]
                0 <= j < k ==> {
                    let y1 = data@[4 * j] as int;
                    let u = data@[4 * j + 1] as int;
                    let y2 = data@[4 * j + 2] as int;
                    let v = data@[4 * j + 3] as int;
                    &&& rgb@[6 * j] == yuyv_red(y1, v)
                    &&& rgb@[6 * j + 1] == yuyv_green(y1, u, v)
                    &&& rgb@[6 * j + 2] == yuyv_blue(y1, u)
                    &&& rgb@[6 * j + 3] == yuyv_red(y2, v)
                    &&& rgb@[6 * j + 4] == yuyv_green(y2, u, v)
                    &&& rgb@[6 * j + 5] == yuyv_blue(y2, u)
                },
        decreases chunks - k,
    {
        proof {
            assert(4 * k + 3 < data@.len());
        }
        let y1 = data[4 * k];
        let u = data[4 * k + 1];
        let y2 = data[4 * k + 2];
        let v = data[4 * k + 3];
        let rv = scaled_chroma(1402, v);
        let gu = scaled_chroma(344, u);
        let gv = scaled_chroma(714, v);
        let bu = scaled_chroma(1772, u);
        rgb.push(clamp_to_byte((y1 as i64) + rv));
        rgb.push(clamp_to_byte((y1 as i64) - gu - gv));
        rgb.push(clamp_to_byte((y1 as i64) + bu));
        rgb.push(clamp_to_byte((y2 as i64) + rv));
        rgb.push(clamp_to_byte((y2 as i64) - gu - gv));
        rgb.push(clamp_to_byte((y2 as i64) + bu));
        k = k + 1;
    }
    rgb
}

/// Copy raw frame bytes.
pub fn copy_bytes(v: &Vec<u8>) -> (r: Vec<u8>)
    ensures
        r@ == v@,
{
    let mut out: Vec<u8> = Vec::new();
    let mut i: usize = 0;
    while i < v.len()
        invariant
            0 <= i <= v@.len(),
            out@ == v@.take(i as int),
        decreases v@.len() - i,
    {
        out.push(v[i]);
        proof {
            assert(out@ =~= v@.take(i as int + 1));
        }
        i = i + 1;
    }
    proof {
        assert(out@ =~= v@);
    }
    out
}

} // verus!
