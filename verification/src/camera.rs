//! The capture collaborator: turns capture requests into frames and
//! embeddings.
//!
//! This stage of the project ships a synthetic generator in place of a
//! hardware pipeline, as a deterministic stand-in with the same
//! interface; real device I/O stays outside the library. The streaming
//! path is split the same way: the per-frame decision (timeout check and
//! event construction) is verified here, and the loop that sleeps and
//! emits events runs outside.

use vstd::prelude::*;
use vstd::string::StringExecFns;
use crate::embedding::{Embedding, EmbeddingMetadata};
use crate::frame::{Frame, FrameFormat, frame_size_ok};
use crate::score::score_valid;

verus! {

/// Most frames one capture request may ask for (memory limit: frames
/// are buffered whole).
pub const MAX_CAPTURE_FRAMES: u32 = 64;

/// Errors of the capture collaborator.
#[derive(Debug)]
pub enum CameraError {
    /// No camera is available.
    NotAvailable,
    /// The capture timed out.
    Timeout,
    /// The capture failed.
    CaptureError(String),
    /// Embedding extraction failed.
    ExtractionError(String),
}

impl CameraError {
    /// The one-line text of this error.
    pub open spec fn text(&self) -> Seq<char> {
        match self {
            CameraError::NotAvailable => "Caméra non disponible"@,
            CameraError::Timeout => "Timeout capture"@,
            CameraError::CaptureError(s) => "Erreur capture: "@ + s@,
            CameraError::ExtractionError(s) => "Erreur extraction: "@ + s@,
        }
    }

    /// Render the error for a person.
    pub fn message(&self) -> (r: String)
        ensures
            r@ == self.text(),
    {
        match self {
            CameraError::NotAvailable => String::from_str("Caméra non disponible"),
            CameraError::Timeout => String::from_str("Timeout capture"),
            CameraError::CaptureError(m) => {
                let mut s = String::from_str("Erreur capture: ");
                s.append(m.as_str());
                s
            },
            CameraError::ExtractionError(m) => {
                let mut s = String::from_str("Erreur extraction: ");
                s.append(m.as_str());
                s
            },
        }
    }
}

/// What one capture run produced.
pub struct CaptureResult {
    /// The captured frames.
    pub frames: Vec<Frame>,
    /// One embedding per frame.
    pub embeddings: Vec<Embedding>,
    /// Mean quality of the embeddings, in ppm of 1.0.
    pub quality_ppm: i64,
}

impl CaptureResult {
    pub open spec fn wf(&self) -> bool {
        &&& forall|i: int| 0 <= i < self.embeddings@.len() ==> (#[trigger] self.embeddings@[i]).wf()
        &&& score_valid(self.quality_ppm)
    }
}

/// A bounding box around a detected face, in pixels.
pub struct FaceBox {
    pub x: u32,
    pub y: u32,
    pub width: u32,
    pub height: u32,
    /// Detection confidence in ppm of 1.0.
    pub confidence_ppm: i64,
}

/// One frame of a live capture stream, as sent to observers.
pub struct CaptureFrame {
    /// Index of this frame, counted from zero.
    pub frame_number: u32,
    /// How many frames the stream will produce.
    pub total_frames: u32,
    /// Raw RGB bytes of the frame.
    pub frame_data: Vec<u8>,
    /// Width in pixels.
    pub width: u32,
    /// Height in pixels.
    pub height: u32,
    /// Whether a face was detected in this frame.
    pub face_detected: bool,
    /// Where the face was detected, if one was.
    pub face_box: Option<FaceBox>,
    /// Quality estimate in ppm of 1.0.
    pub quality_ppm: i64,
    /// Milliseconds since the stream started.
    pub timestamp_ms: u64,
}

/// Serves capture requests for the verification service.
pub struct CameraManager {
    /// Timeout used when a request passes zero, in milliseconds.
    pub default_timeout_ms: u64,
}

impl CameraManager {
    pub fn new(default_timeout_ms: u64) -> (r: Self)
        ensures
            r.default_timeout_ms == default_timeout_ms,
    {
        CameraManager { default_timeout_ms }
    }

    /// Whether a camera is available. The synthetic generator always is.
    pub fn is_available(&self) -> (r: bool)
        ensures
            r,
    {
        true
    }

    /// The timeout a request resolves to: its own, or the default for
    /// zero.
    pub fn resolve_timeout(&self, timeout_ms: u64) -> (r: u64)
        ensures
            r == if timeout_ms == 0 {
                self.default_timeout_ms
            } else {
                timeout_ms
            },
    {
        if timeout_ms == 0 {
            self.default_timeout_ms
        } else {
            timeout_ms
        }
    }

    /// Capture frames and extract one embedding per frame.
    ///
    /// The synthetic generator emits 1920x1080 RGB frames of zero bytes
    /// and 128-component embeddings whose component `j` of frame `i` is
    /// `(i + j) / 1000` in ppm, at a fixed quality of 0.85.
    pub fn capture_frames(&self, num_frames: u32, timeout_ms: u64) -> (r: Result<
        CaptureResult,
        CameraError,
    >)
        requires
            num_frames <= MAX_CAPTURE_FRAMES,
        ensures
            r matches Ok(c) && c.wf() && c.frames@.len() == num_frames && c.embeddings@.len()
                == num_frames && c.quality_ppm == 850_000,
            r matches Ok(c) ==> forall|i: int|
                0 <= i < num_frames ==> (#[trigger] c.embeddings@[i]).vector@.len() == 128,
            r matches Ok(c) ==> forall|i: int, j: int|
                0 <= i < num_frames && 0 <= j < 128 ==> (#[trigger] c.embeddings@[i].vector@[j])
                    == (i + j) * 1000,
            r matches Ok(c) ==> forall|i: int|
                0 <= i < num_frames ==> frame_size_ok(#[trigger] c.frames@[i]),
    {
        let _ = self.resolve_timeout(timeout_ms);
        let mut frames: Vec<Frame> = Vec::new();
        let mut embeddings: Vec<Embedding> = Vec::new();
        let mut i: u32 = 0;
        while i < num_frames
            invariant
                0 <= i <= num_frames,
                num_frames <= MAX_CAPTURE_FRAMES,
                frames@.len() == i,
                embeddings@.len() == i,
                forall|k: int| 0 <= k < i ==> (#[trigger] embeddings@[k]).wf(),
                forall|k: int| 0 <= k < i ==> (#[trigger] embeddings@[k]).vector@.len() == 128,
                forall|k: int, j: int|
                    0 <= k < i && 0 <= j < 128 ==> (#[trigger] embeddings@[k].vector@[j]) == (k + j)
                        * 1000,
                forall|k: int| 0 <= k < i ==> frame_size_ok(#[trigger] frames@[k]),
            decreases num_frames - i,
        {
            let frame = Frame {
                data: vec![0u8; 1920 * 1080 * 3],
                width: 1920,
                height: 1080,
                format: FrameFormat::Rgb8,
                timestamp_ms: (i as u64) * 100,
            };
            let mut vector: Vec<i64> = Vec::new();
            let mut j: u32 = 0;
            while j < 128
                invariant
                    0 <= j <= 128,
                    i < num_frames <= MAX_CAPTURE_FRAMES,
                    vector@.len() == j,
                    forall|k: int| 0 <= k < j ==> #[trigger] vector@[k] == (i + k) * 1000,
                decreases 128 - j,
            {
                vector.push(((i as i64) + (j as i64)) * 1000);
                j = j + 1;
            }
            let embedding = Embedding {
                vector,
                metadata: EmbeddingMetadata {
                    model: String::from_str("sim_model"),
                    model_version: String::from_str("0.1.0"),
                    extracted_at: 0,
                    quality_ppm: 850_000,
                },
            };
            frames.push(frame);
            embeddings.push(embedding);
            i = i + 1;
        }
        Ok(CaptureResult { frames, embeddings, quality_ppm: 850_000 })
    }

    /// The per-frame decision of a live capture stream: give up once the
    /// elapsed time passes the timeout, otherwise build the event for
    /// this frame (640x480 RGB zero bytes from the synthetic generator,
    /// no detection yet, quality 0.85).
    pub fn capture_stream_step(
        &self,
        frame_number: u32,
        total_frames: u32,
        elapsed_ms: u64,
        timeout_ms: u64,
    ) -> (r: Result<CaptureFrame, CameraError>)
        ensures
            elapsed_ms > timeout_ms ==> r matches Err(CameraError::Timeout),
            elapsed_ms <= timeout_ms ==> (r matches Ok(e) && e.frame_number == frame_number
                && e.total_frames == total_frames && e.width == 640 && e.height == 480
                && e.frame_data@.len() == 640 * 480 * 3 && !e.face_detected && e.face_box is None
                && e.quality_ppm == 850_000 && e.timestamp_ms == elapsed_ms),
    {
        if elapsed_ms > timeout_ms {
            return Err(CameraError::Timeout);
        }
        Ok(
            CaptureFrame {
                frame_number,
                total_frames,
                frame_data: vec![0u8; 640 * 480 * 3],
                width: 640,
                height: 480,
                face_detected: false,
                face_box: None,
                quality_ppm: 850_000,
                timestamp_ms: elapsed_ms,
            },
        )
    }
}

} // verus!
