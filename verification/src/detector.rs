//! Face detection and embedding extraction: the prototype detectors.
//!
//! These are the repository's synthetic stand-ins for a real model: a
//! fixed center box, a contrast heuristic and a color-histogram
//! embedding. Their pixel arithmetic is specified exactly; a real model
//! would replace them behind the same interfaces.

use vstd::prelude::*;
use vstd::string::StringExecFns;
use vstd::string::StrSliceExecFns;
use crate::embedding::{Embedding, EmbeddingMetadata, FaceRegion};
use crate::score::{score_valid, score2_text, format_score2};

verus! {

/// Errors of the recognition engine.
#[derive(Debug)]
pub enum FaceError {
    /// Detection failed.
    DetectionFailed(String),
    /// Embedding extraction failed.
    EmbeddingFailed(String),
    /// The frame does not match its declared dimensions.
    InvalidFrame(String),
    /// No detection backend is available.
    NoBackendAvailable,
    /// The configuration is unusable.
    ConfigError(String),
}

/// Outcome of one face comparison.
pub enum MatchResult {
    /// The comparison succeeded with this score under this method.
    Success { score_ppm: i64, method: String },
    /// No face was detected.
    NoFace,
    /// A face was seen but confidence was below the bar.
    LowConfidence { score_ppm: i64, required_threshold_ppm: i64 },
    /// The user aborted.
    AbortedByUser,
    /// An internal error, carried as text.
    InternalError(String),
}

impl MatchResult {
    pub open spec fn wf(&self) -> bool {
        match self {
            MatchResult::Success { score_ppm, .. } => score_valid(*score_ppm),
            MatchResult::LowConfidence { score_ppm, required_threshold_ppm } => score_valid(
                *score_ppm,
            ) && score_valid(*required_threshold_ppm),
            _ => true,
        }
    }

    /// The one-line text of this outcome.
    pub open spec fn text(&self) -> Seq<char> {
        match self {
            MatchResult::Success { score_ppm, method } => "Succès ("@ + method@ + "): score "@
                + score2_text(*score_ppm),
            MatchResult::NoFace => "Aucun visage détecté"@,
            MatchResult::LowConfidence { score_ppm, required_threshold_ppm } =>
                "Confiance insuffisante: "@ + score2_text(*score_ppm) + " < "@ + score2_text(
                *required_threshold_ppm,
            ),
            MatchResult::AbortedByUser => "Annulé par l'utilisateur"@,
            MatchResult::InternalError(e) => "Erreur interne: "@ + e@,
        }
    }

    /// Render the outcome for a person, scores with two decimals.
    pub fn describe(&self) -> (r: String)
        requires
            self.wf(),
        ensures
            r@ == self.text(),
    {
        match self {
            MatchResult::Success { score_ppm, method } => {
                let mut s = String::from_str("Succès (");
                s.append(method.as_str());
                s.append("): score ");
                let sc = format_score2(*score_ppm);
                s.append(sc.as_str());
                s
            },
            MatchResult::NoFace => String::from_str("Aucun visage détecté"),
            MatchResult::LowConfidence { score_ppm, required_threshold_ppm } => {
                let mut s = String::from_str("Confiance insuffisante: ");
                let a = format_score2(*score_ppm);
                s.append(a.as_str());
                s.append(" < ");
                let b = format_score2(*required_threshold_ppm);
                s.append(b.as_str());
                s
            },
            MatchResult::AbortedByUser => String::from_str("Annulé par l'utilisateur"),
            MatchResult::InternalError(e) => {
                let mut s = String::from_str("Erreur interne: ");
                s.append(e.as_str());
                s
            },
        }
    }
}

/// Verification tuning.
pub struct VerificationConfig {
    /// Required detection confidence in ppm of 1.0.
    pub confidence_threshold_ppm: i64,
    /// Required similarity in ppm of 1.0.
    pub similarity_threshold_ppm: i64,
    /// Detection timeout in milliseconds.
    pub detection_timeout_ms: u64,
    /// Attempts allowed per verification.
    pub max_attempts: u32,
    /// Context label.
    pub context: String,
}

impl Default for VerificationConfig {
    /// Confidence 0.95, similarity 0.6, five seconds, three attempts.
    fn default() -> (r: Self)
        ensures
            r.confidence_threshold_ppm == 950_000,
            r.similarity_threshold_ppm == 600_000,
            r.detection_timeout_ms == 5000,
            r.max_attempts == 3,
            r.context@ == "default"@,
    {
        VerificationConfig {
            confidence_threshold_ppm: 950_000,
            similarity_threshold_ppm: 600_000,
            detection_timeout_ms: 5000,
            max_attempts: 3,
            context: String::from_str("default"),
        }
    }
}

/// Whether the byte of pixel `(px, py)` exists, and its value: `(1, v)`
/// when the index is inside the buffer, `(0, 0)` when it is not.
pub open spec fn red_sample(
    data: Seq<u8>,
    width: nat,
    channels: nat,
    px: nat,
    py: nat,
) -> (nat, nat) {
    let idx = (py * width + px) * channels;
    if idx < data.len() {
        (1nat, data[idx as int] as nat)
    } else {
        (0nat, 0nat)
    }
}

/// Count and sum of the red bytes of the first `cols` pixels of row
/// `py`, starting at column `x0`.
pub open spec fn row_sum(
    data: Seq<u8>,
    width: nat,
    channels: nat,
    py: nat,
    x0: nat,
    cols: nat,
) -> (nat, nat)
    decreases cols,
{
    if cols == 0 {
        (0nat, 0nat)
    } else {
        let prev = row_sum(data, width, channels, py, x0, (cols - 1) as nat);
        let s = red_sample(data, width, channels, (x0 + cols - 1) as nat, py);
        (prev.0 + s.0, prev.1 + s.1)
    }
}

/// Count and sum of the red bytes of the first `rows` rows of a region.
pub open spec fn region_sum(
    data: Seq<u8>,
    width: nat,
    channels: nat,
    y0: nat,
    x0: nat,
    cols: nat,
    rows: nat,
) -> (nat, nat)
    decreases rows,
{
    if rows == 0 {
        (0nat, 0nat)
    } else {
        let prev = region_sum(data, width, channels, y0, x0, cols, (rows - 1) as nat);
        let r = row_sum(data, width, channels, (y0 + rows - 1) as nat, x0, cols);
        (prev.0 + r.0, prev.1 + r.1)
    }
}

/// The contrast rule: some pixel bytes exist and their average lies
/// strictly between 50 and 200.
pub open spec fn contrast_ok(
    data: Seq<u8>,
    width: nat,
    channels: nat,
    x0: nat,
    y0: nat,
    cols: nat,
    rows: nat,
) -> bool {
    let t = region_sum(data, width, channels, y0, x0, cols, rows);
    t.0 > 0 && 50 < t.1 / t.0 && t.1 / t.0 < 200
}

/// A row's count never exceeds its column span, and its sum is bounded
/// by 255 per byte.
proof fn lemma_row_sum_bound(data: Seq<u8>, width: nat, channels: nat, py: nat, x0: nat, cols: nat)
    ensures
        row_sum(data, width, channels, py, x0, cols).0 <= cols,
        row_sum(data, width, channels, py, x0, cols).1 <= cols * 255,
    decreases cols,
{
    if cols > 0 {
        lemma_row_sum_bound(data, width, channels, py, x0, (cols - 1) as nat);
    }
}

/// A region's count never exceeds its pixel span, and its sum is
/// bounded by 255 per byte.
proof fn lemma_region_sum_bound(
    data: Seq<u8>,
    width: nat,
    channels: nat,
    y0: nat,
    x0: nat,
    cols: nat,
    rows: nat,
)
    ensures
        region_sum(data, width, channels, y0, x0, cols, rows).0 <= rows * cols,
        region_sum(data, width, channels, y0, x0, cols, rows).1 <= rows * cols * 255,
    decreases rows,
{
    if rows > 0 {
        lemma_region_sum_bound(data, width, channels, y0, x0, cols, (rows - 1) as nat);
        lemma_row_sum_bound(data, width, channels, (y0 + rows - 1) as nat, x0, cols);
        assert(rows * cols == (rows - 1) * cols + cols) by (nonlinear_arith);
        assert(rows * cols * 255 == (rows - 1) * cols * 255 + cols * 255) by (nonlinear_arith);
    }
}

/// A fast stub detector for live preview: a fixed center box, accepted
/// when the region has enough contrast.
pub struct StubDetector {
    name: String,
    version: String,
}

impl StubDetector {
    pub fn new() -> (r: Self)
        ensures
            r.name_text() == "stub-detector"@,
            r.version_text() == "0.1.0"@,
    {
        StubDetector {
            name: String::from_str("stub-detector"),
            version: String::from_str("0.1.0"),
        }
    }

    /// The detector's name.
    pub closed spec fn name_text(&self) -> Seq<char> {
        self.name@
    }

    /// The detector's model version.
    pub closed spec fn version_text(&self) -> Seq<char> {
        self.version@
    }

    pub fn name(&self) -> (r: &str)
        ensures
            r@ == self.name_text(),
    {
        self.name.as_str()
    }

    pub fn model_version(&self) -> (r: &str)
        ensures
            r@ == self.version_text(),
    {
        self.version.as_str()
    }

    /// Decide the contrast rule over the red bytes of a region, exactly
    /// `contrast_ok`.
    pub fn detect_simple_contrast(
        &self,
        frame_data: &[u8],
        width: u32,
        _height: u32,
        channels: u32,
        face_x: u32,
        face_y: u32,
        face_width: u32,
        face_height: u32,
    ) -> (r: bool)
        ensures
            r == contrast_ok(
                frame_data@,
                width as nat,
                channels as nat,
                face_x as nat,
                face_y as nat,
                face_width as nat,
                face_height as nat,
            ),
    {
        let mut count: u64 = 0;
        let mut total: u128 = 0;
        let mut row: u32 = 0;
        while row < face_height
            invariant
                0 <= row <= face_height,
                (count as nat, total as nat) == region_sum(
                    frame_data@,
                    width as nat,
                    channels as nat,
                    face_y as nat,
                    face_x as nat,
                    face_width as nat,
                    row as nat,
                ),
                count <= (row as nat) * (face_width as nat),
                total <= (row as nat) * (face_width as nat) * 255,
            decreases face_height - row,
        {
            let mut col: u32 = 0;
            proof {
                lemma_region_sum_bound(
                    frame_data@,
                    width as nat,
                    channels as nat,
                    face_y as nat,
                    face_x as nat,
                    face_width as nat,
                    row as nat,
                );
            }
            while col < face_width
                invariant
                    0 <= col <= face_width,
                    row < face_height,
                    ({
                        let base = region_sum(
                            frame_data@,
                            width as nat,
                            channels as nat,
                            face_y as nat,
                            face_x as nat,
                            face_width as nat,
                            row as nat,
                        );
                        let rr = row_sum(
                            frame_data@,
                            width as nat,
                            channels as nat,
                            (face_y + row) as nat,
                            face_x as nat,
                            col as nat,
                        );
                        count as nat == base.0 + rr.0 && total as nat == base.1 + rr.1
                    }),
                    count <= (row as nat) * (face_width as nat) + col as nat,
                    total <= ((row as nat) * (face_width as nat) + col as nat) * 255,
                decreases face_width - col,
            {
                proof {
                    assert(0 <= ((face_y as int) + (row as int)) * (width as int)
                        <= 0x40000000000000000) by (nonlinear_arith)
                        requires
                            0 <= face_y <= u32::MAX,
                            0 <= row <= u32::MAX,
                            0 <= width <= u32::MAX,
                    ;
                    assert((((face_y as int) + (row as int)) * (width as int) + (face_x as int) + (
                    col as int)) * (channels as int) < u128::MAX) by (nonlinear_arith)
                        requires
                            0 <= ((face_y as int) + (row as int)) * (width as int)
                                <= 0x40000000000000000,
                            0 <= face_x <= u32::MAX,
                            0 <= col <= u32::MAX,
                            0 <= channels <= u32::MAX,
                    ;
                }
                let idx128: u128 = (((face_y as u128) + (row as u128)) * (width as u128) + (
                face_x as u128) + (col as u128)) * (channels as u128);
                if idx128 < frame_data.len() as u128 {
                    let idx = idx128 as usize;
                    let v = frame_data[idx];
                    proof {
                        assert((row as int) * (face_width as int) + (col as int) + 1
                            <= u64::MAX) by (nonlinear_arith)
                            requires
                                0 <= row,
                                row < face_height,
                                face_height <= u32::MAX,
                                0 <= col,
                                col < face_width,
                                face_width <= u32::MAX,
                        ;
                        assert(((row as int) * (face_width as int) + (col as int)) * 255 + 255
                            < u128::MAX) by (nonlinear_arith)
                            requires
                                0 <= row,
                                row < face_height,
                                face_height <= u32::MAX,
                                0 <= col,
                                col < face_width,
                                face_width <= u32::MAX,
                        ;
                    }
                    count = count + 1;
                    total = total + (v as u128);
                } else {
                }
                proof {
                    assert((((row as nat) * (face_width as nat) + col as nat) + 1) * 255 == ((
                    row as nat) * (face_width as nat) + col as nat) * 255 + 255)
                        by (nonlinear_arith);
                }
                col = col + 1;
            }
            proof {
                assert((row as nat + 1) * (face_width as nat) == (row as nat) * (face_width as nat)
                    + (face_width as nat)) by (nonlinear_arith);
                assert((row as nat + 1) * (face_width as nat) * 255 == ((row as nat) * (
                face_width as nat) + (face_width as nat)) * 255) by (nonlinear_arith);
            }
            row = row + 1;
        }
        if count == 0 {
            return false;
        }
        let avg: u128 = total / (count as u128);
        50 < avg && avg < 200
    }

    /// Detect a face: a fixed center box (three tenths of the width,
    /// two fifths of the height), kept only when the contrast rule
    /// holds there. An empty or undersized frame yields no detection
    /// or an invalid-frame error.
    pub fn detect(&self, frame_data: &[u8], width: u32, height: u32, channels: u32) -> (r: Result<
        Vec<FaceRegion>,
        FaceError,
    >)
        ensures
            (frame_data@.len() == 0 || width == 0 || height == 0 || channels == 0) ==> (r matches
                Ok(v) && v@.len() == 0),
            !(frame_data@.len() == 0 || width == 0 || height == 0 || channels == 0) && frame_data@.len()
                < width * height * channels ==> r matches Err(FaceError::InvalidFrame(_)),
            !(frame_data@.len() == 0 || width == 0 || height == 0 || channels == 0) && frame_data@.len()
                >= width * height * channels ==> (r matches Ok(v) && {
                let fw = (width as int) * 3 / 10;
                let fh = (height as int) * 2 / 5;
                let fx = (width as int - fw) / 2;
                let fy = (height as int - fh) / 2;
                if contrast_ok(
                    frame_data@,
                    width as nat,
                    channels as nat,
                    fx as nat,
                    fy as nat,
                    fw as nat,
                    fh as nat,
                ) {
                    v@.len() == 1 && v@[0].bounding_box == (fx as u32, fy as u32, fw as u32, fh as u32)
                        && v@[0].confidence_ppm == 850_000 && v@[0].landmarks@.len() == 0
                } else {
                    v@.len() == 0
                }
            }),
    {
        if frame_data.len() == 0 || width == 0 || height == 0 || channels == 0 {
            return Ok(Vec::new());
        }
        proof {
            assert(0 <= (width as int) * (height as int) <= 0x40000000000000000)
                by (nonlinear_arith)
                requires
                    0 <= width <= u32::MAX,
                    0 <= height <= u32::MAX,
            ;
            assert((width as int) * (height as int) * (channels as int) < u128::MAX)
                by (nonlinear_arith)
                requires
                    0 <= (width as int) * (height as int) <= 0x40000000000000000,
                    0 <= channels <= u32::MAX,
            ;
        }
        let expected: u128 = (width as u128) * (height as u128) * (channels as u128);
        if (frame_data.len() as u128) < expected {
            return Err(FaceError::InvalidFrame(String::from_str("taille de frame invalide")));
        }
        let face_width: u32 = (((width as u64) * 3) / 10) as u32;
        let face_height: u32 = (((height as u64) * 2) / 5) as u32;
        let face_x: u32 = (width - face_width) / 2;
        let face_y: u32 = (height - face_height) / 2;
        let detected = self.detect_simple_contrast(
            frame_data,
            width,
            height,
            channels,
            face_x,
            face_y,
            face_width,
            face_height,
        );
        if detected {
            let region = FaceRegion {
                bounding_box: (face_x, face_y, face_width, face_height),
                confidence_ppm: 850_000,
                landmarks: Vec::new(),
            };
            let mut v: Vec<FaceRegion> = Vec::new();
            v.push(region);
            Ok(v)
        } else {
            Ok(Vec::new())
        }
    }
}

impl Default for StubDetector {
    fn default() -> (r: Self)
        ensures
            r.name_text() == "stub-detector"@,
            r.version_text() == "0.1.0"@,
    {
        StubDetector::new()
    }
}

/// A prototype detector that always proposes a fixed center region.
pub struct SimpleDetector;

impl SimpleDetector {
    /// Propose one region: half the width, three fifths of the height,
    /// centered, at a fixed confidence of 0.8.
    pub fn detect(&self, _frame_data: &[u8], width: u32, height: u32, _channels: u32) -> (r:
        Result<Vec<FaceRegion>, FaceError>)
        ensures
            r matches Ok(v) && v@.len() == 1 && v@[0].bounding_box == (
                ((width / 4) as u32),
                ((height / 5) as u32),
                ((width / 2) as u32),
                (((height as int) * 3 / 5) as u32),
            ) && v@[0].confidence_ppm == 800_000 && v@[0].landmarks@.len() == 0,
    {
        let region_w = width / 2;
        let region_h = (((height as u64) * 3) / 5) as u32;
        let region_x = width / 4;
        let region_y = height / 5;
        let region = FaceRegion {
            bounding_box: (region_x, region_y, region_w, region_h),
            confidence_ppm: 800_000,
            landmarks: Vec::new(),
        };
        let mut v: Vec<FaceRegion> = Vec::new();
        v.push(region);
        Ok(v)
    }

    pub fn name(&self) -> (r: &'static str)
        ensures
            r@ == "SimpleDetector"@,
    {
        "SimpleDetector"
    }

    pub fn model_version(&self) -> (r: &'static str)
        ensures
            r@ == "0.1"@,
    {
        "0.1"
    }
}

/// Whether pixel `(px, py)` contributes a hit to histogram bin `bin` of
/// channel `chan`: its three bytes exist and the channel byte falls in
/// that bin of thirty-two.
pub open spec fn chan_sample(
    data: Seq<u8>,
    width: nat,
    channels: nat,
    px: nat,
    py: nat,
    chan: nat,
    bin: nat,
) -> nat {
    let idx = (py * width + px) * channels;
    if idx + 2 < data.len() && data[(idx + chan) as int] / 8 == bin {
        1nat
    } else {
        0nat
    }
}

/// Bin hits over the first `cols` pixels of row `py` from column `x0`.
pub open spec fn hit_row(
    data: Seq<u8>,
    width: nat,
    channels: nat,
    py: nat,
    x0: nat,
    cols: nat,
    chan: nat,
    bin: nat,
) -> nat
    decreases cols,
{
    if cols == 0 {
        0nat
    } else {
        hit_row(data, width, channels, py, x0, (cols - 1) as nat, chan, bin) + chan_sample(
            data,
            width,
            channels,
            (x0 + cols - 1) as nat,
            py,
            chan,
            bin,
        )
    }
}

/// Bin hits over the first `rows` rows of a region.
pub open spec fn hit_region(
    data: Seq<u8>,
    width: nat,
    channels: nat,
    y0: nat,
    x0: nat,
    cols: nat,
    rows: nat,
    chan: nat,
    bin: nat,
) -> nat
    decreases rows,
{
    if rows == 0 {
        0nat
    } else {
        hit_region(data, width, channels, y0, x0, cols, (rows - 1) as nat, chan, bin) + hit_row(
            data,
            width,
            channels,
            (y0 + rows - 1) as nat,
            x0,
            cols,
            chan,
            bin,
        )
    }
}

/// Bin hits are bounded by the number of pixels looked at.
proof fn lemma_hit_bounds(
    data: Seq<u8>,
    width: nat,
    channels: nat,
    y0: nat,
    x0: nat,
    cols: nat,
    rows: nat,
    chan: nat,
    bin: nat,
)
    ensures
        forall|cs: nat|
            cs <= cols ==> #[trigger] hit_row(data, width, channels, y0, x0, cs, chan, bin) <= cs,
        hit_region(data, width, channels, y0, x0, cols, rows, chan, bin) <= rows * cols,
    decreases rows,
{
    assert forall|cs: nat| cs <= cols implies #[trigger] hit_row(
        data,
        width,
        channels,
        y0,
        x0,
        cs,
        chan,
        bin,
    ) <= cs by {
        lemma_hit_row_bound(data, width, channels, y0, x0, cs, chan, bin);
    }
    if rows > 0 {
        lemma_hit_bounds(data, width, channels, y0, x0, cols, (rows - 1) as nat, chan, bin);
        lemma_hit_row_bound(
            data,
            width,
            channels,
            (y0 + rows - 1) as nat,
            x0,
            cols,
            chan,
            bin,
        );
        assert(rows * cols == (rows - 1) * cols + cols) by (nonlinear_arith);
    }
}

proof fn lemma_hit_row_bound(
    data: Seq<u8>,
    width: nat,
    channels: nat,
    py: nat,
    x0: nat,
    cols: nat,
    chan: nat,
    bin: nat,
)
    ensures
        hit_row(data, width, channels, py, x0, cols, chan, bin) <= cols,
    decreases cols,
{
    if cols > 0 {
        lemma_hit_row_bound(data, width, channels, py, x0, (cols - 1) as nat, chan, bin);
    }
}

/// Effective column and row spans of a region clipped to the frame.
pub open spec fn clipped_cols(x: u32, w: u32, width: u32) -> nat {
    if x + w <= width {
        w as nat
    } else if x < width {
        (width - x) as nat
    } else {
        0nat
    }
}

/// One component of the histogram embedding: the bin's hit count over
/// the clipped region, normalized by the requested region's pixel
/// count, in ppm. Components run red bins first, then green, then blue.
pub open spec fn embed_component(
    data: Seq<u8>,
    width: u32,
    height: u32,
    channels: u32,
    x: u32,
    y: u32,
    w: u32,
    h: u32,
    k: int,
) -> int {
    let chan = (k / 32) as nat;
    let bin = (k % 32) as nat;
    let cols = clipped_cols(x, w, width);
    let rows = clipped_cols(y, h, height);
    (hit_region(
        data,
        width as nat,
        channels as nat,
        y as nat,
        x as nat,
        cols,
        rows,
        chan,
        bin,
    ) as int) * 1_000_000 / ((w as int) * (h as int))
}

/// A prototype embedder by color histogram: 32 bins per color channel
/// over the face region, each bin normalized by the region's pixel
/// count. A placeholder for a real embedding network, with the same
/// interface; the extraction timestamp is left to the environment.
pub struct SimpleEmbedder;

impl SimpleEmbedder {
    pub fn model_name(&self) -> (r: &'static str)
        ensures
            r@ == "SimpleHistogram"@,
    {
        "SimpleHistogram"
    }

    pub fn model_version(&self) -> (r: &'static str)
        ensures
            r@ == "0.1"@,
    {
        "0.1"
    }

    /// Extract a histogram embedding from the face region of a frame.
    ///
    /// A region with no pixels cannot be normalized and is an error;
    /// otherwise every component is pinned to the bin-count formula,
    /// so the embedding is a pure function of the region and the frame
    /// bytes.
    #[verifier::rlimit(100)]
    #[verifier::spinoff_prover]
    pub fn extract(
        &self,
        face_region: &FaceRegion,
        frame_data: &[u8],
        width: u32,
        height: u32,
        channels: u32,
    ) -> (r: Result<Embedding, FaceError>)
        ensures
            ({
                let (x, y, w, h) = face_region.bounding_box;
                &&& (w == 0 || h == 0) <==> r is Err
                &&& (r matches Err(e) ==> e matches FaceError::EmbeddingFailed(_))
                &&& (r matches Ok(e) ==> e.wf() && e.vector@.len() == 96 && (forall|k: int|
                    0 <= k < 96 ==> #[trigger] e.vector@[k] == embed_component(
                        frame_data@,
                        width,
                        height,
                        channels,
                        x,
                        y,
                        w,
                        h,
                        k,
                    )) && e.metadata.model@ == "histogram"@ && e.metadata.model_version@ == "0.1"@
                    && e.metadata.extracted_at == 0 && e.metadata.quality_ppm == 700_000)
            }),
    {
        let (x, y, w, h) = face_region.bounding_box;
        if w == 0 || h == 0 {
            return Err(
                FaceError::EmbeddingFailed(String::from_str("région sans pixels")),
            );
        }
        let cols: u32 = if (x as u64) + (w as u64) <= width as u64 {
            w
        } else if x < width {
            width - x
        } else {
            0
        };
        let rows: u32 = if (y as u64) + (h as u64) <= height as u64 {
            h
        } else if y < height {
            height - y
        } else {
            0
        };
        proof {
            assert(cols as nat == clipped_cols(x, w, width));
            assert(rows as nat == clipped_cols(y, h, height));
        }
        let mut hist_r: Vec<u64> = vec![0u64; 32];
        let mut hist_g: Vec<u64> = vec![0u64; 32];
        let mut hist_b: Vec<u64> = vec![0u64; 32];
        let mut row: u32 = 0;
        while row < rows
            invariant
                0 <= row <= rows,
                cols as nat == clipped_cols(x, w, width),
                rows as nat == clipped_cols(y, h, height),
                cols <= u32::MAX && rows <= u32::MAX,
                hist_r@.len() == 32 && hist_g@.len() == 32 && hist_b@.len() == 32,
                forall|bin: int|
                    0 <= bin < 32 ==> #[trigger] hist_r@[bin] as nat == hit_region(
                        frame_data@,
                        width as nat,
                        channels as nat,
                        y as nat,
                        x as nat,
                        cols as nat,
                        row as nat,
                        0,
                        bin as nat,
                    ),
                forall|bin: int|
                    0 <= bin < 32 ==> #[trigger] hist_g@[bin] as nat == hit_region(
                        frame_data@,
                        width as nat,
                        channels as nat,
                        y as nat,
                        x as nat,
                        cols as nat,
                        row as nat,
                        1,
                        bin as nat,
                    ),
                forall|bin: int|
                    0 <= bin < 32 ==> #[trigger] hist_b@[bin] as nat == hit_region(
                        frame_data@,
                        width as nat,
                        channels as nat,
                        y as nat,
                        x as nat,
                        cols as nat,
                        row as nat,
                        2,
                        bin as nat,
                    ),
            decreases rows - row,
        {
            let mut col: u32 = 0;
            while col < cols
                invariant
                    0 <= col <= cols,
                    row < rows,
                    cols as nat == clipped_cols(x, w, width),
                    rows as nat == clipped_cols(y, h, height),
                    hist_r@.len() == 32 && hist_g@.len() == 32 && hist_b@.len() == 32,
                    forall|bin: int|
                        0 <= bin < 32 ==> #[trigger] hist_r@[bin] as nat == hit_region(
                            frame_data@,
                            width as nat,
                            channels as nat,
                            y as nat,
                            x as nat,
                            cols as nat,
                            row as nat,
                            0,
                            bin as nat,
                        ) + hit_row(
                            frame_data@,
                            width as nat,
                            channels as nat,
                            (y + row) as nat,
                            x as nat,
                            col as nat,
                            0,
                            bin as nat,
                        ),
                    forall|bin: int|
                        0 <= bin < 32 ==> #[trigger] hist_g@[bin] as nat == hit_region(
                            frame_data@,
                            width as nat,
                            channels as nat,
                            y as nat,
                            x as nat,
                            cols as nat,
                            row as nat,
                            1,
                            bin as nat,
                        ) + hit_row(
                            frame_data@,
                            width as nat,
                            channels as nat,
                            (y + row) as nat,
                            x as nat,
                            col as nat,
                            1,
                            bin as nat,
                        ),
                    forall|bin: int|
                        0 <= bin < 32 ==> #[trigger] hist_b@[bin] as nat == hit_region(
                            frame_data@,
                            width as nat,
                            channels as nat,
                            y as nat,
                            x as nat,
                            cols as nat,
                            row as nat,
                            2,
                            bin as nat,
                        ) + hit_row(
                            frame_data@,
                            width as nat,
                            channels as nat,
                            (y + row) as nat,
                            x as nat,
                            col as nat,
                            2,
                            bin as nat,
                        ),
                decreases cols - col,
            {
                proof {
                    lemma_hit_bounds(
                        frame_data@,
                        width as nat,
                        channels as nat,
                        y as nat,
                        x as nat,
                        cols as nat,
                        row as nat,
                        0,
                        0,
                    );
                    assert(0 <= ((y as int) + (row as int)) * (width as int)
                        <= 0x40000000000000000) by (nonlinear_arith)
                        requires
                            0 <= y <= u32::MAX,
                            0 <= row <= u32::MAX,
                            0 <= width <= u32::MAX,
                    ;
                    assert((((y as int) + (row as int)) * (width as int) + (x as int) + (
                    col as int)) * (channels as int) < u128::MAX - 2) by (nonlinear_arith)
                        requires
                            0 <= ((y as int) + (row as int)) * (width as int)
                                <= 0x40000000000000000,
                            0 <= x <= u32::MAX,
                            0 <= col <= u32::MAX,
                            0 <= channels <= u32::MAX,
                    ;
                    assert forall|bin: int, chan: nat|
                        0 <= bin < 32 && chan < 3 implies #[trigger] hit_region(
                        frame_data@,
                        width as nat,
                        channels as nat,
                        y as nat,
                        x as nat,
                        cols as nat,
                        row as nat,
                        chan,
                        bin as nat,
                    ) + hit_row(
                        frame_data@,
                        width as nat,
                        channels as nat,
                        (y + row) as nat,
                        x as nat,
                        col as nat,
                        chan,
                        bin as nat,
                    ) <= (u64::MAX - 1) as nat by {
                        lemma_hit_bounds(
                            frame_data@,
                            width as nat,
                            channels as nat,
                            y as nat,
                            x as nat,
                            cols as nat,
                            row as nat,
                            chan,
                            bin as nat,
                        );
                        lemma_hit_row_bound(
                            frame_data@,
                            width as nat,
                            channels as nat,
                            (y + row) as nat,
                            x as nat,
                            col as nat,
                            chan,
                            bin as nat,
                        );
                        assert((row as int) * (cols as int) + (col as int) + 1
                            <= u64::MAX) by (nonlinear_arith)
                            requires
                                0 <= row <= u32::MAX,
                                0 <= cols <= u32::MAX,
                                0 <= col < cols,
                        ;
                    }
                }
                let idx128: u128 = (((y as u128) + (row as u128)) * (width as u128) + (x as u128)
                    + (col as u128)) * (channels as u128);
                if idx128 + 2 < frame_data.len() as u128 {
                    let idx = idx128 as usize;
                    let vr = frame_data[idx];
                    let vg = frame_data[idx + 1];
                    let vb = frame_data[idx + 2];
                    proof {
                        assert(vr >> 3 == vr / 8 && vr / 8 < 32) by (bit_vector);
                        assert(vg >> 3 == vg / 8 && vg / 8 < 32) by (bit_vector);
                        assert(vb >> 3 == vb / 8 && vb / 8 < 32) by (bit_vector);
                    }
                    let br = (vr >> 3) as usize;
                    let bg = (vg >> 3) as usize;
                    let bb = (vb >> 3) as usize;
                    let cur_r = hist_r[br];
                    hist_r[br] = cur_r + 1;
                    let cur_g = hist_g[bg];
                    hist_g[bg] = cur_g + 1;
                    let cur_b = hist_b[bb];
                    hist_b[bb] = cur_b + 1;
                }
                col = col + 1;
            }
            row = row + 1;
        }
        proof {
            assert forall|chan: nat, bin: int|
                chan < 3 && 0 <= bin < 32 implies #[trigger] hit_region(
                frame_data@,
                width as nat,
                channels as nat,
                y as nat,
                x as nat,
                cols as nat,
                rows as nat,
                chan,
                bin as nat,
            ) <= (rows as nat) * (cols as nat) by {
                lemma_hit_bounds(
                    frame_data@,
                    width as nat,
                    channels as nat,
                    y as nat,
                    x as nat,
                    cols as nat,
                    rows as nat,
                    chan,
                    bin as nat,
                );
            }
            assert((rows as int) * (cols as int) <= (h as int) * (w as int)) by (nonlinear_arith)
                requires
                    0 <= rows <= h,
                    0 <= cols <= w,
            ;
            assert(0 <= (w as int) * (h as int) <= 0x40000000000000000) by (nonlinear_arith)
                requires
                    0 < w <= u32::MAX,
                    0 < h <= u32::MAX,
            ;
        }
        let total: u128 = (w as u128) * (h as u128);
        let mut vector: Vec<i64> = Vec::new();
        let mut k: usize = 0;
        while k < 96
            invariant
                0 <= k <= 96,
                w > 0 && h > 0,
                total == (w as int) * (h as int),
                total <= 0x40000000000000000,
                cols as nat == clipped_cols(x, w, width),
                rows as nat == clipped_cols(y, h, height),
                hist_r@.len() == 32 && hist_g@.len() == 32 && hist_b@.len() == 32,
                forall|bin: int|
                    0 <= bin < 32 ==> #[trigger] hist_r@[bin] as nat == hit_region(
                        frame_data@,
                        width as nat,
                        channels as nat,
                        y as nat,
                        x as nat,
                        cols as nat,
                        rows as nat,
                        0,
                        bin as nat,
                    ),
                forall|bin: int|
                    0 <= bin < 32 ==> #[trigger] hist_g@[bin] as nat == hit_region(
                        frame_data@,
                        width as nat,
                        channels as nat,
                        y as nat,
                        x as nat,
                        cols as nat,
                        rows as nat,
                        1,
                        bin as nat,
                    ),
                forall|bin: int|
                    0 <= bin < 32 ==> #[trigger] hist_b@[bin] as nat == hit_region(
                        frame_data@,
                        width as nat,
                        channels as nat,
                        y as nat,
                        x as nat,
                        cols as nat,
                        rows as nat,
                        2,
                        bin as nat,
                    ),
                forall|bin: int|
                    0 <= bin < 32 ==> (#[trigger] hist_r@[bin] as nat) <= (rows as nat) * (
                    cols as nat),
                forall|bin: int|
                    0 <= bin < 32 ==> (#[trigger] hist_g@[bin] as nat) <= (rows as nat) * (
                    cols as nat),
                forall|bin: int|
                    0 <= bin < 32 ==> (#[trigger] hist_b@[bin] as nat) <= (rows as nat) * (
                    cols as nat),
                (rows as int) * (cols as int) <= total,
                vector@.len() == k,
                forall|j: int|
                    0 <= j < k ==> #[trigger] vector@[j] == embed_component(
                        frame_data@,
                        width,
                        height,
                        channels,
                        x,
                        y,
                        w,
                        h,
                        j,
                    ),
                forall|j: int| 0 <= j < k ==> 0 <= #[trigger] vector@[j] <= 1_000_000,
            decreases 96 - k,
        {
            let count: u64 = if k < 32 {
                hist_r[k]
            } else if k < 64 {
                hist_g[k - 32]
            } else {
                hist_b[k - 64]
            };
            proof {
                assert(0 < (w as int) * (h as int)) by (nonlinear_arith)
                    requires
                        w > 0,
                        h > 0,
                ;
                assert((count as nat) <= (rows as nat) * (cols as nat));
                assert(0 <= (count as int) <= (w as int) * (h as int));
                assert((count as int) * 1_000_000 < u128::MAX) by (nonlinear_arith)
                    requires
                        0 <= (count as int) <= 0x40000000000000000,
                ;
                assert((count as int) * 1_000_000 / ((w as int) * (h as int))
                    <= 1_000_000) by (nonlinear_arith)
                    requires
                        0 <= (count as int) <= (w as int) * (h as int),
                        0 < (w as int) * (h as int),
                ;
            }
            let comp128: u128 = (count as u128) * 1_000_000 / total;
            let comp: i64 = comp128 as i64;
            vector.push(comp);
            proof {
                if k < 32 {
                    assert(k as int / 32 == 0 && k as int % 32 == k);
                } else if k < 64 {
                    assert(k as int / 32 == 1 && k as int % 32 == k - 32);
                } else {
                    assert(k as int / 32 == 2 && k as int % 32 == k - 64);
                }
                assert(vector@[k as int] == embed_component(
                    frame_data@,
                    width,
                    height,
                    channels,
                    x,
                    y,
                    w,
                    h,
                    k as int,
                ));
            }
            k = k + 1;
        }
        Ok(
            Embedding {
                vector,
                metadata: EmbeddingMetadata {
                    model: String::from_str("histogram"),
                    model_version: String::from_str("0.1"),
                    extracted_at: 0,
                    quality_ppm: 700_000,
                },
            },
        )
    }

    /// Components of the embedding: 32 histogram bins per color
    /// channel.
    pub fn embedding_dimension(&self) -> (r: usize)
        ensures
            r == 96,
    {
        96
    }
}

} // verus!
