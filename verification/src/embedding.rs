//! Face embeddings: fixed-length numeric signatures with metadata.
//!
//! Components are fixed-point numbers in parts per million (ppm), each
//! bounded by 1.0 in magnitude; well-formedness bounds the dimension and
//! the components so that all similarity arithmetic stays in range.

use vstd::prelude::*;
use crate::score::{SCALE_PPM, score_valid};

verus! {

/// Largest embedding dimension the similarity engine accepts.
pub const MAX_EMBEDDING_DIM: usize = 4096;

/// Largest magnitude of a single embedding component (1.0 in ppm).
pub const COMPONENT_LIMIT_PPM: i64 = 1_000_000;

/// Every component within `[-1.0, 1.0]` in ppm.
pub open spec fn comps_bounded(s: Seq<i64>) -> bool {
    forall|i: int|
        0 <= i < s.len() ==> -COMPONENT_LIMIT_PPM <= #[trigger] s[i] <= COMPONENT_LIMIT_PPM
}

/// Metadata recorded when an embedding was extracted.
pub struct EmbeddingMetadata {
    /// Model that produced the embedding.
    pub model: String,
    /// Version of that model.
    pub model_version: String,
    /// Unix timestamp (seconds) of the extraction.
    pub extracted_at: u64,
    /// Estimated extraction quality in ppm of 1.0.
    pub quality_ppm: i64,
}

impl EmbeddingMetadata {
    pub open spec fn wf(&self) -> bool {
        score_valid(self.quality_ppm)
    }
}

/// An embedding: an ordered, fixed-length vector of fixed-point numbers
/// plus extraction metadata. Immutable once produced.
pub struct Embedding {
    /// Fixed-point components, in ppm of 1.0.
    pub vector: Vec<i64>,
    /// Extraction metadata.
    pub metadata: EmbeddingMetadata,
}

impl Embedding {
    pub open spec fn wf(&self) -> bool {
        &&& self.vector@.len() <= MAX_EMBEDDING_DIM
        &&& comps_bounded(self.vector@)
        &&& self.metadata.wf()
    }
}

impl Clone for EmbeddingMetadata {
    fn clone(&self) -> (r: Self)
        ensures
            r == *self,
    {
        EmbeddingMetadata {
            model: self.model.clone(),
            model_version: self.model_version.clone(),
            extracted_at: self.extracted_at,
            quality_ppm: self.quality_ppm,
        }
    }
}

/// Copy a component vector element by element.
pub fn copy_components(v: &Vec<i64>) -> (r: Vec<i64>)
    ensures
        r@ == v@,
{
    let mut out: Vec<i64> = Vec::new();
    let mut i: usize = 0;
    while i < v.len()
        invariant
            0 <= i <= v@.len(),
            out@ == v@.take(i as int),
        decreases v@.len() - i,
    {
        out.push(v[i]);
        proof {
            assert(out@ =~= v@.take(i as int + 1));
        }
        i = i + 1;
    }
    proof {
        assert(out@ =~= v@);
    }
    out
}

impl Clone for Embedding {
    fn clone(&self) -> (r: Self)
        ensures
            r.vector@ == self.vector@,
            r.metadata == self.metadata,
    {
        Embedding { vector: copy_components(&self.vector), metadata: self.metadata.clone() }
    }
}

/// A detected face region inside a frame.
pub struct FaceRegion {
    /// Bounding box: (x, y, width, height) in pixels.
    pub bounding_box: (u32, u32, u32, u32),
    /// Detection confidence in ppm of 1.0.
    pub confidence_ppm: i64,
    /// Optional landmarks, fixed-point pixel coordinates in ppm.
    pub landmarks: Vec<(i64, i64)>,
}

impl FaceRegion {
    pub open spec fn wf(&self) -> bool {
        score_valid(self.confidence_ppm)
    }
}

} // verus!
