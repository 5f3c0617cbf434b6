use linux_hello::detector::{MatchResult, SimpleDetector, SimpleEmbedder, StubDetector};
use linux_hello::records::VerifyResult;

#[test]
fn test_stub_detector_creation() {
    let detector = StubDetector::new();
    assert_eq!(detector.name(), "stub-detector");
}

#[test]
fn test_stub_detector_invalid_frame() {
    let detector = StubDetector::new();
    let result = detector.detect(&[], 0, 0, 3);
    assert!(result.is_ok());
    assert!(result.unwrap().is_empty());
}

#[test]
fn test_stub_detector_empty_frame() {
    let detector = StubDetector::new();
    let frame = vec![0u8; 640 * 480 * 3];
    let result = detector.detect(&frame, 640, 480, 3).unwrap();
    // with every pixel black there is no contrast, hence no detection
    assert!(result.is_empty());
}

#[test]
fn stub_detector_sees_contrast() {
    let detector = StubDetector::new();
    // mid-gray frame: average red byte 128, inside the accepted band
    let frame = vec![128u8; 640 * 480 * 3];
    let result = detector.detect(&frame, 640, 480, 3).unwrap();
    assert_eq!(result.len(), 1);
    let region = &result[0];
    // three tenths of 640 is 192, two fifths of 480 is 192, centered
    assert_eq!(region.bounding_box, (224, 144, 192, 192));
}

#[test]
fn stub_detector_undersized_frame_is_an_error() {
    let detector = StubDetector::new();
    let frame = vec![0u8; 10];
    assert!(detector.detect(&frame, 640, 480, 3).is_err());
}

#[test]
fn simple_detector_proposes_center_region() {
    let detector = SimpleDetector;
    let regions = detector.detect(&[0u8; 12], 640, 480, 3).unwrap();
    assert_eq!(regions.len(), 1);
    assert_eq!(regions[0].bounding_box, (160, 96, 320, 288));
}

#[test]
fn simple_embedder_dimension() {
    let embedder = SimpleEmbedder;
    assert_eq!(embedder.embedding_dimension(), 96);
    assert_eq!(embedder.model_name(), "SimpleHistogram");
}

#[test]
fn test_match_result_display() {
    let result = MatchResult::Success { score_ppm: 850_000, method: "cosine".to_string() };
    assert!(result.describe().contains("0.85"));
}

#[test]
fn test_verify_result_display() {
    let result = VerifyResult::Success {
        face_id: "face_1".to_string(),
        similarity_score_ppm: 870_000,
    };
    assert!(result.describe().contains("0.87"));
}

#[test]
fn verify_result_texts() {
    assert_eq!(VerifyResult::NoEnrollment.describe(), "Pas d'enregistrement");
    assert_eq!(VerifyResult::Cancelled.describe(), "Annulé");
    let nm = VerifyResult::NoMatch { best_score_ppm: 420_000, threshold_ppm: 600_000 };
    assert_eq!(nm.describe(), "Non reconnu: 0.42 < 0.60");
}

#[test]
fn simple_embedder_histogram_of_uniform_region() {
    let embedder = SimpleEmbedder;
    // a 4x4 RGB frame of one color: every pixel lands in one bin per
    // channel (8 -> bin 1, 16 -> bin 2, 24 -> bin 3)
    let frame: Vec<u8> = [8u8, 16, 24].repeat(16);
    let region = linux_hello::embedding::FaceRegion {
        bounding_box: (0, 0, 4, 4),
        confidence_ppm: 900_000,
        landmarks: Vec::new(),
    };
    let emb = embedder.extract(&region, &frame, 4, 4, 3).unwrap();
    assert_eq!(emb.vector.len(), 96);
    for (k, v) in emb.vector.iter().enumerate() {
        let expected = if k == 1 || k == 32 + 2 || k == 64 + 3 { 1_000_000 } else { 0 };
        assert_eq!(*v, expected, "component {k}");
    }
    assert_eq!(emb.metadata.model, "histogram");
    assert_eq!(emb.metadata.quality_ppm, 700_000);
}

#[test]
fn simple_embedder_empty_region_is_an_error() {
    let embedder = SimpleEmbedder;
    let region = linux_hello::embedding::FaceRegion {
        bounding_box: (0, 0, 0, 4),
        confidence_ppm: 900_000,
        landmarks: Vec::new(),
    };
    assert!(embedder.extract(&region, &[0u8; 48], 4, 4, 3).is_err());
}
