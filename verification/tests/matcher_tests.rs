use linux_hello::embedding::{Embedding, EmbeddingMetadata};
use linux_hello::matcher::FaceMatcher;
use linux_hello::similarity::cosine_similarity_ppm;

fn emb(vector: Vec<i64>) -> Embedding {
    Embedding {
        vector,
        metadata: EmbeddingMetadata {
            model: "test".to_string(),
            model_version: "1".to_string(),
            extracted_at: 0,
            quality_ppm: 900_000,
        },
    }
}

#[test]
fn cosine_of_identical_vectors_is_one() {
    let a = vec![100_000, 200_000, 300_000];
    let b = a.clone();
    assert_eq!(cosine_similarity_ppm(&a, &b), 1_000_000);
}

#[test]
fn cosine_of_orthogonal_vectors_is_zero() {
    let a = vec![1_000_000, 0];
    let b = vec![0, 1_000_000];
    assert_eq!(cosine_similarity_ppm(&a, &b), 0);
}

#[test]
fn cosine_of_opposed_vectors_is_zero() {
    let a = vec![1_000_000];
    let b = vec![-1_000_000];
    assert_eq!(cosine_similarity_ppm(&a, &b), 0);
}

#[test]
fn matcher_picks_the_argmax_candidate() {
    let matcher = FaceMatcher::new(600_000);
    let probe = emb(vec![1_000_000, 0]);
    let candidates = vec![
        ("far".to_string(), emb(vec![0, 1_000_000])),
        ("near".to_string(), emb(vec![1_000_000, 1_000])),
        ("mid".to_string(), emb(vec![500_000, 500_000])),
    ];
    let m = matcher.match_embedding(&probe, &candidates);
    assert!(m.matched);
    assert_eq!(m.face_id.as_deref(), Some("near"));
    assert!(m.best_score_ppm >= 990_000);
    assert_eq!(m.threshold_ppm, 600_000);
}

#[test]
fn matcher_breaks_ties_toward_smallest_face_id() {
    let matcher = FaceMatcher::new(500_000);
    let probe = emb(vec![700_000, 700_000]);
    // two identical candidates: the lexicographically smaller id wins
    let candidates = vec![
        ("zeta".to_string(), emb(vec![700_000, 700_000])),
        ("alpha".to_string(), emb(vec![700_000, 700_000])),
    ];
    let m = matcher.match_embedding(&probe, &candidates);
    assert!(m.matched);
    assert_eq!(m.face_id.as_deref(), Some("alpha"));
    assert_eq!(m.best_score_ppm, 1_000_000);
}

#[test]
fn matcher_reports_true_best_score_below_threshold() {
    let matcher = FaceMatcher::new(990_000);
    let probe = emb(vec![1_000_000, 0]);
    let candidates = vec![
        ("a".to_string(), emb(vec![0, 1_000_000])),
        ("b".to_string(), emb(vec![707_000, 707_000])),
    ];
    let m = matcher.match_embedding(&probe, &candidates);
    assert!(!m.matched);
    assert!(m.face_id.is_none());
    // best is the similarity to "b": cos(45°) ~ 0.7071
    assert!(m.best_score_ppm > 700_000 && m.best_score_ppm < 715_000);
}

#[test]
fn matcher_on_empty_candidates_scores_zero() {
    let matcher = FaceMatcher::new(0);
    let probe = emb(vec![1_000_000]);
    let m = matcher.match_embedding(&probe, &Vec::new());
    assert!(!m.matched);
    assert_eq!(m.best_score_ppm, 0);
}

#[test]
fn mismatched_dimensions_score_zero() {
    let a = vec![1_000_000, 0];
    let b = vec![1_000_000];
    assert_eq!(cosine_similarity_ppm(&a, &b), 0);
}
