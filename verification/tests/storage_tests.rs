use linux_hello::embedding::{Embedding, EmbeddingMetadata};
use linux_hello::records::FaceRecord;
use linux_hello::storage::FaceStorage;

fn record(face_id: &str, user_id: u32, quality_ppm: i64, context: &str) -> FaceRecord {
    FaceRecord {
        face_id: face_id.to_string(),
        user_id,
        embedding_json: "{}".to_string(),
        quality_ppm,
        registered_at: 0,
        context: context.to_string(),
    }
}

fn embedding(vector: Vec<i64>, quality_ppm: i64) -> Embedding {
    Embedding {
        vector,
        metadata: EmbeddingMetadata {
            model: "test".to_string(),
            model_version: "0.1.0".to_string(),
            extracted_at: 0,
            quality_ppm,
        },
    }
}

#[test]
fn test_save_and_load_face() {
    let mut storage = FaceStorage::new();

    let rec = record("test_face_1", 1000, 950_000, "test");
    let emb = embedding(vec![100_000, 200_000, 300_000], 950_000);

    storage.save_face(&rec, &emb).unwrap();

    let loaded = storage.load_face_embedding(1000, "test_face_1").unwrap();
    assert_eq!(loaded.vector.len(), 3);
}

#[test]
fn test_list_faces() {
    let mut storage = FaceStorage::new();

    let record1 = record("face_1", 1000, 950_000, "test");
    let record2 = record("face_2", 1000, 920_000, "test");
    let emb = embedding(vec![100_000, 200_000, 300_000], 950_000);

    storage.save_face(&record1, &emb).unwrap();
    storage.save_face(&record2, &emb).unwrap();

    let faces = storage.list_user_faces(1000).unwrap();
    assert_eq!(faces.len(), 2);
}

#[test]
fn round_trip_returns_saved_vector() {
    let mut storage = FaceStorage::new();
    let rec = record("rt_face", 1000, 900_000, "login");
    let original = vec![123_456, -654_321, 0, 1_000_000];
    let emb = embedding(original.clone(), 900_000);

    storage.save_face(&rec, &emb).unwrap();
    let loaded = storage.load_face_embedding(1000, "rt_face").unwrap();
    assert_eq!(loaded.vector, original);
}

#[test]
fn delete_missing_face_is_noop_success() {
    let mut storage = FaceStorage::new();
    let rec = record("kept", 1000, 900_000, "login");
    let emb = embedding(vec![1, 2, 3], 900_000);
    storage.save_face(&rec, &emb).unwrap();

    storage.delete_face(1000, "does_not_exist").unwrap();

    let faces = storage.list_user_faces(1000).unwrap();
    assert_eq!(faces.len(), 1);
    assert_eq!(faces[0].face_id, "kept");
}

#[test]
fn unsafe_face_ids_are_rejected_without_writes() {
    let mut storage = FaceStorage::new();
    let emb = embedding(vec![1], 900_000);

    for bad in ["../escape", "a/b", "a\\b", "..", "x..y"] {
        let rec = record(bad, 1000, 900_000, "login");
        assert!(storage.save_face(&rec, &emb).is_err(), "{bad} accepted");
        assert!(storage.load_face_embedding(1000, bad).is_err());
        assert!(storage.delete_face(1000, bad).is_err());
        assert_eq!(storage.list_user_faces(1000).unwrap().len(), 0);
    }
}

#[test]
fn delete_all_spares_other_identities() {
    let mut storage = FaceStorage::new();
    let emb = embedding(vec![1], 900_000);
    storage.save_face(&record("a", 1000, 900_000, "t"), &emb).unwrap();
    storage.save_face(&record("b", 1000, 900_000, "t"), &emb).unwrap();
    storage.save_face(&record("c", 1001, 900_000, "t"), &emb).unwrap();

    storage.delete_all_faces(1000).unwrap();

    assert_eq!(storage.list_user_faces(1000).unwrap().len(), 0);
    let other = storage.list_user_faces(1001).unwrap();
    assert_eq!(other.len(), 1);
    assert_eq!(other[0].face_id, "c");
}

#[test]
fn save_replaces_record_under_same_id() {
    let mut storage = FaceStorage::new();
    let emb1 = embedding(vec![1], 900_000);
    let emb2 = embedding(vec![2, 3], 910_000);
    storage.save_face(&record("same", 1000, 900_000, "t"), &emb1).unwrap();
    storage.save_face(&record("same", 1000, 910_000, "t2"), &emb2).unwrap();

    let faces = storage.list_user_faces(1000).unwrap();
    assert_eq!(faces.len(), 1);
    assert_eq!(faces[0].context, "t2");
    let loaded = storage.load_face_embedding(1000, "same").unwrap();
    assert_eq!(loaded.vector, vec![2, 3]);
}

#[test]
fn list_never_returns_other_identities() {
    let mut storage = FaceStorage::new();
    let emb = embedding(vec![1], 900_000);
    storage.save_face(&record("mine", 1000, 900_000, "t"), &emb).unwrap();
    storage.save_face(&record("theirs", 1001, 900_000, "t"), &emb).unwrap();

    let faces = storage.list_user_faces(1000).unwrap();
    assert_eq!(faces.len(), 1);
    assert!(faces.iter().all(|r| r.user_id == 1000));
}
