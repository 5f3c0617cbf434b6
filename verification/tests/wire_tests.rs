use linux_hello::records::{PamHelperRequest, PamHelperResponse};
use linux_hello::wire::{
    encode_helper_request, encode_helper_response, encode_vector, parse_helper_request,
    parse_helper_response,
};

#[test]
fn request_encodes_canonically() {
    let req = PamHelperRequest {
        user_id: 1000,
        context: "login".to_string(),
        timeout_ms: 5000,
    };
    let text = encode_helper_request(&req).unwrap();
    assert_eq!(text, "{\"user_id\":1000,\"context\":\"login\",\"timeout_ms\":5000}");
}

#[test]
fn request_round_trips() {
    let req = PamHelperRequest {
        user_id: 1000,
        context: "screenlock".to_string(),
        timeout_ms: 123456,
    };
    let text = encode_helper_request(&req).unwrap();
    let back = parse_helper_request(&text).unwrap();
    assert_eq!(back.user_id, 1000);
    assert_eq!(back.context, "screenlock");
    assert_eq!(back.timeout_ms, 123456);
}

#[test]
fn success_response_round_trips() {
    let resp = PamHelperResponse::Success {
        face_id: "face_1000_7".to_string(),
        similarity_score_ppm: 870_000,
    };
    let text = encode_helper_response(&resp).unwrap();
    assert_eq!(
        text,
        "{\"Success\":{\"face_id\":\"face_1000_7\",\"similarity_score\":0.870000}}"
    );
    match parse_helper_response(&text).unwrap() {
        PamHelperResponse::Success { face_id, similarity_score_ppm } => {
            assert_eq!(face_id, "face_1000_7");
            assert_eq!(similarity_score_ppm, 870_000);
        },
        _ => panic!("success parsed as failure"),
    }
}

#[test]
fn failure_response_round_trips() {
    let resp = PamHelperResponse::Failure { reason: "Face not recognized".to_string() };
    let text = encode_helper_response(&resp).unwrap();
    assert_eq!(text, "{\"Failure\":{\"reason\":\"Face not recognized\"}}");
    match parse_helper_response(&text).unwrap() {
        PamHelperResponse::Failure { reason } => assert_eq!(reason, "Face not recognized"),
        _ => panic!("failure parsed as success"),
    }
}

#[test]
fn malformed_payloads_are_rejected() {
    assert!(parse_helper_request("").is_err());
    assert!(parse_helper_request("{\"user_id\":}").is_err());
    assert!(parse_helper_request("{\"user_id\":1000}").is_err());
    assert!(parse_helper_response("{}").is_err());
    assert!(parse_helper_response("{\"Success\":{\"face_id\":\"x\"}}").is_err());
    // trailing garbage is not canonical
    assert!(
        parse_helper_request("{\"user_id\":1,\"context\":\"a\",\"timeout_ms\":2}x").is_err()
    );
}

#[test]
fn non_plain_payloads_are_refused_by_the_sender() {
    let req = PamHelperRequest {
        user_id: 1,
        context: "with\"quote".to_string(),
        timeout_ms: 1,
    };
    assert!(encode_helper_request(&req).is_err());
    let resp = PamHelperResponse::Failure { reason: "line\nbreak".to_string() };
    assert!(encode_helper_response(&resp).is_err());
}

#[test]
fn vector_encoding_uses_six_decimals() {
    let v: Vec<i64> = vec![100_000, -250_000, 0, 1_000_000];
    let text = encode_vector(&v);
    assert_eq!(text, "[0.100000,-0.250000,0.000000,1.000000]");
}

#[test]
fn test_register_request_serialization() {
    let req = linux_hello::records::RegisterFaceRequest {
        user_id: 1000,
        context: "login".to_string(),
        timeout_ms: 5000,
        num_samples: 3,
    };
    let json = linux_hello::wire::encode_register_request(&req).unwrap();
    let restored = linux_hello::wire::parse_register_request(&json).unwrap();
    assert_eq!(req.user_id, restored.user_id);
    assert_eq!(restored.context, "login");
    assert_eq!(restored.timeout_ms, 5000);
    assert_eq!(restored.num_samples, 3);
}

#[test]
fn verify_request_round_trips() {
    let req = linux_hello::records::VerifyRequest {
        user_id: 1000,
        context: "sudo".to_string(),
        timeout_ms: 50,
    };
    let json = linux_hello::wire::encode_verify_request(&req).unwrap();
    assert_eq!(json, "{\"user_id\":1000,\"context\":\"sudo\",\"timeout_ms\":50}");
    let back = linux_hello::wire::parse_verify_request(&json).unwrap();
    assert_eq!(back.user_id, 1000);
    assert_eq!(back.context, "sudo");
    assert_eq!(back.timeout_ms, 50);
}

#[test]
fn delete_request_round_trips_both_shapes() {
    let one = linux_hello::records::DeleteFaceRequest {
        user_id: 1000,
        face_id: Some("face_1000_7".to_string()),
    };
    let json = linux_hello::wire::encode_delete_request(&one).unwrap();
    assert_eq!(json, "{\"user_id\":1000,\"face_id\":\"face_1000_7\"}");
    let back = linux_hello::wire::parse_delete_request(&json).unwrap();
    assert_eq!(back.user_id, 1000);
    assert_eq!(back.face_id.as_deref(), Some("face_1000_7"));

    let all = linux_hello::records::DeleteFaceRequest { user_id: 1000, face_id: None };
    let json = linux_hello::wire::encode_delete_request(&all).unwrap();
    assert_eq!(json, "{\"user_id\":1000,\"face_id\":null}");
    let back = linux_hello::wire::parse_delete_request(&json).unwrap();
    assert_eq!(back.user_id, 1000);
    assert!(back.face_id.is_none());
}

#[test]
fn register_response_round_trips() {
    let resp = linux_hello::records::RegisterFaceResponse {
        face_id: "face_1000_1234567".to_string(),
        registered_at: 1234567,
        quality_ppm: 850_000,
    };
    let json = linux_hello::wire::encode_register_response(&resp).unwrap();
    assert_eq!(
        json,
        "{\"face_id\":\"face_1000_1234567\",\"registered_at\":1234567,\"quality_score\":0.850000}"
    );
    let back = linux_hello::wire::parse_register_response(&json).unwrap();
    assert_eq!(back.face_id, "face_1000_1234567");
    assert_eq!(back.registered_at, 1234567);
    assert_eq!(back.quality_ppm, 850_000);
}

#[test]
fn test_face_record_serialization() {
    let record = linux_hello::records::FaceRecord {
        face_id: "face_1".to_string(),
        user_id: 1000,
        embedding_json: "[]".to_string(),
        quality_ppm: 950_000,
        registered_at: 0,
        context: "login".to_string(),
    };
    let json = linux_hello::wire::encode_face_record(&record).unwrap();
    let restored = linux_hello::wire::parse_face_record(&json).unwrap();
    assert_eq!(record.face_id, restored.face_id);
    assert_eq!(restored.user_id, 1000);
    assert_eq!(restored.embedding_json, "[]");
    assert_eq!(restored.quality_ppm, 950_000);
    assert_eq!(restored.registered_at, 0);
    assert_eq!(restored.context, "login");
}
