use linux_hello::camera::{CameraError, CameraManager, CaptureResult};
use linux_hello::records::{
    DaemonError, DeleteFaceRequest, RegisterFaceRequest, VerifyRequest, VerifyResult,
};
use linux_hello::service::{DaemonConfig, FaceAuthDaemon, VerifyStep};

fn daemon() -> FaceAuthDaemon {
    FaceAuthDaemon::new(DaemonConfig::default()).unwrap()
}

fn capture(n: u32) -> Result<CaptureResult, CameraError> {
    CameraManager::new(5000).capture_frames(n, 0)
}

fn register_request(user_id: u32, context: &str, num_samples: u32) -> RegisterFaceRequest {
    RegisterFaceRequest {
        user_id,
        context: context.to_string(),
        timeout_ms: 5000,
        num_samples,
    }
}

fn verify_request(user_id: u32, context: &str) -> VerifyRequest {
    VerifyRequest { user_id, context: context.to_string(), timeout_ms: 5000 }
}

#[test]
fn test_daemon_config_default() {
    let config = DaemonConfig::default();
    assert!(!config.storage_path.is_empty());
}

#[test]
fn verify_without_enrollment_needs_no_capture() {
    let d = daemon();
    let step = d.verify_begin(1000, &verify_request(1000, "login"));
    match step {
        VerifyStep::Done(VerifyResult::NoEnrollment) => {},
        _ => panic!("expected NoEnrollment without touching the camera"),
    }
}

#[test]
fn enroll_scenario_returns_patterned_face_id() {
    let mut d = daemon();
    let req = register_request(1000, "test", 1);
    let resp = d.register_face(1000, &req, &capture(1), 1234567).unwrap();

    assert_eq!(resp.face_id, "face_1000_1234567");
    assert_eq!(resp.registered_at, 1234567);
    assert_eq!(resp.quality_ppm, 850_000);

    let listed = d.list_faces(1000, 1000).unwrap();
    assert_eq!(listed.len(), 1);
    assert_eq!(listed[0].face_id, "face_1000_1234567");
    assert_eq!(listed[0].context, "test");
}

#[test]
fn verify_with_identical_probe_succeeds() {
    let mut d = daemon();
    let req = register_request(1000, "test", 1);
    d.register_face(1000, &req, &capture(1), 1).unwrap();

    let vreq = verify_request(1000, "test");
    let cands = match d.verify_begin(1000, &vreq) {
        VerifyStep::NeedCapture(c) => c,
        _ => panic!("expected a capture to be requested"),
    };
    // the synthetic capture is deterministic, so the probe equals the
    // enrolled embedding and cosine similarity is exactly 1.0
    let outcome = d.verify_complete(&vreq, &cands, &capture(1)).unwrap();
    match outcome {
        VerifyResult::Success { face_id, similarity_score_ppm } => {
            assert_eq!(face_id, "face_1000_1");
            assert_eq!(similarity_score_ppm, 1_000_000);
        },
        other => panic!("expected a match, got {}", other.describe()),
    }
}

#[test]
fn foreign_caller_is_denied_without_side_effects() {
    let mut d = daemon();
    // caller principal 1001, target 1000, caller not superuser
    let step = d.verify_begin(1001, &verify_request(1000, "login"));
    match step {
        VerifyStep::Deny(DaemonError::AccessDenied(_)) => {},
        _ => panic!("expected AccessDenied"),
    }

    // the enroll phase gate denies before any capture would happen
    let gate = d.enroll_begin(1001, &register_request(1000, "t", 1));
    assert!(matches!(gate, Err(DaemonError::AccessDenied(_))));

    let reg = d.register_face(1001, &register_request(1000, "t", 1), &capture(1), 1);
    assert!(matches!(reg, Err(DaemonError::AccessDenied(_))));

    let del = d.delete_face(1001, &DeleteFaceRequest { user_id: 1000, face_id: None });
    assert!(matches!(del, Err(DaemonError::AccessDenied(_))));

    let list = d.list_faces(1001, 1000);
    assert!(matches!(list, Err(DaemonError::AccessDenied(_))));

    // nothing was stored on behalf of anyone
    assert_eq!(d.list_faces(1000, 1000).unwrap().len(), 0);
}

#[test]
fn superuser_may_act_on_any_identity() {
    let mut d = daemon();
    let resp = d.register_face(0, &register_request(1000, "login", 1), &capture(1), 7);
    assert!(resp.is_ok());
    assert_eq!(d.list_faces(0, 1000).unwrap().len(), 1);
}

#[test]
fn delete_nonexistent_face_id_is_idempotent() {
    let mut d = daemon();
    d.register_face(1000, &register_request(1000, "t", 1), &capture(1), 9).unwrap();

    let req = DeleteFaceRequest { user_id: 1000, face_id: Some("missing".to_string()) };
    assert!(d.delete_face(1000, &req).is_ok());
    assert_eq!(d.list_faces(1000, 1000).unwrap().len(), 1);
}

#[test]
fn failed_capture_becomes_camera_error() {
    let d = daemon();
    let vreq = verify_request(1000, "t");
    let cands = Vec::new();
    let failed: Result<CaptureResult, CameraError> = Err(CameraError::Timeout);
    let outcome = d.verify_complete(&vreq, &cands, &failed);
    assert!(matches!(outcome, Err(DaemonError::CameraError(_))));
}

#[test]
fn check_user_permission_rule() {
    let d = daemon();
    assert!(d.check_user_permission(0, 1000).is_ok());
    assert!(d.check_user_permission(1000, 1000).is_ok());
    assert!(d.check_user_permission(1001, 1000).is_err());
}
