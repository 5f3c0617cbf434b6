//! Records, requests and outcomes shared by the service, the store and
//! the bridge.

use vstd::prelude::*;
use vstd::string::StringExecFns;
use crate::score::{score_valid, score2_text, format_score2};
use crate::text::{dec_digits, u64_to_dec};

verus! {

/// Metadata of one enrolled face. The embedding itself is persisted
/// alongside; `embedding_json` carries its serialized vector.
pub struct FaceRecord {
    /// Unique id of this record within the whole store.
    pub face_id: String,
    /// Owning identity.
    pub user_id: u32,
    /// Serialized embedding vector.
    pub embedding_json: String,
    /// Quality score in ppm of 1.0.
    pub quality_ppm: i64,
    /// Unix timestamp (seconds) of enrollment.
    pub registered_at: u64,
    /// Enrollment context label.
    pub context: String,
}

impl FaceRecord {
    pub open spec fn wf(&self) -> bool {
        score_valid(self.quality_ppm)
    }
}

impl Clone for FaceRecord {
    fn clone(&self) -> (r: Self)
        ensures
            r == *self,
    {
        FaceRecord {
            face_id: self.face_id.clone(),
            user_id: self.user_id,
            embedding_json: self.embedding_json.clone(),
            quality_ppm: self.quality_ppm,
            registered_at: self.registered_at,
            context: self.context.clone(),
        }
    }
}

/// Request to enroll a new face.
pub struct RegisterFaceRequest {
    /// Owning identity.
    pub user_id: u32,
    /// Context label (login, sudo, screenlock, ...).
    pub context: String,
    /// Capture timeout budget in milliseconds.
    pub timeout_ms: u64,
    /// Number of frames to capture.
    pub num_samples: u32,
}

/// Answer to a successful enrollment.
pub struct RegisterFaceResponse {
    /// The newly issued face id.
    pub face_id: String,
    /// Enrollment timestamp (Unix seconds).
    pub registered_at: u64,
    /// Achieved quality score in ppm of 1.0.
    pub quality_ppm: i64,
}

/// Request to delete one face (`Some`) or all faces (`None`) of an
/// identity.
pub struct DeleteFaceRequest {
    pub user_id: u32,
    pub face_id: Option<String>,
}

/// Request to verify an identity.
pub struct VerifyRequest {
    /// Identity to authenticate.
    pub user_id: u32,
    /// Context label.
    pub context: String,
    /// Timeout budget in milliseconds.
    pub timeout_ms: u64,
}

/// Outcome of one verification attempt; exactly one variant per attempt.
pub enum VerifyResult {
    /// A stored face matched the probe.
    Success { face_id: String, similarity_score_ppm: i64 },
    /// No face was visible in the probe.
    NoFaceDetected,
    /// A face was seen but no candidate reached the threshold.
    NoMatch { best_score_ppm: i64, threshold_ppm: i64 },
    /// The identity has no enrolled faces.
    NoEnrollment,
    /// The user cancelled the attempt.
    Cancelled,
    /// An internal error, carried as text.
    Error { message: String },
}

impl VerifyResult {
    pub open spec fn wf(&self) -> bool {
        match self {
            VerifyResult::Success { similarity_score_ppm, .. } => score_valid(
                *similarity_score_ppm,
            ),
            VerifyResult::NoMatch { best_score_ppm, threshold_ppm } => score_valid(*best_score_ppm)
                && score_valid(*threshold_ppm),
            _ => true,
        }
    }

    /// The one-line text of this outcome.
    pub open spec fn text(&self) -> Seq<char> {
        match self {
            VerifyResult::Success { face_id, similarity_score_ppm } => "Succès ("@ + face_id@
                + "): "@ + score2_text(*similarity_score_ppm),
            VerifyResult::NoFaceDetected => "Aucun visage"@,
            VerifyResult::NoMatch { best_score_ppm, threshold_ppm } => "Non reconnu: "@
                + score2_text(*best_score_ppm) + " < "@ + score2_text(*threshold_ppm),
            VerifyResult::NoEnrollment => "Pas d'enregistrement"@,
            VerifyResult::Cancelled => "Annulé"@,
            VerifyResult::Error { message } => "Erreur: "@ + message@,
        }
    }

    /// Render the outcome for a person, scores with two decimals.
    pub fn describe(&self) -> (r: String)
        requires
            self.wf(),
        ensures
            r@ == self.text(),
    {
        match self {
            VerifyResult::Success { face_id, similarity_score_ppm } => {
                let mut s = String::from_str("Succès (");
                s.append(face_id.as_str());
                s.append("): ");
                let score = format_score2(*similarity_score_ppm);
                s.append(score.as_str());
                s
            },
            VerifyResult::NoFaceDetected => String::from_str("Aucun visage"),
            VerifyResult::NoMatch { best_score_ppm, threshold_ppm } => {
                let mut s = String::from_str("Non reconnu: ");
                let best = format_score2(*best_score_ppm);
                s.append(best.as_str());
                s.append(" < ");
                let thr = format_score2(*threshold_ppm);
                s.append(thr.as_str());
                s
            },
            VerifyResult::NoEnrollment => String::from_str("Pas d'enregistrement"),
            VerifyResult::Cancelled => String::from_str("Annulé"),
            VerifyResult::Error { message } => {
                let mut s = String::from_str("Erreur: ");
                s.append(message.as_str());
                s
            },
        }
    }
}

/// Typed errors of the verification service.
#[derive(Debug)]
pub enum DaemonError {
    /// The identity is unknown.
    UserNotFound(u32),
    /// The face id is not enrolled.
    FaceNotFound(String),
    /// The permission check failed; never downgraded to a softer outcome.
    AccessDenied(String),
    /// The record store failed.
    StorageError(String),
    /// The capture collaborator failed, timeouts included.
    CameraError(String),
    /// A malformed or oversized message.
    ProtocolError(String),
}

impl DaemonError {
    /// The one-line text of this error.
    pub open spec fn text(&self) -> Seq<char> {
        match self {
            DaemonError::UserNotFound(uid) => "Utilisateur non trouvé: "@ + dec_digits(
                *uid as nat,
            ),
            DaemonError::FaceNotFound(s) => "Visage non trouvé: "@ + s@,
            DaemonError::AccessDenied(s) => "Accès refusé: "@ + s@,
            DaemonError::StorageError(s) => "Stockage échoué: "@ + s@,
            DaemonError::CameraError(s) => "Caméra: "@ + s@,
            DaemonError::ProtocolError(s) => "Erreur de protocole: "@ + s@,
        }
    }

    /// Render the error for a person.
    pub fn message(&self) -> (r: String)
        ensures
            r@ == self.text(),
    {
        match self {
            DaemonError::UserNotFound(uid) => {
                let mut s = String::from_str("Utilisateur non trouvé: ");
                let d = u64_to_dec(*uid as u64);
                s.append(d.as_str());
                s
            },
            DaemonError::FaceNotFound(m) => {
                let mut s = String::from_str("Visage non trouvé: ");
                s.append(m.as_str());
                s
            },
            DaemonError::AccessDenied(m) => {
                let mut s = String::from_str("Accès refusé: ");
                s.append(m.as_str());
                s
            },
            DaemonError::StorageError(m) => {
                let mut s = String::from_str("Stockage échoué: ");
                s.append(m.as_str());
                s
            },
            DaemonError::CameraError(m) => {
                let mut s = String::from_str("Caméra: ");
                s.append(m.as_str());
                s
            },
            DaemonError::ProtocolError(m) => {
                let mut s = String::from_str("Erreur de protocole: ");
                s.append(m.as_str());
                s
            },
        }
    }
}

/// Request relayed over the privilege bridge: one verification attempt.
pub struct PamHelperRequest {
    /// Target identity.
    pub user_id: u32,
    /// Context label.
    pub context: String,
    /// Timeout budget in milliseconds.
    pub timeout_ms: u64,
}

/// Answer relayed back over the privilege bridge.
pub enum PamHelperResponse {
    /// Verification succeeded.
    Success { face_id: String, similarity_score_ppm: i64 },
    /// Verification failed or errored; the reason is opaque text.
    Failure { reason: String },
}

} // verus!
