//! The verification service: the one component allowed to touch an
//! identity's camera and face records.
//!
//! Every operation takes the calling principal explicitly and enforces
//! the permission rule — the superuser or the owner, nobody else — and
//! a denied call leaves the store untouched and never reaches the
//! capture collaborator. Capture results are handed in as arguments:
//! the service decides, outside code performs the camera work, so a
//! verification of an identity with no enrolled faces answers without
//! any capture at all.

use vstd::prelude::*;
use vstd::string::StringExecFns;
use crate::camera::{CameraError, CameraManager, CaptureResult};
use crate::embedding::Embedding;
use crate::matcher::{FaceMatcher, is_chosen_id, max_sim};
use crate::paths::face_id_safe;
use crate::records::{
    DaemonError, DeleteFaceRequest, FaceRecord, RegisterFaceRequest, RegisterFaceResponse,
    VerifyRequest, VerifyResult,
};
use crate::score::score_valid;
use crate::storage::{FaceStorage, list_post, delete_effect};
use crate::text::{dec_digits, lemma_dec_digits_shape, u64_to_dec};
use crate::wire::{encode_vector, plain, plain_char, vector_text};

verus! {

/// Configuration of the verification service.
pub struct DaemonConfig {
    /// Root directory of the record store on disk.
    pub storage_path: String,
    /// Whether the service runs as the superuser.
    pub root_mode: bool,
    /// The identity the service runs as, when not the superuser.
    pub current_uid: Option<u32>,
    /// Similarity a candidate must reach, in ppm of 1.0.
    pub default_similarity_threshold_ppm: i64,
    /// Verbose diagnostics.
    pub debug: bool,
}

impl Default for DaemonConfig {
    /// The system-wide store location and a threshold of 0.6.
    fn default() -> (r: Self)
        ensures
            r.storage_path@ == "/var/lib/linux-hello"@,
            !r.root_mode,
            r.current_uid is None,
            r.default_similarity_threshold_ppm == 600_000,
            !r.debug,
    {
        DaemonConfig {
            storage_path: String::from_str("/var/lib/linux-hello"),
            root_mode: false,
            current_uid: None,
            default_similarity_threshold_ppm: 600_000,
            debug: false,
        }
    }
}

/// The permission rule: the superuser may act on any identity, anyone
/// else only on their own.
pub open spec fn permitted(caller_uid: u32, target_uid: u32) -> bool {
    caller_uid == 0 || caller_uid == target_uid
}

/// The face id issued for an enrollment of this identity at this time.
pub open spec fn face_id_text(user_id: u32, now_secs: u64) -> Seq<char> {
    "face_"@ + dec_digits(user_id as nat) + "_"@ + dec_digits(now_secs as nat)
}

/// An issued face id is path-safe and fits on the wire: letters,
/// underscores and digits only.
pub proof fn lemma_face_id_text_safe(user_id: u32, now_secs: u64)
    ensures
        face_id_safe(face_id_text(user_id, now_secs)),
        plain(face_id_text(user_id, now_secs)),
{
    reveal_strlit("face_");
    reveal_strlit("_");
    lemma_dec_digits_shape(user_id as nat);
    lemma_dec_digits_shape(now_secs as nat);
    let d1 = dec_digits(user_id as nat);
    let d2 = dec_digits(now_secs as nat);
    let t = face_id_text(user_id, now_secs);
    assert forall|i: int| 0 <= i < t.len() implies #[trigger] t[i] != '/' && t[i] != '\\' && t[i]
        != '.' && plain_char(t[i]) by {
        if i < 5 {
            assert(t[i] == "face_"@[i]);
        } else if i < 5 + d1.len() {
            assert(t[i] == d1[i - 5]);
            assert(crate::text::is_dec_digit(d1[i - 5]));
        } else if i < 6 + d1.len() {
            assert(t[i] == '_');
        } else {
            assert(t[i] == d2[i - 6 - d1.len()]);
            assert(crate::text::is_dec_digit(d2[i - 6 - d1.len()]));
        }
    }
}

/// What a successful enrollment did: the new record is stored under the
/// issued face id with the first captured embedding, and nothing else
/// changed.
pub open spec fn enroll_effect(
    pre: FaceStorage,
    post: FaceStorage,
    request: RegisterFaceRequest,
    capture: CaptureResult,
    now_secs: u64,
) -> bool {
    let fid = face_id_text(request.user_id, now_secs);
    &&& post.has_face(request.user_id, fid)
    &&& post.stored_record(request.user_id, fid).face_id@ == fid
    &&& post.stored_record(request.user_id, fid).user_id == request.user_id
    &&& post.stored_record(request.user_id, fid).quality_ppm == capture.quality_ppm
    &&& post.stored_record(request.user_id, fid).registered_at == now_secs
    &&& post.stored_record(request.user_id, fid).context@ == request.context@
    &&& post.stored_record(request.user_id, fid).embedding_json@ == vector_text(
        capture.embeddings@[0].vector@,
    )
    &&& post.stored_embedding(request.user_id, fid).vector@ == capture.embeddings@[0].vector@
    &&& forall|uid2: u32, fid2: Seq<char>|
        !(uid2 == request.user_id && fid2 == fid) ==> #[trigger] post.has_face(uid2, fid2)
            == pre.has_face(uid2, fid2)
    &&& forall|u: u32| #[trigger] post.dirs().contains(u) <==> (pre.dirs().contains(u) || u
        == request.user_id)
}

/// What the first phase of a verification decided.
pub enum VerifyStep {
    /// The permission check failed; nothing else may happen.
    Deny(DaemonError),
    /// The outcome is already known without touching the camera.
    Done(VerifyResult),
    /// A probe must be captured and matched against these candidates.
    NeedCapture(Vec<(String, Embedding)>),
}

/// The service: owns the record store, the capture collaborator and
/// the matcher for one user session.
pub struct FaceAuthDaemon {
    config: DaemonConfig,
    storage: FaceStorage,
    camera: CameraManager,
    matcher: FaceMatcher,
}

impl FaceAuthDaemon {
    /// The record store state.
    pub closed spec fn store(&self) -> FaceStorage {
        self.storage
    }

    /// The similarity threshold in force.
    pub closed spec fn threshold_ppm(&self) -> i64 {
        self.matcher.threshold_ppm
    }

    pub open spec fn wf(&self) -> bool {
        &&& self.store().wf()
        &&& score_valid(self.threshold_ppm())
    }

    /// Create a service over an empty store.
    pub fn new(config: DaemonConfig) -> (r: Result<Self, DaemonError>)
        requires
            score_valid(config.default_similarity_threshold_ppm),
        ensures
            r matches Ok(d) && d.wf() && d.store().faces().len() == 0 && d.store().dirs().len()
                == 0 && d.threshold_ppm() == config.default_similarity_threshold_ppm,
    {
        let threshold = config.default_similarity_threshold_ppm;
        Ok(
            FaceAuthDaemon {
                config,
                storage: FaceStorage::new(),
                camera: CameraManager::new(5000),
                matcher: FaceMatcher::new(threshold),
            },
        )
    }

    /// The permission check, repeated at this layer independent of the
    /// bridge: succeeds exactly for the superuser or the owner.
    pub fn check_user_permission(&self, caller_uid: u32, target_uid: u32) -> (r: Result<
        (),
        DaemonError,
    >)
        ensures
            r is Ok <==> permitted(caller_uid, target_uid),
            r matches Err(e) ==> e matches DaemonError::AccessDenied(_),
    {
        if caller_uid == 0 {
            return Ok(());
        }
        if caller_uid == target_uid {
            return Ok(());
        }
        let mut m = String::from_str("UID ");
        let c = u64_to_dec(caller_uid as u64);
        m.append(c.as_str());
        m.append(" ne peut pas accéder à UID ");
        let t = u64_to_dec(target_uid as u64);
        m.append(t.as_str());
        Err(DaemonError::AccessDenied(m))
    }

    /// First phase of an enrollment: the permission check alone,
    /// mirroring the verify phases, so that the capture collaborator is
    /// reached only after it passes — a denied caller never wakes the
    /// camera. Outside code captures only between an `Ok` here and
    /// `register_face`.
    pub fn enroll_begin(&self, caller_uid: u32, request: &RegisterFaceRequest) -> (r: Result<
        (),
        DaemonError,
    >)
        ensures
            r is Ok <==> permitted(caller_uid, request.user_id),
            r matches Err(e) ==> e matches DaemonError::AccessDenied(_),
    {
        self.check_user_permission(caller_uid, request.user_id)
    }

    /// Enroll a new face from a finished capture.
    ///
    /// A caller that is neither the superuser nor the owner is denied
    /// and nothing changes. A failed or empty capture is a camera
    /// error and nothing changes. Otherwise the first captured
    /// embedding is persisted under a fresh face id derived from the
    /// identity and the enrollment time, and the response carries that
    /// id and the achieved quality.
    pub fn register_face(
        &mut self,
        caller_uid: u32,
        request: &RegisterFaceRequest,
        capture: &Result<CaptureResult, CameraError>,
        now_secs: u64,
    ) -> (r: Result<RegisterFaceResponse, DaemonError>)
        requires
            old(self).wf(),
            capture matches Ok(c) ==> c.wf(),
        ensures
            final(self).wf(),
            final(self).threshold_ppm() == old(self).threshold_ppm(),
            !permitted(caller_uid, request.user_id) ==> (r matches Err(
                DaemonError::AccessDenied(_),
            ) && final(self).store() == old(self).store()),
            permitted(caller_uid, request.user_id) && capture is Err ==> (r matches Err(
                DaemonError::CameraError(_),
            ) && final(self).store() == old(self).store()),
            capture matches Ok(c) ==> ((permitted(caller_uid, request.user_id)
                && c.embeddings@.len() == 0) ==> (r matches Err(DaemonError::CameraError(_))
                && final(self).store() == old(self).store())),
            capture matches Ok(c) ==> ((permitted(caller_uid, request.user_id)
                && c.embeddings@.len() > 0) ==> (r matches Ok(resp) && enroll_effect(
                old(self).store(),
                final(self).store(),
                *request,
                *c,
                now_secs,
            ) && resp.face_id@ == face_id_text(request.user_id, now_secs) && resp.registered_at
                == now_secs && resp.quality_ppm == c.quality_ppm)),
    {
        if let Err(e) = self.check_user_permission(caller_uid, request.user_id) {
            return Err(e);
        }
        let cap = match capture {
            Ok(c) => c,
            Err(e) => {
                return Err(DaemonError::CameraError(e.message()));
            },
        };
        if cap.embeddings.len() == 0 {
            return Err(DaemonError::CameraError(String::from_str("Aucune frame capturée")));
        }
        let mut face_id = String::from_str("face_");
        let d1 = u64_to_dec(request.user_id as u64);
        face_id.append(d1.as_str());
        face_id.append("_");
        let d2 = u64_to_dec(now_secs);
        face_id.append(d2.as_str());
        proof {
            reveal_strlit("face_");
            reveal_strlit("_");
            assert(face_id@ =~= face_id_text(request.user_id, now_secs));
            lemma_face_id_text_safe(request.user_id, now_secs);
        }
        let embedding = &cap.embeddings[0];
        let record = FaceRecord {
            face_id: face_id.clone(),
            user_id: request.user_id,
            embedding_json: encode_vector(&embedding.vector),
            quality_ppm: cap.quality_ppm,
            registered_at: now_secs,
            context: request.context.clone(),
        };
        match self.storage.save_face(&record, embedding) {
            Ok(()) => {},
            // the issued face id is proven path-safe, so the store accepts it
            Err(_) => {
                return vstd::pervasive::unreached();
            },
        }
        Ok(
            RegisterFaceResponse {
                face_id,
                registered_at: now_secs,
                quality_ppm: cap.quality_ppm,
            },
        )
    }

    /// First phase of a verification: check permission, and decide from
    /// the store alone whether a capture is needed.
    ///
    /// An identity with no enrolled faces answers `NoEnrollment` here,
    /// before any capture; the capture collaborator is reached only on
    /// `NeedCapture`.
    pub fn verify_begin(&self, caller_uid: u32, request: &VerifyRequest) -> (r: VerifyStep)
        requires
            self.wf(),
        ensures
            !permitted(caller_uid, request.user_id) ==> r matches VerifyStep::Deny(
                DaemonError::AccessDenied(_),
            ),
            permitted(caller_uid, request.user_id) && !(exists|fid: Seq<char>|
                #[trigger] self.store().has_face(request.user_id, fid)) ==> r matches
                VerifyStep::Done(VerifyResult::NoEnrollment),
            permitted(caller_uid, request.user_id) && (exists|fid: Seq<char>|
                #[trigger] self.store().has_face(request.user_id, fid)) ==> (r matches
                VerifyStep::NeedCapture(cands) && cands@.len() > 0 && forall|k: int|
                0 <= k < cands@.len() ==> (#[trigger] cands@[k]).1.wf() && self.store().has_face(
                    request.user_id,
                    cands@[k].0@,
                ) && cands@[k].1.vector@ == self.store().stored_embedding(
                    request.user_id,
                    cands@[k].0@,
                ).vector@),
    {
        if let Err(e) = self.check_user_permission(caller_uid, request.user_id) {
            return VerifyStep::Deny(e);
        }
        let faces = match self.storage.list_user_faces(request.user_id) {
            Ok(v) => v,
            Err(_) => vstd::pervasive::unreached(),
        };
        if faces.len() == 0 {
            proof {
                if exists|fid: Seq<char>| #[trigger] self.store().has_face(request.user_id, fid) {
                    let fid = choose|fid: Seq<char>|
                        #[trigger] self.store().has_face(request.user_id, fid);
                    let k = crate::storage::key_index(
                        self.store().faces(),
                        request.user_id,
                        fid,
                    );
                    assert(crate::storage::key_is(
                        self.store().faces()[k],
                        request.user_id,
                        fid,
                    ));
                    assert(self.store().faces()[k].record.user_id == request.user_id);
                }
            }
            return VerifyStep::Done(VerifyResult::NoEnrollment);
        }
        let mut cands: Vec<(String, Embedding)> = Vec::new();
        let n = faces.len();
        let mut i: usize = 0;
        while i < n
            invariant
                0 <= i <= n,
                n == faces@.len(),
                self.wf(),
                list_post(self.store().faces(), request.user_id, faces@),
                cands@.len() == i,
                forall|k: int|
                    0 <= k < i ==> (#[trigger] cands@[k]).1.wf() && self.store().has_face(
                        request.user_id,
                        cands@[k].0@,
                    ) && cands@[k].1.vector@ == self.store().stored_embedding(
                        request.user_id,
                        cands@[k].0@,
                    ).vector@,
            decreases n - i,
        {
            proof {
                assert(faces@[i as int].user_id == request.user_id);
                assert(self.store().has_face(request.user_id, faces@[i as int].face_id@));
                let k = crate::storage::key_index(
                    self.store().faces(),
                    request.user_id,
                    faces@[i as int].face_id@,
                );
                assert(face_id_safe(self.store().faces()[k].record.face_id@));
            }
            let emb = match self.storage.load_face_embedding(
                request.user_id,
                faces[i].face_id.as_str(),
            ) {
                Ok(e) => e,
                Err(_) => vstd::pervasive::unreached(),
            };
            cands.push((faces[i].face_id.clone(), emb));
            i = i + 1;
        }
        proof {
            assert(self.store().has_face(request.user_id, faces@[0].face_id@));
        }
        VerifyStep::NeedCapture(cands)
    }

    /// Second phase of a verification: match the captured probe against
    /// the candidates from the first phase.
    ///
    /// A failed or empty capture is a camera error. Otherwise the
    /// matcher decides: a match is a success with the winning face id
    /// and score; no match with a face seen is `NoMatch` carrying the
    /// true best score and the threshold; a best score of zero means no
    /// face was detected.
    pub fn verify_complete(
        &self,
        request: &VerifyRequest,
        candidates: &Vec<(String, Embedding)>,
        capture: &Result<CaptureResult, CameraError>,
    ) -> (r: Result<VerifyResult, DaemonError>)
        requires
            self.wf(),
            forall|k: int| 0 <= k < candidates@.len() ==> (#[trigger] candidates@[k]).1.wf(),
            capture matches Ok(c) ==> c.wf(),
        ensures
            capture matches Err(_) ==> r matches Err(DaemonError::CameraError(_)),
            capture matches Ok(c) ==> (c.embeddings@.len() == 0 ==> r matches Err(
                DaemonError::CameraError(_),
            )),
            capture matches Ok(c) ==> (c.embeddings@.len() > 0 ==> (r matches Ok(vr) && {
                let probe = c.embeddings@[0];
                let best = max_sim(probe.vector@, candidates@, candidates@.len() as int);
                &&& (candidates@.len() > 0 && best >= self.threshold_ppm()) ==> (vr matches
                    VerifyResult::Success { face_id, similarity_score_ppm } && similarity_score_ppm
                    == best && is_chosen_id(probe.vector@, candidates@, face_id@))
                &&& !(candidates@.len() > 0 && best >= self.threshold_ppm()) && best > 0 ==> (
                vr matches VerifyResult::NoMatch { best_score_ppm, threshold_ppm } && best_score_ppm
                    == best && threshold_ppm == self.threshold_ppm())
                &&& !(candidates@.len() > 0 && best >= self.threshold_ppm()) && best <= 0 ==> (
                vr matches VerifyResult::NoFaceDetected)
            })),
    {
        let cap = match capture {
            Ok(c) => c,
            Err(e) => {
                return Err(DaemonError::CameraError(e.message()));
            },
        };
        if cap.embeddings.len() == 0 {
            return Err(DaemonError::CameraError(String::from_str("Aucune frame capturée")));
        }
        let probe = &cap.embeddings[0];
        let m = self.matcher.match_embedding(probe, candidates);
        if m.matched {
            let face_id = match m.face_id {
                Some(f) => f,
                None => vstd::pervasive::unreached(),
            };
            Ok(VerifyResult::Success { face_id, similarity_score_ppm: m.best_score_ppm })
        } else if m.best_score_ppm > 0 {
            Ok(
                VerifyResult::NoMatch {
                    best_score_ppm: m.best_score_ppm,
                    threshold_ppm: m.threshold_ppm,
                },
            )
        } else {
            Ok(VerifyResult::NoFaceDetected)
        }
    }

    /// Delete one face (`Some`) or all faces (`None`) of an identity.
    ///
    /// A caller that is neither the superuser nor the owner is denied
    /// and nothing changes. Deleting an absent face id succeeds and
    /// changes nothing. Records of other identities are never touched.
    pub fn delete_face(&mut self, caller_uid: u32, request: &DeleteFaceRequest) -> (r: Result<
        (),
        DaemonError,
    >)
        requires
            old(self).wf(),
        ensures
            final(self).wf(),
            final(self).threshold_ppm() == old(self).threshold_ppm(),
            !permitted(caller_uid, request.user_id) ==> (r matches Err(
                DaemonError::AccessDenied(_),
            ) && final(self).store() == old(self).store()),
            request.face_id matches Some(fid) ==> ((permitted(caller_uid, request.user_id)
                && !face_id_safe(fid@)) ==> (r matches Err(DaemonError::AccessDenied(_))
                && final(self).store().faces() == old(self).store().faces())),
            request.face_id matches Some(fid) ==> ((permitted(caller_uid, request.user_id)
                && face_id_safe(fid@)) ==> (r is Ok && delete_effect(
                old(self).store(),
                final(self).store(),
                request.user_id,
                fid@,
            ))),
            permitted(caller_uid, request.user_id) && request.face_id is None ==> (r is Ok
                && (forall|fid: Seq<char>|
                !#[trigger] final(self).store().has_face(request.user_id, fid)) && (forall|
                uid2: u32,
                fid2: Seq<char>,
            |
                uid2 != request.user_id ==> #[trigger] final(self).store().has_face(uid2, fid2)
                    == old(self).store().has_face(uid2, fid2))),
    {
        if let Err(e) = self.check_user_permission(caller_uid, request.user_id) {
            return Err(e);
        }
        match &request.face_id {
            Some(fid) => self.storage.delete_face(request.user_id, fid.as_str()),
            None => self.storage.delete_all_faces(request.user_id),
        }
    }

    /// List the enrolled faces of an identity.
    ///
    /// A caller that is neither the superuser nor the owner is denied;
    /// otherwise exactly the identity's own records come back.
    pub fn list_faces(&self, caller_uid: u32, user_id: u32) -> (r: Result<
        Vec<FaceRecord>,
        DaemonError,
    >)
        requires
            self.wf(),
        ensures
            !permitted(caller_uid, user_id) ==> r matches Err(DaemonError::AccessDenied(_)),
            permitted(caller_uid, user_id) ==> (r matches Ok(v) && list_post(
                self.store().faces(),
                user_id,
                v@,
            )),
    {
        if let Err(e) = self.check_user_permission(caller_uid, user_id) {
            return Err(e);
        }
        self.storage.list_user_faces(user_id)
    }

    /// The configuration this service was created with.
    pub fn config(&self) -> &DaemonConfig {
        &self.config
    }

    /// Whether the capture collaborator reports a camera.
    pub fn is_camera_available(&self) -> (r: bool)
        ensures
            r,
    {
        self.camera.is_available()
    }

    /// The capture collaborator.
    pub fn camera_manager(&self) -> &CameraManager {
        &self.camera
    }
}

} // verus!
