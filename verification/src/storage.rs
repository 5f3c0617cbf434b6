//! The record store: per-identity-namespaced face records and their
//! embeddings, with path-traversal-proof addressing.
//!
//! The store is the authoritative in-memory ledger; on-disk mirroring of
//! its entries (one metadata file and one embedding file per record,
//! inside one namespace directory per identity) is left to unverified
//! code that uses the names from [`crate::paths`]. The store never
//! returns, lists or deletes a record belonging to an identity other
//! than the one requested, and a record only exists while its identity's
//! namespace exists.

use vstd::prelude::*;
use vstd::string::StringExecFns;
use crate::embedding::Embedding;
use crate::paths::{face_id_is_safe, face_id_safe};
use crate::records::{DaemonError, FaceRecord};
use crate::text::str_eq;

verus! {

/// One enrolled face: its record and its embedding.
pub struct StoredFace {
    pub record: FaceRecord,
    pub embedding: Embedding,
}

/// `e` is keyed by this identity and face id.
pub open spec fn key_is(e: StoredFace, uid: u32, fid: Seq<char>) -> bool {
    e.record.user_id == uid && e.record.face_id@ == fid
}

/// Some entry is keyed by this identity and face id.
pub open spec fn has_key(s: Seq<StoredFace>, uid: u32, fid: Seq<char>) -> bool {
    exists|i: int| 0 <= i < s.len() && key_is(#[trigger] s[i], uid, fid)
}

/// Index of the entry with this key.
pub open spec fn key_index(s: Seq<StoredFace>, uid: u32, fid: Seq<char>) -> int {
    choose|i: int| 0 <= i < s.len() && key_is(#[trigger] s[i], uid, fid)
}

/// The record stored under a key.
pub open spec fn rec_at(s: Seq<StoredFace>, uid: u32, fid: Seq<char>) -> FaceRecord {
    s[key_index(s, uid, fid)].record
}

/// The embedding stored under a key.
pub open spec fn emb_at(s: Seq<StoredFace>, uid: u32, fid: Seq<char>) -> Embedding {
    s[key_index(s, uid, fid)].embedding
}

/// No two entries share a key: a face id, once issued, is unique.
pub open spec fn unique_keys(s: Seq<StoredFace>) -> bool {
    forall|i: int, j: int|
        0 <= i < j < s.len() ==> !key_is(
            #[trigger] s[i],
            (#[trigger] s[j]).record.user_id,
            s[j].record.face_id@,
        )
}

/// The store invariant: unique keys, every record well-formed with a
/// safe face id, and no record without its identity's namespace.
pub open spec fn store_inv(s: Seq<StoredFace>, dirs: Seq<u32>) -> bool {
    &&& unique_keys(s)
    &&& forall|i: int| 0 <= i < s.len() ==> dirs.contains((#[trigger] s[i]).record.user_id)
    &&& forall|i: int| 0 <= i < s.len() ==> face_id_safe((#[trigger] s[i]).record.face_id@)
    &&& forall|i: int|
        0 <= i < s.len() ==> (#[trigger] s[i]).record.wf() && s[i].embedding.wf()
    &&& forall|i: int, j: int|
        #![trigger dirs[i], dirs[j]]
        0 <= i < j < dirs.len() ==> dirs[i] != dirs[j]
}

/// An entry keyed like `s[i]` is at no other position, so `key_index`
/// finds exactly `i`.
pub proof fn lemma_key_index_of(s: Seq<StoredFace>, uid: u32, fid: Seq<char>, i: int)
    requires
        unique_keys(s),
        0 <= i < s.len(),
        key_is(s[i], uid, fid),
    ensures
        has_key(s, uid, fid),
        key_index(s, uid, fid) == i,
{
    assert(has_key(s, uid, fid));
    let j = key_index(s, uid, fid);
    assert(0 <= j < s.len() && key_is(s[j], uid, fid));
    if j < i {
        assert(!key_is(s[j], s[i].record.user_id, s[i].record.face_id@));
    } else if i < j {
        assert(!key_is(s[i], s[j].record.user_id, s[j].record.face_id@));
    }
}

/// Removing one entry keeps every other key bound to the same record and
/// embedding, and unbinds exactly the removed key.
pub proof fn lemma_remove_entry(s: Seq<StoredFace>, i: int)
    requires
        unique_keys(s),
        0 <= i < s.len(),
    ensures
        unique_keys(s.remove(i)),
        !has_key(s.remove(i), s[i].record.user_id, s[i].record.face_id@),
        forall|uid: u32, fid: Seq<char>|
            !(uid == s[i].record.user_id && fid == s[i].record.face_id@) ==> #[trigger] has_key(
                s.remove(i),
                uid,
                fid,
            ) == has_key(s, uid, fid),
        forall|uid: u32, fid: Seq<char>|
            !(uid == s[i].record.user_id && fid == s[i].record.face_id@) && has_key(s, uid, fid)
                ==> #[trigger] rec_at(s.remove(i), uid, fid) == rec_at(s, uid, fid) && emb_at(
                s.remove(i),
                uid,
                fid,
            ) == emb_at(s, uid, fid),
{
    let t = s.remove(i);
    s.remove_ensures(i);
    assert forall|a: int, b: int| 0 <= a < b < t.len() implies !key_is(
        #[trigger] t[a],
        (#[trigger] t[b]).record.user_id,
        t[b].record.face_id@,
    ) by {
        let a0 = if a < i { a } else { a + 1 };
        let b0 = if b < i { b } else { b + 1 };
        assert(t[a] == s[a0] && t[b] == s[b0]);
        assert(!key_is(s[a0], s[b0].record.user_id, s[b0].record.face_id@));
    }
    assert(unique_keys(t));
    if has_key(t, s[i].record.user_id, s[i].record.face_id@) {
        let k = key_index(t, s[i].record.user_id, s[i].record.face_id@);
        let k0 = if k < i { k } else { k + 1 };
        assert(t[k] == s[k0]);
        if k0 < i {
            assert(!key_is(s[k0], s[i].record.user_id, s[i].record.face_id@));
        } else {
            assert(!key_is(s[i], s[k0].record.user_id, s[k0].record.face_id@));
        }
    }
    assert forall|uid: u32, fid: Seq<char>|
        !(uid == s[i].record.user_id && fid == s[i].record.face_id@) implies #[trigger] has_key(
        t,
        uid,
        fid,
    ) == has_key(s, uid, fid) by {
        if has_key(s, uid, fid) {
            let k = key_index(s, uid, fid);
            assert(0 <= k < s.len() && key_is(s[k], uid, fid));
            let kt = if k < i { k } else { k - 1 };
            assert(k != i);
            assert(t[kt] == s[k]);
            assert(has_key(t, uid, fid));
        }
        if has_key(t, uid, fid) {
            let k = key_index(t, uid, fid);
            let k0 = if k < i { k } else { k + 1 };
            assert(t[k] == s[k0]);
            assert(has_key(s, uid, fid));
        }
    }
    assert forall|uid: u32, fid: Seq<char>|
        !(uid == s[i].record.user_id && fid == s[i].record.face_id@) && has_key(
            s,
            uid,
            fid,
        ) implies #[trigger] rec_at(t, uid, fid) == rec_at(s, uid, fid) && emb_at(t, uid, fid)
        == emb_at(s, uid, fid) by {
        let k = key_index(s, uid, fid);
        lemma_key_index_of(s, uid, fid, k);
        let kt = if k < i { k } else { k - 1 };
        assert(k != i);
        assert(t[kt] == s[k]);
        lemma_key_index_of(t, uid, fid, kt);
    }
}

/// Replacing the entry that holds a key rebinds that key and no other.
pub proof fn lemma_update_entry(s: Seq<StoredFace>, i: int, e: StoredFace)
    requires
        unique_keys(s),
        0 <= i < s.len(),
        key_is(s[i], e.record.user_id, e.record.face_id@),
    ensures
        unique_keys(s.update(i, e)),
        has_key(s.update(i, e), e.record.user_id, e.record.face_id@),
        key_index(s.update(i, e), e.record.user_id, e.record.face_id@) == i,
        forall|uid: u32, fid: Seq<char>|
            !(uid == e.record.user_id && fid == e.record.face_id@) ==> #[trigger] has_key(
                s.update(i, e),
                uid,
                fid,
            ) == has_key(s, uid, fid),
        forall|uid: u32, fid: Seq<char>|
            !(uid == e.record.user_id && fid == e.record.face_id@) && has_key(s, uid, fid)
                ==> #[trigger] rec_at(s.update(i, e), uid, fid) == rec_at(s, uid, fid) && emb_at(
                s.update(i, e),
                uid,
                fid,
            ) == emb_at(s, uid, fid),
{
    let t = s.update(i, e);
    assert forall|a: int, b: int| 0 <= a < b < t.len() implies !key_is(
        t[a],
        (t[b]).record.user_id,
        t[b].record.face_id@,
    ) by {
        if a != i && b != i {
            assert(!key_is(s[a], s[b].record.user_id, s[b].record.face_id@));
        } else if a == i {
            assert(!key_is(s[i], s[b].record.user_id, s[b].record.face_id@));
        } else {
            assert(!key_is(s[a], s[i].record.user_id, s[i].record.face_id@));
        }
    }
    lemma_key_index_of(t, e.record.user_id, e.record.face_id@, i);
    assert forall|uid: u32, fid: Seq<char>|
        !(uid == e.record.user_id && fid == e.record.face_id@) implies #[trigger] has_key(
        t,
        uid,
        fid,
    ) == has_key(s, uid, fid) by {
        if has_key(s, uid, fid) {
            let k = key_index(s, uid, fid);
            assert(0 <= k < s.len() && key_is(s[k], uid, fid));
            assert(k != i);
            assert(t[k] == s[k]);
            assert(has_key(t, uid, fid));
        }
        if has_key(t, uid, fid) {
            let k = key_index(t, uid, fid);
            assert(0 <= k < t.len() && key_is(t[k], uid, fid));
            assert(k != i);
            assert(t[k] == s[k]);
            assert(has_key(s, uid, fid));
        }
    }
    assert forall|uid: u32, fid: Seq<char>|
        !(uid == e.record.user_id && fid == e.record.face_id@) && has_key(
            s,
            uid,
            fid,
        ) implies #[trigger] rec_at(t, uid, fid) == rec_at(s, uid, fid) && emb_at(t, uid, fid)
        == emb_at(s, uid, fid) by {
        let k = key_index(s, uid, fid);
        lemma_key_index_of(s, uid, fid, k);
        assert(k != i);
        assert(t[k] == s[k]);
        lemma_key_index_of(t, uid, fid, k);
    }
}

/// Appending an entry with a fresh key binds that key and no other.
pub proof fn lemma_push_entry(s: Seq<StoredFace>, e: StoredFace)
    requires
        unique_keys(s),
        !has_key(s, e.record.user_id, e.record.face_id@),
    ensures
        unique_keys(s.push(e)),
        has_key(s.push(e), e.record.user_id, e.record.face_id@),
        key_index(s.push(e), e.record.user_id, e.record.face_id@) == s.len(),
        forall|uid: u32, fid: Seq<char>|
            !(uid == e.record.user_id && fid == e.record.face_id@) ==> #[trigger] has_key(
                s.push(e),
                uid,
                fid,
            ) == has_key(s, uid, fid),
        forall|uid: u32, fid: Seq<char>|
            !(uid == e.record.user_id && fid == e.record.face_id@) && has_key(s, uid, fid)
                ==> #[trigger] rec_at(s.push(e), uid, fid) == rec_at(s, uid, fid) && emb_at(
                s.push(e),
                uid,
                fid,
            ) == emb_at(s, uid, fid),
{
    let t = s.push(e);
    let n = s.len() as int;
    assert forall|a: int, b: int| 0 <= a < b < t.len() implies !key_is(
        t[a],
        (t[b]).record.user_id,
        t[b].record.face_id@,
    ) by {
        if b < n {
            assert(t[a] == s[a] && t[b] == s[b]);
            assert(!key_is(s[a], s[b].record.user_id, s[b].record.face_id@));
        } else {
            assert(t[b] == e && t[a] == s[a]);
            if key_is(s[a], e.record.user_id, e.record.face_id@) {
                assert(has_key(s, e.record.user_id, e.record.face_id@));
            }
        }
    }
    assert(t[n] == e);
    lemma_key_index_of(t, e.record.user_id, e.record.face_id@, n);
    assert forall|uid: u32, fid: Seq<char>|
        !(uid == e.record.user_id && fid == e.record.face_id@) implies #[trigger] has_key(
        t,
        uid,
        fid,
    ) == has_key(s, uid, fid) by {
        if has_key(s, uid, fid) {
            let k = key_index(s, uid, fid);
            assert(0 <= k < s.len() && key_is(s[k], uid, fid));
            assert(t[k] == s[k]);
            assert(has_key(t, uid, fid));
        }
        if has_key(t, uid, fid) {
            let k = key_index(t, uid, fid);
            assert(0 <= k < t.len() && key_is(t[k], uid, fid));
            assert(k != n);
            assert(t[k] == s[k]);
            assert(has_key(s, uid, fid));
        }
    }
    assert forall|uid: u32, fid: Seq<char>|
        !(uid == e.record.user_id && fid == e.record.face_id@) && has_key(
            s,
            uid,
            fid,
        ) implies #[trigger] rec_at(t, uid, fid) == rec_at(s, uid, fid) && emb_at(t, uid, fid)
        == emb_at(s, uid, fid) by {
        let k = key_index(s, uid, fid);
        lemma_key_index_of(s, uid, fid, k);
        assert(t[k] == s[k]);
        lemma_key_index_of(t, uid, fid, k);
    }
}

/// What a successful save did to the store: the record's key is bound to
/// this record and embedding, every other key is untouched, the owner's
/// namespace exists, and the entry count grew exactly when the key was
/// new.
pub open spec fn save_effect(
    pre: FaceStorage,
    post: FaceStorage,
    record: FaceRecord,
    embedding: Embedding,
) -> bool {
    let uid = record.user_id;
    let fid = record.face_id@;
    &&& post.has_face(uid, fid)
    &&& post.stored_record(uid, fid) == record
    &&& post.stored_embedding(uid, fid).vector@ == embedding.vector@
    &&& post.stored_embedding(uid, fid).metadata == embedding.metadata
    &&& forall|uid2: u32, fid2: Seq<char>|
        !(uid2 == uid && fid2 == fid) ==> #[trigger] post.has_face(uid2, fid2) == pre.has_face(
            uid2,
            fid2,
        )
    &&& forall|uid2: u32, fid2: Seq<char>|
        !(uid2 == uid && fid2 == fid) && pre.has_face(uid2, fid2) ==> #[trigger] post.stored_record(
            uid2,
            fid2,
        ) == pre.stored_record(uid2, fid2) && post.stored_embedding(uid2, fid2)
            == pre.stored_embedding(uid2, fid2)
    &&& forall|u: u32|
        #[trigger] post.dirs().contains(u) <==> (pre.dirs().contains(u) || u == uid)
    &&& post.faces().len() == pre.faces().len() + (if pre.has_face(uid, fid) {
        0int
    } else {
        1int
    })
}

/// What a successful delete did to the store: the key is unbound, every
/// other key is untouched, and the store shrank exactly when the key was
/// bound. Deleting an absent key changes nothing at all.
pub open spec fn delete_effect(
    pre: FaceStorage,
    post: FaceStorage,
    uid: u32,
    fid: Seq<char>,
) -> bool {
    &&& !post.has_face(uid, fid)
    &&& forall|uid2: u32, fid2: Seq<char>|
        !(uid2 == uid && fid2 == fid) ==> #[trigger] post.has_face(uid2, fid2) == pre.has_face(
            uid2,
            fid2,
        )
    &&& forall|uid2: u32, fid2: Seq<char>|
        !(uid2 == uid && fid2 == fid) && pre.has_face(uid2, fid2) ==> #[trigger] post.stored_record(
            uid2,
            fid2,
        ) == pre.stored_record(uid2, fid2) && post.stored_embedding(uid2, fid2)
            == pre.stored_embedding(uid2, fid2)
    &&& post.dirs() == pre.dirs()
    &&& post.faces().len() == pre.faces().len() - (if pre.has_face(uid, fid) {
        1int
    } else {
        0int
    })
    &&& !pre.has_face(uid, fid) ==> post.faces() == pre.faces()
}

/// What a listing returns: exactly the records of the requested
/// identity, each bound in the store under its own face id, each face
/// id at most once — so the listing has one entry per live record and
/// its length is pinned by the store.
pub open spec fn list_post(s: Seq<StoredFace>, uid: u32, out: Seq<FaceRecord>) -> bool {
    &&& forall|k: int|
        0 <= k < out.len() ==> (#[trigger] out[k]).user_id == uid && has_key(s, uid, out[k].face_id@)
            && rec_at(s, uid, out[k].face_id@) == out[k]
    &&& forall|i: int|
        0 <= i < s.len() && (#[trigger] s[i]).record.user_id == uid ==> exists|k: int|
            0 <= k < out.len() && #[trigger] out[k] == s[i].record
    &&& forall|k1: int, k2: int|
        #![trigger out[k1].face_id@, out[k2].face_id@]
        0 <= k1 < k2 < out.len() ==> out[k1].face_id@ != out[k2].face_id@
}

/// Law: after a save, the saved key is bound to the saved embedding
/// vector, so a load of that key is owed exactly the vector that went
/// in.
pub proof fn lemma_save_load_round_trip(
    pre: FaceStorage,
    post: FaceStorage,
    record: FaceRecord,
    embedding: Embedding,
)
    requires
        save_effect(pre, post, record, embedding),
    ensures
        post.lookup_vector(record.user_id, record.face_id@) == Some(embedding.vector@),
{
}

/// Durable, per-identity-namespaced collection of enrolled faces.
pub struct FaceStorage {
    entries: Vec<StoredFace>,
    user_dirs: Vec<u32>,
}

impl FaceStorage {
    /// The stored entries, in store order.
    pub closed spec fn faces(&self) -> Seq<StoredFace> {
        self.entries@
    }

    /// The identities whose namespace directory exists.
    pub closed spec fn dirs(&self) -> Seq<u32> {
        self.user_dirs@
    }

    pub open spec fn wf(&self) -> bool {
        store_inv(self.faces(), self.dirs())
    }

    pub open spec fn has_face(&self, uid: u32, fid: Seq<char>) -> bool {
        has_key(self.faces(), uid, fid)
    }

    pub open spec fn stored_record(&self, uid: u32, fid: Seq<char>) -> FaceRecord {
        rec_at(self.faces(), uid, fid)
    }

    pub open spec fn stored_embedding(&self, uid: u32, fid: Seq<char>) -> Embedding {
        emb_at(self.faces(), uid, fid)
    }

    /// The embedding vector a key is bound to, if any: what
    /// `load_face_embedding` is owed.
    pub open spec fn lookup_vector(&self, uid: u32, fid: Seq<char>) -> Option<Seq<i64>> {
        if self.has_face(uid, fid) {
            Some(self.stored_embedding(uid, fid).vector@)
        } else {
            None
        }
    }

    /// A fresh, empty store.
    pub fn new() -> (r: Self)
        ensures
            r.wf(),
            r.faces().len() == 0,
            r.dirs().len() == 0,
    {
        FaceStorage { entries: Vec::new(), user_dirs: Vec::new() }
    }

    /// Position of the entry with this key, if any.
    fn find_index(&self, user_id: u32, face_id: &str) -> (r: Option<usize>)
        requires
            self.wf(),
        ensures
            match r {
                Some(i) => 0 <= i < self.faces().len() && key_is(
                    self.faces()[i as int],
                    user_id,
                    face_id@,
                ) && self.has_face(user_id, face_id@) && key_index(self.faces(), user_id, face_id@)
                    == i,
                None => !self.has_face(user_id, face_id@),
            },
    {
        let n = self.entries.len();
        let mut i: usize = 0;
        while i < n
            invariant
                0 <= i <= n,
                n == self.faces().len(),
                self.wf(),
                forall|j: int| 0 <= j < i ==> !key_is(#[trigger] self.faces()[j], user_id, face_id@),
            decreases n - i,
        {
            if self.entries[i].record.user_id == user_id && str_eq(
                self.entries[i].record.face_id.as_str(),
                face_id,
            ) {
                proof {
                    lemma_key_index_of(self.faces(), user_id, face_id@, i as int);
                }
                return Some(i);
            }
            i = i + 1;
        }
        proof {
            if self.has_face(user_id, face_id@) {
                let k = key_index(self.faces(), user_id, face_id@);
                assert(0 <= k < n && key_is(self.faces()[k], user_id, face_id@));
            }
        }
        None
    }

    /// Load the embedding stored under a key; an unsafe face id is
    /// rejected with an access-denied error, an absent one with
    /// face-not-found.
    pub fn load_face_embedding(&self, user_id: u32, face_id: &str) -> (r: Result<
        Embedding,
        DaemonError,
    >)
        requires
            self.wf(),
        ensures
            !face_id_safe(face_id@) ==> r matches Err(DaemonError::AccessDenied(_)),
            face_id_safe(face_id@) && self.has_face(user_id, face_id@) ==> (r matches Ok(e)
                && Some(e.vector@) == self.lookup_vector(user_id, face_id@) && e.metadata
                == self.stored_embedding(user_id, face_id@).metadata && e.wf()),
            face_id_safe(face_id@) && !self.has_face(user_id, face_id@) ==> r matches Err(
                DaemonError::FaceNotFound(_),
            ),
    {
        if !face_id_is_safe(face_id) {
            let mut m = String::from_str("face_id invalide: ");
            m.append(face_id);
            return Err(DaemonError::AccessDenied(m));
        }
        match self.find_index(user_id, face_id) {
            Some(i) => Ok(self.entries[i].embedding.clone()),
            None => Err(DaemonError::FaceNotFound(String::from_str(face_id))),
        }
    }

    /// Every record of exactly this identity, in store order.
    ///
    /// Records of other identities are never returned, independent of
    /// any permission check above this layer.
    pub fn list_user_faces(&self, user_id: u32) -> (r: Result<Vec<FaceRecord>, DaemonError>)
        requires
            self.wf(),
        ensures
            r matches Ok(v) && list_post(self.faces(), user_id, v@),
    {
        let n = self.entries.len();
        let mut out: Vec<FaceRecord> = Vec::new();
        let mut i: usize = 0;
        while i < n
            invariant
                0 <= i <= n,
                n == self.faces().len(),
                self.wf(),
                forall|k: int|
                    0 <= k < out@.len() ==> (#[trigger] out@[k]).user_id == user_id && has_key(
                        self.faces(),
                        user_id,
                        out@[k].face_id@,
                    ) && rec_at(self.faces(), user_id, out@[k].face_id@) == out@[k],
                forall|j: int|
                    0 <= j < i && (#[trigger] self.faces()[j]).record.user_id == user_id ==> exists|
                        k: int,
                    | 0 <= k < out@.len() && #[trigger] out@[k] == self.faces()[j].record,
                forall|k: int|
                    0 <= k < out@.len() ==> exists|j: int|
                        0 <= j < i && #[trigger] out@[k] == (#[trigger] self.faces()[j]).record,
                forall|k1: int, k2: int|
                    #![trigger out@[k1].face_id@, out@[k2].face_id@]
                    0 <= k1 < k2 < out@.len() ==> out@[k1].face_id@ != out@[k2].face_id@,
            decreases n - i,
        {
            let ghost out0 = out@;
            if self.entries[i].record.user_id == user_id {
                proof {
                    lemma_key_index_of(
                        self.faces(),
                        user_id,
                        self.faces()[i as int].record.face_id@,
                        i as int,
                    );
                }
                out.push(self.entries[i].record.clone());
                proof {
                    assert(out@[out@.len() - 1] == self.faces()[i as int].record);
                    assert forall|k1: int, k2: int|
                        #![trigger out@[k1].face_id@, out@[k2].face_id@]
                        0 <= k1 < k2 < out@.len() implies out@[k1].face_id@
                        != out@[k2].face_id@ by {
                        if k2 == out@.len() - 1 {
                            // the earlier entry came from an earlier store
                            // index; two indices holding the same key would
                            // break the store's uniqueness
                            let j = choose|j: int|
                                0 <= j < i && #[trigger] out0[k1] == (#[trigger] self.faces()[j]).record;
                            assert(out@[k1] == self.faces()[j].record);
                            if out@[k1].face_id@ == out@[k2].face_id@ {
                                assert(key_is(
                                    self.faces()[j],
                                    self.faces()[i as int].record.user_id,
                                    self.faces()[i as int].record.face_id@,
                                ));
                            }
                        } else {
                            assert(out0[k1].face_id@ != out0[k2].face_id@);
                        }
                    }
                    assert forall|k: int| 0 <= k < out@.len() implies exists|j: int|
                        0 <= j < i + 1 && #[trigger] out@[k] == (#[trigger] self.faces()[j]).record by {
                        if k < out@.len() - 1 {
                            let j = choose|j: int|
                                0 <= j < i && #[trigger] out0[k] == (#[trigger] self.faces()[j]).record;
                            assert(out@[k] == self.faces()[j].record);
                        } else {
                            assert(out@[k] == self.faces()[i as int].record);
                        }
                    }
                }
            }
            proof {
                assert forall|j: int|
                    0 <= j < i + 1 && (#[trigger] self.faces()[j]).record.user_id
                        == user_id implies exists|k: int|
                    0 <= k < out@.len() && #[trigger] out@[k] == self.faces()[j].record by {
                    if j < i {
                        let k = choose|k: int|
                            0 <= k < out0.len() && #[trigger] out0[k] == self.faces()[j].record;
                        assert(out@[k] == self.faces()[j].record);
                    } else {
                        assert(out@[out@.len() - 1] == self.faces()[j].record);
                    }
                }
            }
            i = i + 1;
        }
        Ok(out)
    }

    /// Delete the record under a key. Deleting an absent face id is a
    /// no-op success and leaves the store unchanged; an unsafe face id
    /// is rejected with an access-denied error.
    pub fn delete_face(&mut self, user_id: u32, face_id: &str) -> (r: Result<(), DaemonError>)
        requires
            old(self).wf(),
        ensures
            final(self).wf(),
            !face_id_safe(face_id@) ==> (r matches Err(DaemonError::AccessDenied(_))
                && final(self).faces() == old(self).faces() && final(self).dirs() == old(
                self,
            ).dirs()),
            face_id_safe(face_id@) ==> r is Ok && delete_effect(
                *old(self),
                *final(self),
                user_id,
                face_id@,
            ),
    {
        if !face_id_is_safe(face_id) {
            let mut m = String::from_str("face_id invalide: ");
            m.append(face_id);
            return Err(DaemonError::AccessDenied(m));
        }
        match self.find_index(user_id, face_id) {
            Some(i) => {
                proof {
                    lemma_remove_entry(self.faces(), i as int);
                    self.faces().remove_ensures(i as int);
                }
                let _ = self.entries.remove(i);
                proof {
                    assert forall|k: int| 0 <= k < self.faces().len() implies self.dirs().contains(
                        (#[trigger] self.faces()[k]).record.user_id,
                    ) && face_id_safe(self.faces()[k].record.face_id@) && self.faces()[k].record.wf()
                        && self.faces()[k].embedding.wf() by {
                        let k0 = if k < i { k } else { k + 1 };
                        assert(self.faces()[k] == old(self).faces()[k0]);
                    }
                }
                Ok(())
            },
            None => Ok(()),
        }
    }

    /// Delete every record of an identity and its namespace directory.
    /// Records and namespaces of other identities are untouched.
    pub fn delete_all_faces(&mut self, user_id: u32) -> (r: Result<(), DaemonError>)
        requires
            old(self).wf(),
        ensures
            final(self).wf(),
            r is Ok,
            forall|fid: Seq<char>| !#[trigger] final(self).has_face(user_id, fid),
            forall|uid2: u32, fid2: Seq<char>|
                uid2 != user_id ==> #[trigger] final(self).has_face(uid2, fid2) == old(
                    self,
                ).has_face(uid2, fid2),
            forall|uid2: u32, fid2: Seq<char>|
                uid2 != user_id && old(self).has_face(uid2, fid2)
                    ==> #[trigger] final(self).stored_record(uid2, fid2) == old(self).stored_record(
                    uid2,
                    fid2,
                ) && final(self).stored_embedding(uid2, fid2) == old(self).stored_embedding(
                    uid2,
                    fid2,
                ),
            forall|u: u32|
                #[trigger] final(self).dirs().contains(u) <==> (old(self).dirs().contains(u) && u
                    != user_id),
    {
        let mut i: usize = 0;
        while i < self.entries.len()
            invariant
                0 <= i <= self.faces().len(),
                self.wf(),
                self.dirs() == old(self).dirs(),
                forall|j: int| 0 <= j < i ==> (#[trigger] self.faces()[j]).record.user_id != user_id,
                forall|uid2: u32, fid2: Seq<char>|
                    uid2 != user_id ==> #[trigger] self.has_face(uid2, fid2) == old(self).has_face(
                        uid2,
                        fid2,
                    ),
                forall|uid2: u32, fid2: Seq<char>|
                    uid2 != user_id && old(self).has_face(uid2, fid2) ==> #[trigger] self.stored_record(
                        uid2,
                        fid2,
                    ) == old(self).stored_record(uid2, fid2) && self.stored_embedding(uid2, fid2)
                        == old(self).stored_embedding(uid2, fid2),
            decreases self.faces().len() - i,
        {
            if self.entries[i].record.user_id == user_id {
                proof {
                    lemma_remove_entry(self.faces(), i as int);
                    self.faces().remove_ensures(i as int);
                }
                let ghost mid = *self;
                let _ = self.entries.remove(i);
                proof {
                    let ghost rkey_uid = mid.faces()[i as int].record.user_id;
                    let ghost rkey_fid = mid.faces()[i as int].record.face_id@;
                    assert(self.faces() == mid.faces().remove(i as int));
                    assert forall|k: int| 0 <= k < self.faces().len() implies self.dirs().contains(
                        (#[trigger] self.faces()[k]).record.user_id,
                    ) && face_id_safe(self.faces()[k].record.face_id@) && self.faces()[k].record.wf()
                        && self.faces()[k].embedding.wf() by {
                        let k0 = if k < i { k } else { k + 1 };
                        assert(self.faces()[k] == mid.faces()[k0]);
                    }
                    assert forall|j: int| 0 <= j < i implies (#[trigger] self.faces()[j]).record.user_id
                        != user_id by {
                        assert(self.faces()[j] == mid.faces()[j]);
                    }
                    assert forall|uid2: u32, fid2: Seq<char>| uid2 != user_id implies #[trigger]
                        self.has_face(uid2, fid2) == old(self).has_face(uid2, fid2) by {
                        assert(!(uid2 == rkey_uid && fid2 == rkey_fid));
                        assert(has_key(mid.faces().remove(i as int), uid2, fid2) == has_key(
                            mid.faces(),
                            uid2,
                            fid2,
                        ));
                        assert(mid.has_face(uid2, fid2) == old(self).has_face(uid2, fid2));
                    }
                    assert forall|uid2: u32, fid2: Seq<char>|
                        uid2 != user_id && old(self).has_face(uid2, fid2) implies #[trigger]
                        self.stored_record(uid2, fid2) == old(self).stored_record(uid2, fid2)
                        && self.stored_embedding(uid2, fid2) == old(self).stored_embedding(
                        uid2,
                        fid2,
                    ) by {
                        assert(!(uid2 == rkey_uid && fid2 == rkey_fid));
                        assert(mid.has_face(uid2, fid2) == old(self).has_face(uid2, fid2));
                        assert(mid.stored_record(uid2, fid2) == old(self).stored_record(uid2, fid2)
                            && mid.stored_embedding(uid2, fid2) == old(self).stored_embedding(
                            uid2,
                            fid2,
                        ));
                        assert(rec_at(mid.faces().remove(i as int), uid2, fid2) == rec_at(
                            mid.faces(),
                            uid2,
                            fid2,
                        ) && emb_at(mid.faces().remove(i as int), uid2, fid2) == emb_at(
                            mid.faces(),
                            uid2,
                            fid2,
                        ));
                    }
                }
            } else {
                i = i + 1;
            }
        }
        let ghost pre_dir = *self;
        self.remove_dir(user_id);
        proof {
            assert(self.faces() == pre_dir.faces());
            assert forall|fid: Seq<char>| !#[trigger] self.has_face(user_id, fid) by {
                if self.has_face(user_id, fid) {
                    let k = key_index(self.faces(), user_id, fid);
                    assert(key_is(self.faces()[k], user_id, fid));
                    assert(pre_dir.faces()[k].record.user_id != user_id);
                }
            }
            assert forall|uid2: u32, fid2: Seq<char>| uid2 != user_id implies #[trigger]
                self.has_face(uid2, fid2) == old(self).has_face(uid2, fid2) by {
                assert(pre_dir.has_face(uid2, fid2) == old(self).has_face(uid2, fid2));
            }
            assert forall|uid2: u32, fid2: Seq<char>|
                uid2 != user_id && old(self).has_face(uid2, fid2) implies #[trigger]
                self.stored_record(uid2, fid2) == old(self).stored_record(uid2, fid2)
                && self.stored_embedding(uid2, fid2) == old(self).stored_embedding(
                uid2,
                fid2,
            ) by {
                assert(pre_dir.has_face(uid2, fid2) == old(self).has_face(uid2, fid2));
                assert(pre_dir.stored_record(uid2, fid2) == old(self).stored_record(uid2, fid2)
                    && pre_dir.stored_embedding(uid2, fid2) == old(self).stored_embedding(
                    uid2,
                    fid2,
                ));
            }
        }
        Ok(())
    }

    /// Remove an identity's namespace directory, if it exists.
    fn remove_dir(&mut self, user_id: u32)
        requires
            forall|i: int, j: int|
                #![trigger old(self).dirs()[i], old(self).dirs()[j]]
                0 <= i < j < old(self).dirs().len() ==> old(self).dirs()[i] != old(self).dirs()[j],
        ensures
            final(self).faces() == old(self).faces(),
            forall|i: int, j: int|
                #![trigger final(self).dirs()[i], final(self).dirs()[j]]
                0 <= i < j < final(self).dirs().len() ==> final(self).dirs()[i]
                    != final(self).dirs()[j],
            forall|u: u32|
                #[trigger] final(self).dirs().contains(u) <==> (old(self).dirs().contains(u) && u
                    != user_id),
    {
        let n = self.user_dirs.len();
        let mut i: usize = 0;
        while i < n
            invariant
                0 <= i <= n,
                n == self.dirs().len(),
                *self == *old(self),
                forall|j: int| 0 <= j < i ==> self.dirs()[j] != user_id,
                forall|a: int, b: int|
                    #![trigger old(self).dirs()[a], old(self).dirs()[b]]
                    0 <= a < b < old(self).dirs().len() ==> old(self).dirs()[a] != old(
                        self,
                    ).dirs()[b],
            decreases n - i,
        {
            if self.user_dirs[i] == user_id {
                proof {
                    self.dirs().remove_ensures(i as int);
                }
                let _ = self.user_dirs.remove(i);
                proof {
                    assert(self.dirs() == old(self).dirs().remove(i as int));
                    assert(old(self).dirs()[i as int] == user_id);
                    assert forall|u: u32| #[trigger]
                        self.dirs().contains(u) <==> (old(self).dirs().contains(u) && u
                            != user_id) by {
                        if self.dirs().contains(u) {
                            let k = choose|k: int|
                                0 <= k < self.dirs().len() && self.dirs()[k] == u;
                            let k0 = if k < i { k } else { k + 1 };
                            assert(self.dirs()[k] == old(self).dirs()[k0]);
                            assert(old(self).dirs()[k0] == u);
                            assert(old(self).dirs().contains(u));
                            assert(k0 != i);
                            if u == user_id {
                                assert(old(self).dirs()[k0] != old(self).dirs()[i as int]);
                                assert(false);
                            }
                        }
                        if old(self).dirs().contains(u) && u != user_id {
                            let k0 = choose|k0: int|
                                0 <= k0 < old(self).dirs().len() && old(self).dirs()[k0] == u;
                            let k = if k0 < i { k0 } else { k0 - 1 };
                            assert(k0 != i);
                            assert(self.dirs()[k] == old(self).dirs()[k0]);
                            assert(self.dirs().contains(u));
                        }
                    }
                    assert forall|a: int, b: int| 0 <= a < b < self.dirs().len() implies #[trigger]
                        self.dirs()[a] != #[trigger] self.dirs()[b] by {
                        let a0 = if a < i { a } else { a + 1 };
                        let b0 = if b < i { b } else { b + 1 };
                        assert(self.dirs()[a] == old(self).dirs()[a0]);
                        assert(self.dirs()[b] == old(self).dirs()[b0]);
                    }
                }
                return ;
            }
            i = i + 1;
        }
        proof {
            assert forall|u: u32| #[trigger]
                self.dirs().contains(u) <==> (old(self).dirs().contains(u) && u != user_id) by {
                if self.dirs().contains(u) && u == user_id {
                    let k = choose|k: int| 0 <= k < self.dirs().len() && self.dirs()[k] == u;
                }
            }
        }
    }

    /// Whether the namespace directory of an identity exists.
    fn contains_dir(&self, user_id: u32) -> (r: bool)
        ensures
            r == self.dirs().contains(user_id),
    {
        let n = self.user_dirs.len();
        let mut i: usize = 0;
        while i < n
            invariant
                0 <= i <= n,
                n == self.dirs().len(),
                forall|j: int| 0 <= j < i ==> self.dirs()[j] != user_id,
            decreases n - i,
        {
            if self.user_dirs[i] == user_id {
                return true;
            }
            i = i + 1;
        }
        false
    }

    /// Persist one enrolled face, replacing any record under the same
    /// key; a face id that is not path-safe is rejected with an
    /// access-denied error and the store stays unchanged.
    pub fn save_face(&mut self, record: &FaceRecord, embedding: &Embedding) -> (r: Result<
        (),
        DaemonError,
    >)
        requires
            old(self).wf(),
            record.wf(),
            embedding.wf(),
        ensures
            final(self).wf(),
            !face_id_safe(record.face_id@) ==> (r matches Err(DaemonError::AccessDenied(_))
                && final(self).faces() == old(self).faces() && final(self).dirs() == old(
                self,
            ).dirs()),
            face_id_safe(record.face_id@) ==> r is Ok && save_effect(
                *old(self),
                *final(self),
                *record,
                *embedding,
            ),
    {
        if !face_id_is_safe(record.face_id.as_str()) {
            let mut m = String::from_str("face_id invalide: ");
            m.append(record.face_id.as_str());
            return Err(DaemonError::AccessDenied(m));
        }
        self.ensure_user_dir(record.user_id);
        let ghost mid = *self;
        let entry = StoredFace { record: record.clone(), embedding: embedding.clone() };
        proof {
            assert(key_is(entry, record.user_id, record.face_id@));
        }
        match self.find_index(record.user_id, record.face_id.as_str()) {
            Some(i) => {
                proof {
                    lemma_update_entry(mid.faces(), i as int, entry);
                }
                self.entries[i] = entry;
            },
            None => {
                proof {
                    lemma_push_entry(mid.faces(), entry);
                }
                self.entries.push(entry);
            },
        }
        proof {
            assert forall|k: int| 0 <= k < self.faces().len() implies self.dirs().contains(
                (#[trigger] self.faces()[k]).record.user_id,
            ) by {
                if self.faces()[k] != entry {
                    assert(exists|k0: int|
                        0 <= k0 < mid.faces().len() && #[trigger] mid.faces()[k0]
                            == self.faces()[k]) by {
                        if k < mid.faces().len() && mid.faces()[k] == self.faces()[k] {
                        }
                    }
                }
            }
        }
        Ok(())
    }

    /// Create an identity's namespace lazily and idempotently.
    fn ensure_user_dir(&mut self, user_id: u32)
        ensures
            final(self).faces() == old(self).faces(),
            final(self).dirs() == if old(self).dirs().contains(user_id) {
                old(self).dirs()
            } else {
                old(self).dirs().push(user_id)
            },
            final(self).dirs().contains(user_id),
            forall|u: u32|
                #[trigger] final(self).dirs().contains(u) <==> (old(self).dirs().contains(u) || u
                    == user_id),
    {
        if !self.contains_dir(user_id) {
            self.user_dirs.push(user_id);
            proof {
                assert forall|u: u32| #[trigger]
                    self.dirs().contains(u) <==> (old(self).dirs().contains(u) || u
                        == user_id) by {
                    if old(self).dirs().contains(u) {
                        let j = choose|j: int|
                            0 <= j < old(self).dirs().len() && old(self).dirs()[j] == u;
                        assert(self.dirs()[j] == u);
                    }
                    if u == user_id {
                        assert(self.dirs()[old(self).dirs().len() as int] == u);
                    }
                    if self.dirs().contains(u) {
                        let j = choose|j: int|
                            0 <= j < self.dirs().len() && self.dirs()[j] == u;
                        if j < old(self).dirs().len() {
                            assert(old(self).dirs()[j] == u);
                        }
                    }
                }
            }
        }
    }
}

} // verus!
