//! Path-traversal-proof addressing for the record store.
//!
//! Every on-disk name is derived from an identity or a face id; a face
//! id may not contain path separators or a parent-directory sequence, so
//! that every derived path stays strictly inside the identity's
//! namespace directory.

use vstd::prelude::*;
use vstd::string::StrSliceExecFns;
use vstd::string::StringExecFns;
use crate::text::{dec_digits, u64_to_dec};

verus! {

/// A face id is safe to use in a file name: non-empty, free of `/` and
/// `\`, and free of any `..` sequence.
pub open spec fn face_id_safe(s: Seq<char>) -> bool {
    &&& s.len() > 0
    &&& forall|i: int| 0 <= i < s.len() ==> #[trigger] s[i] != '/' && s[i] != '\\'
    &&& forall|i: int| 0 <= i && i + 1 < s.len() ==> !(#[trigger] s[i] == '.' && s[i + 1] == '.')
}

/// Decide `face_id_safe`.
pub fn face_id_is_safe(s: &str) -> (r: bool)
    ensures
        r == face_id_safe(s@),
{
    let n = s.unicode_len();
    if n == 0 {
        return false;
    }
    let mut i: usize = 0;
    let mut prev_dot: bool = false;
    while i < n
        invariant
            0 <= i <= n,
            n == s@.len(),
            prev_dot == (i > 0 && s@[i as int - 1] == '.'),
            forall|j: int| 0 <= j < i ==> #[trigger] s@[j] != '/' && s@[j] != '\\',
            forall|j: int| 0 <= j && j + 1 < i ==> !(#[trigger] s@[j] == '.' && s@[j + 1] == '.'),
        decreases n - i,
    {
        let c = s.get_char(i);
        if c == '/' || c == '\\' {
            return false;
        }
        if prev_dot && c == '.' {
            return false;
        }
        prev_dot = c == '.';
        i = i + 1;
    }
    true
}

/// The namespace directory of an identity, relative to the store root.
pub fn user_dir_name(user_id: u32) -> (r: String)
    ensures
        r@ == "users/"@ + dec_digits(user_id as nat),
{
    let mut s = String::from_str("users/");
    let d = u64_to_dec(user_id as u64);
    s.append(d.as_str());
    s
}

/// The metadata file of a face record, relative to its namespace
/// directory.
pub fn meta_file_name(face_id: &str) -> (r: String)
    ensures
        r@ == face_id@ + ".meta.json"@,
{
    let mut s = String::from_str(face_id);
    s.append(".meta.json");
    s
}

/// The embedding file of a face record, relative to its namespace
/// directory.
pub fn embedding_file_name(face_id: &str) -> (r: String)
    ensures
        r@ == face_id@ + ".embedding.json"@,
{
    let mut s = String::from_str(face_id);
    s.append(".embedding.json");
    s
}

} // verus!
