//! The matcher: deterministic, pure scoring of one probe embedding
//! against a set of candidate face records.
//!
//! Every candidate is scored with the fixed-point cosine metric; the
//! maximum wins, and equal top scores are broken toward the
//! lexicographically smallest face id, so the outcome is a pure function
//! of the inputs.

use vstd::prelude::*;
use crate::embedding::Embedding;
use crate::score::score_valid;
use crate::similarity::{cosine_similarity_ppm, sim_spec};
use crate::text::{
    lemma_lex_asymmetric, lemma_lex_irreflexive, lemma_lex_transitive, lex_le, lex_lt, str_lex_lt,
};

verus! {

/// Similarity of the probe against candidate `i`.
pub open spec fn cand_sim(probe: Seq<i64>, cands: Seq<(String, Embedding)>, i: int) -> int {
    sim_spec(probe, cands[i].1.vector@)
}

/// Greatest similarity among the first `n` candidates; 0 when there are
/// none.
pub open spec fn max_sim(probe: Seq<i64>, cands: Seq<(String, Embedding)>, n: int) -> int
    decreases n,
{
    if n <= 0 {
        0
    } else if cand_sim(probe, cands, n - 1) > max_sim(probe, cands, n - 1) {
        cand_sim(probe, cands, n - 1)
    } else {
        max_sim(probe, cands, n - 1)
    }
}

pub proof fn lemma_max_sim_ge(probe: Seq<i64>, cands: Seq<(String, Embedding)>, j: int, n: int)
    requires
        0 <= j < n,
    ensures
        cand_sim(probe, cands, j) <= max_sim(probe, cands, n),
    decreases n,
{
    if j < n - 1 {
        lemma_max_sim_ge(probe, cands, j, n - 1);
    }
}

/// `id` names a candidate whose similarity is the maximum, and no other
/// candidate at the maximum has a lexicographically smaller face id.
pub open spec fn is_chosen_id(
    probe: Seq<i64>,
    cands: Seq<(String, Embedding)>,
    id: Seq<char>,
) -> bool {
    let n = cands.len() as int;
    &&& exists|i: int|
        0 <= i < n && (#[trigger] cands[i]).0@ == id && cand_sim(probe, cands, i) == max_sim(
            probe,
            cands,
            n,
        )
    &&& forall|j: int|
        0 <= j < n && cand_sim(probe, cands, j) == max_sim(probe, cands, n) ==> lex_le(
            id,
            (#[trigger] cands[j]).0@,
        )
}

/// Outcome of one matching run: whether the probe matched, which face id
/// won, the best similarity seen and the threshold that was applied.
/// Derived, never persisted.
pub struct MatchResult {
    pub matched: bool,
    pub face_id: Option<String>,
    pub best_score_ppm: i64,
    pub threshold_ppm: i64,
}

/// Compares a probe embedding against stored candidates under a fixed
/// similarity threshold.
pub struct FaceMatcher {
    /// Similarity a candidate must reach, in ppm of 1.0.
    pub threshold_ppm: i64,
}

impl FaceMatcher {
    pub fn new(threshold_ppm: i64) -> (r: Self)
        requires
            score_valid(threshold_ppm),
        ensures
            r.threshold_ppm == threshold_ppm,
    {
        FaceMatcher { threshold_ppm }
    }

    /// Score the probe against every candidate and pick the best.
    ///
    /// The result is matched exactly when some candidate reaches the
    /// threshold; the winner is the candidate with the greatest
    /// similarity, ties broken toward the lexicographically smallest
    /// face id; the best score reported is the true maximum over the
    /// set, 0 for an empty set.
    pub fn match_embedding(&self, probe: &Embedding, candidates: &Vec<(String, Embedding)>) -> (r:
        MatchResult)
        requires
            probe.wf(),
            forall|i: int|
                0 <= i < candidates@.len() ==> (#[trigger] candidates@[i]).1.wf(),
        ensures
            r.threshold_ppm == self.threshold_ppm,
            r.best_score_ppm == max_sim(probe.vector@, candidates@, candidates@.len() as int),
            score_valid(r.best_score_ppm),
            r.matched == (candidates@.len() > 0 && r.best_score_ppm >= self.threshold_ppm),
            r.matched ==> (r.face_id matches Some(id) && is_chosen_id(
                probe.vector@,
                candidates@,
                id@,
            )),
            !r.matched ==> r.face_id is None,
    {
        let n = candidates.len();
        let mut best_score: i64 = 0;
        let mut best_idx: usize = 0;
        let mut i: usize = 0;
        while i < n
            invariant
                0 <= i <= n,
                n == candidates@.len(),
                probe.wf(),
                forall|k: int| 0 <= k < n ==> (#[trigger] candidates@[k]).1.wf(),
                best_score == max_sim(probe.vector@, candidates@, i as int),
                score_valid(best_score),
                i > 0 ==> best_idx < i && cand_sim(probe.vector@, candidates@, best_idx as int)
                    == best_score,
                i > 0 ==> forall|j: int|
                    0 <= j < i && cand_sim(probe.vector@, candidates@, j) == best_score ==> lex_le(
                        candidates@[best_idx as int].0@,
                        (#[trigger] candidates@[j]).0@,
                    ),
            decreases n - i,
        {
            let s = cosine_similarity_ppm(&probe.vector, &candidates[i].1.vector);
            if i == 0 || s > best_score {
                proof {
                    lemma_lex_irreflexive(candidates@[i as int].0@);
                    assert forall|j: int| 0 <= j < i implies cand_sim(
                        probe.vector@,
                        candidates@,
                        j,
                    ) <= max_sim(probe.vector@, candidates@, i as int) by {
                        lemma_max_sim_ge(probe.vector@, candidates@, j, i as int);
                    }
                }
                best_score = s;
                best_idx = i;
            } else if s == best_score && str_lex_lt(
                candidates[i].0.as_str(),
                candidates[best_idx].0.as_str(),
            ) {
                proof {
                    let old_best = candidates@[best_idx as int].0@;
                    let new_best = candidates@[i as int].0@;
                    lemma_lex_irreflexive(new_best);
                    lemma_lex_asymmetric(new_best, old_best);
                    assert forall|j: int|
                        0 <= j < i && cand_sim(probe.vector@, candidates@, j)
                            == best_score implies lex_le(
                        new_best,
                        (#[trigger] candidates@[j]).0@,
                    ) by {
                        let idj = candidates@[j].0@;
                        if lex_lt(idj, new_best) {
                            lemma_lex_transitive(idj, new_best, old_best);
                        }
                    }
                }
                best_idx = i;
            } else {
                proof {
                    if s == best_score {
                        lemma_lex_irreflexive(candidates@[best_idx as int].0@);
                    }
                }
            }
            i = i + 1;
        }
        let matched = n > 0 && best_score >= self.threshold_ppm;
        let face_id: Option<String> = if matched {
            Some(candidates[best_idx].0.clone())
        } else {
            None
        };
        MatchResult { matched, face_id, best_score_ppm: best_score, threshold_ppm: self.threshold_ppm }
    }
}

} // verus!
