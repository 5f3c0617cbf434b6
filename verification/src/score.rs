//! Fixed-point scores.
//!
//! Similarity scores, quality scores and thresholds all live in `[0, 1]`;
//! they are carried as integers in parts per million, so `1_000_000`
//! stands for `1.0` and `600_000` for `0.6`.

use vstd::prelude::*;
use vstd::string::StringExecFns;

verus! {

/// One million parts per million: the fixed-point representation of `1.0`.
pub const SCALE_PPM: i64 = 1_000_000;

/// A well-formed score lies between `0.0` and `1.0` inclusive.
pub open spec fn score_valid(s: i64) -> bool {
    0 <= s <= SCALE_PPM
}

/// Decimal text of a score with two fraction digits, truncated
/// (`870_000` renders as `0.87`).
pub open spec fn score2_text(s: i64) -> Seq<char> {
    crate::text::dec_digits((s / SCALE_PPM) as nat) + seq!['.'] + crate::text::fixed_digits(
        ((s % SCALE_PPM) / 10_000) as nat,
        2,
    )
}

/// Decimal text of a score with all six fraction digits
/// (`870_000` renders as `0.870000`).
pub open spec fn score6_text(s: i64) -> Seq<char> {
    crate::text::dec_digits((s / SCALE_PPM) as nat) + seq!['.'] + crate::text::fixed_digits(
        (s % SCALE_PPM) as nat,
        6,
    )
}

/// Render a score with two fraction digits, truncated.
pub fn format_score2(s: i64) -> (r: String)
    requires
        score_valid(s),
    ensures
        r@ == score2_text(s),
{
    let su: u64 = s as u64;
    let mut out = crate::text::u64_to_dec(su / 1_000_000);
    proof {
        reveal_strlit(".");
    }
    out.append(".");
    let frac = crate::text::u64_to_dec_fixed((su % 1_000_000) / 10_000, 2);
    out.append(frac.as_str());
    proof {
        assert(out@ =~= score2_text(s));
    }
    out
}

/// Render a score with six fraction digits.
pub fn format_score6(s: i64) -> (r: String)
    requires
        score_valid(s),
    ensures
        r@ == score6_text(s),
{
    let su: u64 = s as u64;
    let mut out = crate::text::u64_to_dec(su / 1_000_000);
    proof {
        reveal_strlit(".");
    }
    out.append(".");
    let frac = crate::text::u64_to_dec_fixed(su % 1_000_000, 6);
    out.append(frac.as_str());
    proof {
        assert(out@ =~= score6_text(s));
    }
    out
}

} // verus!
