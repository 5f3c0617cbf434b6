//! The wire format of the privilege bridge and the service API.
//!
//! Messages travel as UTF-8 JSON text with a fixed, canonical shape:
//! keys in a fixed order, no whitespace, scores with six decimals, and
//! an explicit tag on every response variant, so that a success can
//! never parse as a failure. String payloads are plain text — no quote,
//! no backslash, no control character; a sender refuses anything else
//! instead of escaping it, and a receiver rejects any message that is
//! not in canonical shape. Parsing a message the encoder produced gives
//! back exactly the values that went in, and whatever a parser accepts
//! is the canonical text of what it returns.

use vstd::prelude::*;
use vstd::string::StrSliceExecFns;
use vstd::string::StringExecFns;
use crate::records::{
    DaemonError, DeleteFaceRequest, FaceRecord, PamHelperRequest, PamHelperResponse,
    RegisterFaceRequest, RegisterFaceResponse, VerifyRequest, VerifyResult,
};
use crate::score::{score_valid, score6_text, format_score6};
use crate::text::{
    dec_digits, dec_value, digit_run_end, digit_val, fixed_digits, is_dec_digit,
    lemma_dec_canonical, lemma_dec_digits_shape, lemma_dec_value_extend, lemma_digit_run,
    lemma_fixed_value, lemma_run_end_of, pow10, u64_to_dec,
};

verus! {

/// A character a wire string payload may carry.
pub open spec fn plain_char(c: char) -> bool {
    c != '"' && c != '\\' && (c as u32) >= 32
}

/// A wire string payload: every character plain.
pub open spec fn plain(w: Seq<char>) -> bool {
    forall|i: int| 0 <= i < w.len() ==> plain_char(#[trigger] w[i])
}

/// A quoted string payload.
pub open spec fn jstr(w: Seq<char>) -> Seq<char> {
    seq!['"'] + w + seq!['"']
}

/// Decide `plain` on a string slice.
pub fn is_plain_str(s: &str) -> (r: bool)
    ensures
        r == plain(s@),
{
    let n = s.unicode_len();
    let mut i: usize = 0;
    while i < n
        invariant
            0 <= i <= n,
            n == s@.len(),
            forall|j: int| 0 <= j < i ==> plain_char(#[trigger] s@[j]),
        decreases n - i,
    {
        let c = s.get_char(i);
        if c == '"' || c == '\\' || (c as u32) < 32 {
            return false;
        }
        i = i + 1;
    }
    true
}

/// Decide whether a character is a decimal digit.
pub fn is_digit_char(c: char) -> (r: bool)
    ensures
        r == is_dec_digit(c),
{
    c == '0' || c == '1' || c == '2' || c == '3' || c == '4' || c == '5' || c == '6' || c == '7'
        || c == '8' || c == '9'
}

/// The value of a decimal digit character.
pub fn digit_value(c: char) -> (r: u64)
    requires
        is_dec_digit(c),
    ensures
        r == digit_val(c),
        r < 10,
{
    if c == '0' {
        0
    } else if c == '1' {
        1
    } else if c == '2' {
        2
    } else if c == '3' {
        3
    } else if c == '4' {
        4
    } else if c == '5' {
        5
    } else if c == '6' {
        6
    } else if c == '7' {
        7
    } else if c == '8' {
        8
    } else {
        9
    }
}

/// Match a literal at `pos`; succeeds exactly when it is there.
pub fn parse_lit(s: &str, pos: usize, lit: &str) -> (r: Option<usize>)
    requires
        pos <= s@.len(),
    ensures
        r matches Some(p2) ==> p2 == pos + lit@.len() && p2 <= s@.len() && s@.subrange(
            pos as int,
            p2 as int,
        ) == lit@,
        r is None ==> !(pos + lit@.len() <= s@.len() && s@.subrange(
            pos as int,
            pos + lit@.len(),
        ) == lit@),
    decreases s@.len(),
{
    let sl = s.unicode_len();
    let ll = lit.unicode_len();
    if ll > sl - pos {
        return None;
    }
    let mut i: usize = 0;
    while i < ll
        invariant
            0 <= i <= ll,
            pos + ll <= sl,
            sl == s@.len(),
            ll == lit@.len(),
            forall|j: int| 0 <= j < i ==> s@[pos + j] == lit@[j],
        decreases ll - i,
    {
        if s.get_char(pos + i) != lit.get_char(i) {
            proof {
                if s@.subrange(pos as int, pos + lit@.len()) == lit@ {
                    assert(s@.subrange(pos as int, pos + lit@.len())[i as int] == lit@[i as int]);
                }
            }
            return None;
        }
        i = i + 1;
    }
    proof {
        assert(s@.subrange(pos as int, (pos + ll) as int) =~= lit@);
    }
    Some(pos + ll)
}

/// Where the digit run starting at `pos` ends.
fn digit_run_end_exec(s: &str, pos: usize) -> (e: usize)
    requires
        pos <= s@.len(),
    ensures
        e == digit_run_end(s@, pos as int),
        pos <= e <= s@.len(),
{
    let sl = s.unicode_len();
    let mut i: usize = pos;
    while i < sl
        invariant
            pos <= i <= sl,
            sl == s@.len(),
            digit_run_end(s@, pos as int) == digit_run_end(s@, i as int),
        decreases sl - i,
    {
        if !is_digit_char(s.get_char(i)) {
            return i;
        }
        i = i + 1;
    }
    sl
}

/// Parse a canonical decimal number: a non-empty digit run without a
/// leading zero whose value fits in a `u64`. Succeeds exactly on those,
/// consumes the whole run, and what it consumed is the canonical
/// rendering of the value it returns.
pub fn parse_u64(s: &str, pos: usize) -> (r: Option<(u64, usize)>)
    requires
        pos <= s@.len(),
    ensures
        r is Some <==> (pos < s@.len() && is_dec_digit(s@[pos as int]) && (s@[pos as int] != '0'
            || digit_run_end(s@, pos as int) == pos + 1) && dec_value(
            s@.subrange(pos as int, digit_run_end(s@, pos as int)),
        ) <= u64::MAX),
        r matches Some((n, p2)) ==> p2 == digit_run_end(s@, pos as int) && pos < p2 <= s@.len()
            && s@.subrange(pos as int, p2 as int) == dec_digits(n as nat),
{
    let sl = s.unicode_len();
    proof {
        lemma_digit_run(s@, pos as int);
    }
    if pos >= sl {
        return None;
    }
    let c0 = s.get_char(pos);
    if !is_digit_char(c0) {
        return None;
    }
    let end = digit_run_end_exec(s, pos);
    let ghost run = s@.subrange(pos as int, end as int);
    if c0 == '0' && end > pos + 1 {
        return None;
    }
    let mut acc: u64 = 0;
    let mut i: usize = pos;
    while i < end
        invariant
            pos <= i <= end <= s@.len(),
            end == digit_run_end(s@, pos as int),
            run == s@.subrange(pos as int, end as int),
            forall|j: int| pos <= j < end ==> is_dec_digit(#[trigger] s@[j]),
            acc == dec_value(s@.subrange(pos as int, i as int)),
        decreases end - i,
    {
        let c = s.get_char(i);
        let dv = digit_value(c);
        if acc > (u64::MAX - dv) / 10 {
            proof {
                let pre = s@.subrange(pos as int, i as int + 1);
                assert(pre.drop_last() =~= s@.subrange(pos as int, i as int));
                assert(pre.last() == s@[i as int]);
                assert(dec_value(pre) == acc * 10 + dv);
                assert(acc * 10 + dv > u64::MAX) by (nonlinear_arith)
                    requires
                        acc > (u64::MAX - dv) / 10,
                        dv < 10,
                        0 <= acc,
                ;
                lemma_dec_value_extend(pre, s@.subrange(i as int + 1, end as int));
                assert(pre + s@.subrange(i as int + 1, end as int) =~= run);
                assert(dec_value(run) > u64::MAX);
            }
            return None;
        }
        proof {
            assert(acc * 10 + dv <= u64::MAX) by (nonlinear_arith)
                requires
                    acc <= (u64::MAX - dv) / 10,
                    dv < 10,
                    0 <= acc,
            ;
        }
        acc = acc * 10 + dv;
        proof {
            let pre = s@.subrange(pos as int, i as int + 1);
            assert(pre.drop_last() =~= s@.subrange(pos as int, i as int));
            assert(pre.last() == s@[i as int]);
        }
        i = i + 1;
    }
    proof {
        assert(run == s@.subrange(pos as int, end as int));
        assert(acc == dec_value(run));
        assert(run.len() >= 1);
        assert(run[0] == s@[pos as int]);
        assert(forall|k: int| 0 <= k < run.len() ==> is_dec_digit(#[trigger] run[k]));
        lemma_dec_canonical(run);
    }
    Some((acc, end))
}

/// Parse exactly six digits as a zero-padded number. Succeeds exactly
/// when six digits are there.
pub fn parse_fixed6(s: &str, pos: usize) -> (r: Option<(u64, usize)>)
    requires
        pos <= s@.len(),
    ensures
        r is Some <==> (pos + 6 <= s@.len() && forall|j: int|
            pos <= j < pos + 6 ==> is_dec_digit(#[trigger] s@[j])),
        r matches Some((n, p2)) ==> p2 == pos + 6 && n < 1_000_000 && s@.subrange(
            pos as int,
            p2 as int,
        ) == fixed_digits(n as nat, 6),
{
    let sl = s.unicode_len();
    if 6 > sl - pos {
        return None;
    }
    let mut acc: u64 = 0;
    let mut i: usize = pos;
    while i < pos + 6
        invariant
            pos <= i <= pos + 6 <= s@.len(),
            sl == s@.len(),
            forall|j: int| pos <= j < i ==> is_dec_digit(#[trigger] s@[j]),
            acc == dec_value(s@.subrange(pos as int, i as int)),
            acc < pow10((i - pos) as nat),
        decreases pos + 6 - i,
    {
        let c = s.get_char(i);
        if !is_digit_char(c) {
            return None;
        }
        let dv = digit_value(c);
        proof {
            let pre = s@.subrange(pos as int, i as int + 1);
            assert(pre.drop_last() =~= s@.subrange(pos as int, i as int));
            assert(pre.last() == s@[i as int]);
            assert(pow10(((i + 1) - pos) as nat) == 10 * pow10((i - pos) as nat));
            crate::text::lemma_pow10_mono(((i + 1) - pos) as nat, 6);
            reveal_with_fuel(pow10, 7);
            assert(pow10(6) == 1_000_000);
        }
        acc = acc * 10 + dv;
        i = i + 1;
    }
    proof {
        let run = s@.subrange(pos as int, pos + 6);
        assert(acc == dec_value(run));
        reveal_with_fuel(pow10, 7);
        assert(pow10(6) == 1_000_000);
        assert(forall|k: int| 0 <= k < run.len() ==> is_dec_digit(#[trigger] run[k]));
        crate::text::lemma_fixed_canonical(run);
        assert(run.len() == 6);
    }
    Some((acc, pos + 6))
}

/// Parse a quoted plain string. Succeeds exactly on a quote, plain
/// characters, and a closing quote; escapes are not part of the wire
/// format and are rejected as malformed.
pub fn parse_plain_string(s: &str, pos: usize) -> (r: Option<(String, usize)>)
    requires
        pos <= s@.len(),
    ensures
        r matches Some((v, p2)) ==> pos + 2 <= p2 <= s@.len() && plain(v@) && s@.subrange(
            pos as int,
            p2 as int,
        ) == jstr(v@),
        forall|w: Seq<char>|
            plain(w) && pos + w.len() + 2 <= s@.len() && s@.subrange(
                pos as int,
                pos + w.len() + 2,
            ) == jstr(w) ==> (r matches Some((v, p2)) && v@ == w && p2 == pos + w.len() + 2),
{
    let sl = s.unicode_len();
    if pos >= sl || s.get_char(pos) != '"' {
        proof {
            assert forall|w: Seq<char>|
                plain(w) && pos + w.len() + 2 <= s@.len() && s@.subrange(
                    pos as int,
                    pos + w.len() + 2,
                ) == jstr(w) implies false by {
                assert(s@.subrange(pos as int, pos + w.len() + 2)[0] == '"');
                assert(s@[pos as int] == '"');
            }
        }
        return None;
    }
    let mut out = String::new();
    let mut i: usize = pos + 1;
    while i < sl
        invariant
            pos + 1 <= i <= sl,
            sl == s@.len(),
            pos < s@.len() && s@[pos as int] == '"',
            out@ == s@.subrange(pos as int + 1, i as int),
            plain(out@),
        decreases sl - i,
    {
        let c = s.get_char(i);
        if c == '"' {
            proof {
                assert(s@.subrange(pos as int, i as int + 1) =~= jstr(out@));
                let vl = out@.len() as int;
                assert(i == pos + 1 + vl);
                assert forall|w: Seq<char>|
                    plain(w) && pos + w.len() + 2 <= s@.len() && s@.subrange(
                        pos as int,
                        pos + w.len() + 2,
                    ) == jstr(w) implies w == out@ && pos + w.len() + 2 == i + 1 by {
                    let wl = w.len() as int;
                    if wl < vl {
                        assert(s@.subrange(pos as int, pos + wl + 2)[wl + 1] == jstr(w)[wl + 1]);
                        assert(jstr(w)[wl + 1] == '"');
                        assert(s@[pos + wl + 1] == '"');
                        assert(out@[wl] == s@[pos + 1 + wl]);
                        assert(plain_char(out@[wl]));
                        assert(false);
                    } else if wl > vl {
                        assert(s@.subrange(pos as int, pos + wl + 2)[vl + 1] == jstr(w)[vl + 1]);
                        assert(jstr(w)[vl + 1] == w[vl]);
                        assert(s@[pos + 1 + vl] == w[vl]);
                        assert(s@[i as int] == '"');
                        assert(plain_char(w[vl]));
                        assert(false);
                    } else {
                        assert forall|k: int| 0 <= k < wl implies w[k] == out@[k] by {
                            assert(s@.subrange(pos as int, pos + wl + 2)[k + 1] == jstr(w)[k + 1]);
                            assert(jstr(w)[k + 1] == w[k]);
                            assert(out@[k] == s@[pos + 1 + k]);
                        }
                        assert(w =~= out@);
                    }
                }
            }
            return Some((out, i + 1));
        }
        if c == '\\' || (c as u32) < 32 {
            proof {
                assert forall|w: Seq<char>|
                    plain(w) && pos + w.len() + 2 <= s@.len() && s@.subrange(
                        pos as int,
                        pos + w.len() + 2,
                    ) == jstr(w) implies false by {
                    let wl = w.len() as int;
                    let k = i - pos - 1;
                    if k < wl {
                        assert(s@.subrange(pos as int, pos + wl + 2)[k + 1] == jstr(w)[k + 1]);
                        assert(jstr(w)[k + 1] == w[k]);
                        assert(s@[i as int] == w[k]);
                        assert(plain_char(w[k]));
                    } else if k == wl {
                        assert(s@.subrange(pos as int, pos + wl + 2)[wl + 1] == jstr(w)[wl + 1]);
                        assert(jstr(w)[wl + 1] == '"');
                        assert(s@[i as int] == '"');
                    } else {
                        assert(s@.subrange(pos as int, pos + wl + 2)[wl + 1] == jstr(w)[wl + 1]);
                        assert(jstr(w)[wl + 1] == '"');
                        assert(s@[pos + wl + 1] == '"');
                        assert(out@[wl] == s@[pos + 1 + wl]);
                        assert(plain_char(out@[wl]));
                    }
                }
            }
            return None;
        }
        let piece = s.substring_char(i, i + 1);
        out.append(piece);
        proof {
            assert(out@ =~= s@.subrange(pos as int + 1, i as int + 1));
        }
        i = i + 1;
    }
    proof {
        assert forall|w: Seq<char>|
            plain(w) && pos + w.len() + 2 <= s@.len() && s@.subrange(
                pos as int,
                pos + w.len() + 2,
            ) == jstr(w) implies false by {
            let wl = w.len() as int;
            assert(s@.subrange(pos as int, pos + wl + 2)[wl + 1] == jstr(w)[wl + 1]);
            assert(jstr(w)[wl + 1] == '"');
            assert(s@[pos + wl + 1] == '"');
            assert(out@[wl] == s@[pos + 1 + wl]);
            assert(plain_char(out@[wl]));
        }
    }
    None
}

/// Parse a score with six decimals. Succeeds exactly on the canonical
/// form, and what it consumed is the canonical text of its value.
pub fn parse_score6(s: &str, pos: usize) -> (r: Option<(i64, usize)>)
    requires
        pos <= s@.len(),
    ensures
        r matches Some((v, p2)) ==> 0 <= v && pos < p2 <= s@.len() && s@.subrange(
            pos as int,
            p2 as int,
        ) == crate::score::score6_text(v),
        forall|v: i64|
            0 <= v && pos + crate::score::score6_text(v).len() <= s@.len() && s@.subrange(
                pos as int,
                pos + crate::score::score6_text(v).len(),
            ) == crate::score::score6_text(v) ==> (r matches Some((v2, p2)) && v2 == v && p2 == pos
                + crate::score::score6_text(v).len()),
{
    proof {
        reveal_strlit(".");
    }
    let whole = match parse_u64(s, pos) {
        Some(x) => x,
        None => {
            proof {
                assert forall|v: i64| 0 <= v && pos + crate::score::score6_text(v).len() <= s@.len() && s@.subrange(
                    pos as int,
                    pos + crate::score::score6_text(v).len(),
                ) == crate::score::score6_text(v) implies false by {
                    lemma_score6_parts(s@, pos as int, v);
                    assert(pos < s@.len());
                    assert((v / 1_000_000) as nat <= u64::MAX as nat);
                    assert(dec_value(
                        s@.subrange(pos as int, digit_run_end(s@, pos as int)),
                    ) <= u64::MAX);
                    assert(pos < s@.len() && is_dec_digit(s@[pos as int]) && (s@[pos as int]
                        != '0' || digit_run_end(s@, pos as int) == pos + 1) && dec_value(
                        s@.subrange(pos as int, digit_run_end(s@, pos as int)),
                    ) <= u64::MAX);
                }
            }
            return None;
        },
    };
    let (n1, q1) = whole;
    let q2 = match parse_lit(s, q1, ".") {
        Some(x) => x,
        None => {
            proof {
                assert forall|v: i64| 0 <= v && pos + crate::score::score6_text(v).len() <= s@.len() && s@.subrange(
                    pos as int,
                    pos + crate::score::score6_text(v).len(),
                ) == crate::score::score6_text(v) implies false by {
                    lemma_score6_parts(s@, pos as int, v);
                    assert(s@.subrange(pos as int, digit_run_end(s@, pos as int)) == dec_digits(
                        (v / 1_000_000) as nat,
                    ));
                    crate::text::lemma_dec_digits_inj(n1 as nat, (v / 1_000_000) as nat);
                    assert(n1 as nat == (v / 1_000_000) as nat);
                    assert(q1 == pos + dec_digits((v / 1_000_000) as nat).len());
                    assert(s@[q1 as int] == '.');
                    assert(q1 + 1 <= s@.len());
                    assert(s@.subrange(q1 as int, q1 as int + 1) =~= "."@);
                }
            }
            return None;
        },
    };
    let frac = match parse_fixed6(s, q2) {
        Some(x) => x,
        None => {
            proof {
                assert forall|v: i64| 0 <= v && pos + crate::score::score6_text(v).len() <= s@.len() && s@.subrange(
                    pos as int,
                    pos + crate::score::score6_text(v).len(),
                ) == crate::score::score6_text(v) implies false by {
                    lemma_score6_parts(s@, pos as int, v);
                    crate::text::lemma_dec_digits_inj(n1 as nat, (v / 1_000_000) as nat);
                    assert(n1 as nat == (v / 1_000_000) as nat);
                    assert(q2 == pos + dec_digits((v / 1_000_000) as nat).len() + 1);
                    assert(q2 + 6 <= s@.len());
                    assert forall|j: int| q2 <= j < q2 + 6 implies is_dec_digit(
                        #[trigger] s@[j],
                    ) by {
                        assert(s@[pos + dec_digits((v / 1_000_000) as nat).len() + 1 + (j - q2)]
                            == s@[j]);
                        assert(is_dec_digit(
                            s@[pos + dec_digits((v / 1_000_000) as nat).len() + 1 + (j - q2)],
                        ));
                    }
                }
            }
            return None;
        },
    };
    let (f, p2) = frac;
    if n1 > (i64::MAX as u64 - f) / 1_000_000 {
        proof {
            assert forall|v: i64| 0 <= v && pos + crate::score::score6_text(v).len() <= s@.len() && s@.subrange(
                    pos as int,
                    pos + crate::score::score6_text(v).len(),
                ) == crate::score::score6_text(v) implies false by {
                lemma_score6_parts(s@, pos as int, v);
                crate::text::lemma_dec_digits_inj(n1 as nat, (v / 1_000_000) as nat);
                assert(n1 as nat == (v / 1_000_000) as nat);
                assert(q2 == pos + dec_digits((v / 1_000_000) as nat).len() + 1);
                assert(s@.subrange(q2 as int, p2 as int) == fixed_digits(f as nat, 6));
                reveal_with_fuel(pow10, 7);
                lemma_fixed_value(f as nat, 6);
                assert(f as nat == (v % 1_000_000) as nat);
                assert(n1 * 1_000_000 + f <= i64::MAX);
                assert(n1 <= (i64::MAX as u64 - f) / 1_000_000) by (nonlinear_arith)
                    requires
                        n1 * 1_000_000 + f <= i64::MAX,
                        0 <= f < 1_000_000,
                        0 <= n1,
                ;
            }
        }
        return None;
    }
    proof {
        assert(n1 * 1_000_000 + f <= i64::MAX) by (nonlinear_arith)
            requires
                n1 <= (i64::MAX as u64 - f) / 1_000_000,
                0 <= f < 1_000_000,
                0 <= n1,
        ;
    }
    let v: i64 = (n1 * 1_000_000 + f) as i64;
    proof {
        assert((v / 1_000_000) as nat == n1 as nat && (v % 1_000_000) as nat == f as nat)
            by (nonlinear_arith)
            requires
                v == n1 * 1_000_000 + f,
                0 <= f < 1_000_000,
                0 <= n1,
        ;
        assert(s@.subrange(pos as int, p2 as int) =~= s@.subrange(pos as int, q1 as int)
            + s@.subrange(q1 as int, q2 as int) + s@.subrange(q2 as int, p2 as int));
        assert(s@.subrange(pos as int, p2 as int) == crate::score::score6_text(v));
        assert forall|v0: i64|
            0 <= v0 && pos + crate::score::score6_text(v0).len() <= s@.len() && s@.subrange(
                pos as int,
                pos + crate::score::score6_text(v0).len(),
            ) == crate::score::score6_text(v0) implies v0 == v && pos
            + crate::score::score6_text(v0).len() == p2 by {
            lemma_score6_parts(s@, pos as int, v0);
            crate::text::lemma_dec_digits_inj(n1 as nat, (v0 / 1_000_000) as nat);
            assert(n1 as nat == (v0 / 1_000_000) as nat);
            assert(q2 == pos + dec_digits((v0 / 1_000_000) as nat).len() + 1);
            assert(s@.subrange(q2 as int, p2 as int) == fixed_digits(f as nat, 6));
            reveal_with_fuel(pow10, 7);
            lemma_fixed_value(f as nat, 6);
            assert(f as nat == (v0 % 1_000_000) as nat);
            assert(v0 == (v0 / 1_000_000) * 1_000_000 + (v0 % 1_000_000));
            assert(crate::score::score6_text(v0).len() == dec_digits((v0 / 1_000_000) as nat).len()
                + 7);
        }
    }
    Some((v, p2))
}

/// The canonical text of a bridge verification request.
pub open spec fn helper_request_text(user_id: u32, context: Seq<char>, timeout_ms: u64) -> Seq<
    char,
> {
    "{\"user_id\":"@ + dec_digits(user_id as nat) + ",\"context\":"@ + jstr(context)
        + ",\"timeout_ms\":"@ + dec_digits(timeout_ms as nat) + "}"@
}

/// The canonical text of a bridge answer, with an explicit variant tag
/// so a success can never parse as a failure.
pub open spec fn helper_response_text(resp: PamHelperResponse) -> Seq<char> {
    match resp {
        PamHelperResponse::Success { face_id, similarity_score_ppm } => "{\"Success\":{\"face_id\":"@
            + jstr(face_id@) + ",\"similarity_score\":"@ + score6_text(similarity_score_ppm)
            + "}}"@,
        PamHelperResponse::Failure { reason } => "{\"Failure\":{\"reason\":"@ + jstr(reason@)
            + "}}"@,
    }
}

/// Serialize a bridge request. A context that is not plain text is
/// refused instead of escaped.
pub fn encode_helper_request(req: &PamHelperRequest) -> (r: Result<String, DaemonError>)
    ensures
        r is Ok <==> plain(req.context@),
        r matches Ok(t) ==> t@ == helper_request_text(req.user_id, req.context@, req.timeout_ms),
        r matches Err(e) ==> e matches DaemonError::ProtocolError(_),
{
    if !is_plain_str(req.context.as_str()) {
        return Err(
            DaemonError::ProtocolError(String::from_str("contexte non transportable")),
        );
    }
    let mut out = String::from_str("{\"user_id\":");
    let d1 = u64_to_dec(req.user_id as u64);
    out.append(d1.as_str());
    out.append(",\"context\":\"");
    out.append(req.context.as_str());
    out.append("\",\"timeout_ms\":");
    let d2 = u64_to_dec(req.timeout_ms);
    out.append(d2.as_str());
    out.append("}");
    proof {
        reveal_strlit(",\"context\":\"");
        reveal_strlit(",\"context\":");
        reveal_strlit("\",\"timeout_ms\":");
        reveal_strlit(",\"timeout_ms\":");
        reveal_strlit("\"");
        assert(out@ =~= helper_request_text(req.user_id, req.context@, req.timeout_ms));
    }
    Ok(out)
}

/// Serialize a bridge answer. A face id or reason that is not plain
/// text is refused instead of escaped.
pub fn encode_helper_response(resp: &PamHelperResponse) -> (r: Result<String, DaemonError>)
    requires
        *resp matches PamHelperResponse::Success { similarity_score_ppm, .. } ==> score_valid(
            similarity_score_ppm,
        ),
    ensures
        r is Ok <==> (match resp {
            PamHelperResponse::Success { face_id, .. } => plain(face_id@),
            PamHelperResponse::Failure { reason } => plain(reason@),
        }),
        r matches Ok(t) ==> t@ == helper_response_text(*resp),
        r matches Err(e) ==> e matches DaemonError::ProtocolError(_),
{
    match resp {
        PamHelperResponse::Success { face_id, similarity_score_ppm } => {
            if !is_plain_str(face_id.as_str()) {
                return Err(
                    DaemonError::ProtocolError(String::from_str("face_id non transportable")),
                );
            }
            let mut out = String::from_str("{\"Success\":{\"face_id\":\"");
            out.append(face_id.as_str());
            out.append("\",\"similarity_score\":");
            let sc = format_score6(*similarity_score_ppm);
            out.append(sc.as_str());
            out.append("}}");
            proof {
                reveal_strlit("{\"Success\":{\"face_id\":\"");
                reveal_strlit("{\"Success\":{\"face_id\":");
                reveal_strlit("\",\"similarity_score\":");
                reveal_strlit(",\"similarity_score\":");
                reveal_strlit("\"");
                assert(out@ =~= helper_response_text(*resp));
            }
            Ok(out)
        },
        PamHelperResponse::Failure { reason } => {
            if !is_plain_str(reason.as_str()) {
                return Err(
                    DaemonError::ProtocolError(String::from_str("raison non transportable")),
                );
            }
            let mut out = String::from_str("{\"Failure\":{\"reason\":\"");
            out.append(reason.as_str());
            out.append("\"}}");
            proof {
                reveal_strlit("{\"Failure\":{\"reason\":\"");
                reveal_strlit("{\"Failure\":{\"reason\":");
                reveal_strlit("\"}}");
                reveal_strlit("}}");
                reveal_strlit("\"");
                assert(out@ =~= helper_response_text(*resp));
            }
            Ok(out)
        },
    }
}

/// The answer the bridge sends for a verification result: a match
/// becomes a success with its face id and score; every other outcome,
/// and every service error, becomes a failure whose reason is the
/// outcome's own text — never a fabricated success.
pub fn helper_response_for(result: Result<VerifyResult, DaemonError>) -> (r: PamHelperResponse)
    ensures
        (result matches Ok(VerifyResult::Success { face_id, similarity_score_ppm }) ==> (
        r matches PamHelperResponse::Success { face_id: f2, similarity_score_ppm: s2 } && f2@
            == face_id@ && s2 == similarity_score_ppm)),
        !(result matches Ok(VerifyResult::Success { .. })) ==> r matches
            PamHelperResponse::Failure { .. },
        result matches Ok(v) && !(v is Success) ==> (r matches PamHelperResponse::Failure {
            reason,
        } && reason@ == "Face not recognized"@),
        result matches Err(e) ==> (r matches PamHelperResponse::Failure { reason } && reason@
            == e.text()),
{
    match result {
        Ok(VerifyResult::Success { face_id, similarity_score_ppm }) => {
            PamHelperResponse::Success { face_id, similarity_score_ppm }
        },
        Ok(_) => PamHelperResponse::Failure {
            reason: String::from_str("Face not recognized"),
        },
        Err(e) => PamHelperResponse::Failure { reason: e.message() },
    }
}

/// Layout of a canonical bridge request: where each piece sits.
proof fn lemma_helper_request_layout(s: Seq<char>, u: u32, c: Seq<char>, t: u64)
    requires
        plain(c),
        s == helper_request_text(u, c, t),
    ensures
        s.len() == 39 + dec_digits(u as nat).len() as int + c.len() as int + dec_digits(
            t as nat,
        ).len() as int,
        s.subrange(0, 11) == "{\"user_id\":"@,
        digit_run_end(s, 11) == 11 + dec_digits(u as nat).len() as int,
        s.subrange(11, digit_run_end(s, 11)) == dec_digits(u as nat),
        is_dec_digit(s[11]),
        s[11] != '0' || digit_run_end(s, 11) == 12,
        dec_value(s.subrange(11, digit_run_end(s, 11))) == u as nat,
        s.subrange(
            11 + dec_digits(u as nat).len() as int,
            22 + dec_digits(u as nat).len() as int,
        ) == ",\"context\":"@,
        s.subrange(
            22 + dec_digits(u as nat).len() as int,
            24 + dec_digits(u as nat).len() as int + c.len() as int,
        ) == jstr(c),
        s.subrange(
            24 + dec_digits(u as nat).len() as int + c.len() as int,
            38 + dec_digits(u as nat).len() as int + c.len() as int,
        ) == ",\"timeout_ms\":"@,
        digit_run_end(s, 38 + dec_digits(u as nat).len() as int + c.len() as int) == 38 + dec_digits(
            u as nat,
        ).len() + c.len() as int + dec_digits(t as nat).len() as int,
        s.subrange(
            38 + dec_digits(u as nat).len() as int + c.len() as int,
            38 + dec_digits(u as nat).len() as int + c.len() as int + dec_digits(t as nat).len() as int,
        ) == dec_digits(t as nat),
        is_dec_digit(s[38 + dec_digits(u as nat).len() as int + c.len() as int]),
        s[38 + dec_digits(u as nat).len() as int + c.len() as int] != '0' || digit_run_end(
            s,
            38 + dec_digits(u as nat).len() as int + c.len() as int,
        ) == 39 + dec_digits(u as nat).len() as int + c.len() as int,
        dec_value(
            s.subrange(
                38 + dec_digits(u as nat).len() as int + c.len() as int,
                38 + dec_digits(u as nat).len() as int + c.len() as int + dec_digits(t as nat).len() as int,
            ),
        ) == t as nat,
        s.subrange(s.len() - 1, s.len() as int) == "}"@,
{
    reveal_strlit("{\"user_id\":");
    reveal_strlit(",\"context\":");
    reveal_strlit(",\"timeout_ms\":");
    reveal_strlit("}");
    lemma_dec_digits_shape(u as nat);
    lemma_dec_digits_shape(t as nat);
    let d1 = dec_digits(u as nat);
    let d2 = dec_digits(t as nat);
    let p2 = 11 + d1.len() as int;
    let p3 = p2 + 11;
    let p4 = p3 + c.len() + 2;
    let p5 = p4 + 14;
    let p6 = p5 + d2.len() as int;
    assert(s.len() == p6 + 1);
    assert(s.subrange(0, 11) =~= "{\"user_id\":"@);
    assert(s.subrange(11, p2) =~= d1);
    assert(s[p2] == ',');
    assert(!is_dec_digit(','));
    lemma_run_end_of(s, 11, p2);
    assert(s.subrange(p2, p3) =~= ",\"context\":"@);
    assert(s.subrange(p3, p4) =~= jstr(c));
    assert(s.subrange(p4, p5) =~= ",\"timeout_ms\":"@);
    assert(s.subrange(p5, p6) =~= d2);
    assert(s[p6] == '}');
    assert(!is_dec_digit('}'));
    lemma_run_end_of(s, p5, p6);
    assert(s.subrange(p6, p6 + 1) =~= "}"@);
}

/// Parse a bridge request; succeeds exactly on the canonical text of
/// one, and returns exactly the values whose text it was.
#[verifier::rlimit(100)]
pub fn parse_helper_request(s: &str) -> (r: Result<PamHelperRequest, DaemonError>)
    ensures
        r matches Ok(req) ==> plain(req.context@) && s@ == helper_request_text(
            req.user_id,
            req.context@,
            req.timeout_ms,
        ),
        forall|u: u32, c: Seq<char>, t: u64|
            plain(c) && s@ == helper_request_text(u, c, t) ==> (r matches Ok(req)
                && req.user_id == u && req.context@ == c && req.timeout_ms == t),
        r matches Err(e) ==> e matches DaemonError::ProtocolError(_),
{
    let perr = || -> (e: DaemonError)
        ensures
            e matches DaemonError::ProtocolError(_),
        { DaemonError::ProtocolError(String::from_str("requête malformée")) };
    let p1 = match parse_lit(s, 0, "{\"user_id\":") {
        Some(p) => p,
        None => {
            proof {
                assert forall|u: u32, c: Seq<char>, t: u64|
                    plain(c) && s@ == helper_request_text(u, c, t) implies false by {
                    lemma_helper_request_layout(s@, u, c, t);
                    reveal_strlit("{\"user_id\":");
                }
            }
            return Err(perr());
        },
    };
    proof {
        reveal_strlit("{\"user_id\":");
    }
    let nu = match parse_u64(s, p1) {
        Some(x) => x,
        None => {
            proof {
                assert forall|u: u32, c: Seq<char>, t: u64|
                    plain(c) && s@ == helper_request_text(u, c, t) implies false by {
                    lemma_helper_request_layout(s@, u, c, t);
                    assert((u as nat) <= u64::MAX as nat);
                }
            }
            return Err(perr());
        },
    };
    let (n_u, a1) = nu;
    if n_u > 0xFFFF_FFFF {
        proof {
            assert forall|u: u32, c: Seq<char>, t: u64|
                plain(c) && s@ == helper_request_text(u, c, t) implies false by {
                lemma_helper_request_layout(s@, u, c, t);
                crate::text::lemma_dec_digits_inj(n_u as nat, u as nat);
            }
        }
        return Err(perr());
    }
    let a2 = match parse_lit(s, a1, ",\"context\":") {
        Some(p) => p,
        None => {
            proof {
                assert forall|u: u32, c: Seq<char>, t: u64|
                    plain(c) && s@ == helper_request_text(u, c, t) implies false by {
                    lemma_helper_request_layout(s@, u, c, t);
                    crate::text::lemma_dec_digits_inj(n_u as nat, u as nat);
                    reveal_strlit(",\"context\":");
                    assert(a1 == 11 + dec_digits(u as nat).len());
                }
            }
            return Err(perr());
        },
    };
    proof {
        reveal_strlit(",\"context\":");
    }
    let ctx = match parse_plain_string(s, a2) {
        Some(x) => x,
        None => {
            proof {
                assert forall|u: u32, c: Seq<char>, t: u64|
                    plain(c) && s@ == helper_request_text(u, c, t) implies false by {
                    lemma_helper_request_layout(s@, u, c, t);
                    crate::text::lemma_dec_digits_inj(n_u as nat, u as nat);
                    assert(a2 == 22 + dec_digits(u as nat).len());
                    assert(a2 + c.len() + 2 <= s@.len());
                    assert(s@.subrange(a2 as int, a2 + c.len() + 2) == jstr(c));
                }
            }
            return Err(perr());
        },
    };
    let (context, a3) = ctx;
    let a4 = match parse_lit(s, a3, ",\"timeout_ms\":") {
        Some(p) => p,
        None => {
            proof {
                assert forall|u: u32, c: Seq<char>, t: u64|
                    plain(c) && s@ == helper_request_text(u, c, t) implies false by {
                    lemma_helper_request_layout(s@, u, c, t);
                    crate::text::lemma_dec_digits_inj(n_u as nat, u as nat);
                    assert(a2 == 22 + dec_digits(u as nat).len());
                    assert(a2 + c.len() + 2 <= s@.len());
                    assert(s@.subrange(a2 as int, a2 + c.len() + 2) == jstr(c));
                    assert(a3 == 24 + dec_digits(u as nat).len() + c.len());
                    reveal_strlit(",\"timeout_ms\":");
                }
            }
            return Err(perr());
        },
    };
    proof {
        reveal_strlit(",\"timeout_ms\":");
    }
    let nt = match parse_u64(s, a4) {
        Some(x) => x,
        None => {
            proof {
                assert forall|u: u32, c: Seq<char>, t: u64|
                    plain(c) && s@ == helper_request_text(u, c, t) implies false by {
                    lemma_helper_request_layout(s@, u, c, t);
                    crate::text::lemma_dec_digits_inj(n_u as nat, u as nat);
                    assert(a2 == 22 + dec_digits(u as nat).len());
                    assert(a2 + c.len() + 2 <= s@.len());
                    assert(s@.subrange(a2 as int, a2 + c.len() + 2) == jstr(c));
                    assert(a4 == 38 + dec_digits(u as nat).len() + c.len());
                    assert((t as nat) <= u64::MAX as nat);
                }
            }
            return Err(perr());
        },
    };
    let (n_t, a5) = nt;
    let a6 = match parse_lit(s, a5, "}") {
        Some(p) => p,
        None => {
            proof {
                assert forall|u: u32, c: Seq<char>, t: u64|
                    plain(c) && s@ == helper_request_text(u, c, t) implies false by {
                    lemma_helper_request_layout(s@, u, c, t);
                    crate::text::lemma_dec_digits_inj(n_u as nat, u as nat);
                    assert(a2 == 22 + dec_digits(u as nat).len());
                    assert(a2 + c.len() + 2 <= s@.len());
                    assert(s@.subrange(a2 as int, a2 + c.len() + 2) == jstr(c));
                    assert(a4 == 38 + dec_digits(u as nat).len() + c.len());
                    crate::text::lemma_dec_digits_inj(n_t as nat, t as nat);
                    assert(a5 == s@.len() - 1);
                    reveal_strlit("}");
                }
            }
            return Err(perr());
        },
    };
    proof {
        reveal_strlit("}");
    }
    let sl = s.unicode_len();
    if a6 != sl {
        proof {
            assert forall|u: u32, c: Seq<char>, t: u64|
                plain(c) && s@ == helper_request_text(u, c, t) implies false by {
                lemma_helper_request_layout(s@, u, c, t);
                crate::text::lemma_dec_digits_inj(n_u as nat, u as nat);
                assert(a2 == 22 + dec_digits(u as nat).len());
                assert(a2 + c.len() + 2 <= s@.len());
                assert(s@.subrange(a2 as int, a2 + c.len() + 2) == jstr(c));
                assert(a4 == 38 + dec_digits(u as nat).len() + c.len());
                crate::text::lemma_dec_digits_inj(n_t as nat, t as nat);
                assert(a6 == s@.len());
            }
        }
        return Err(perr());
    }
    let req = PamHelperRequest { user_id: n_u as u32, context, timeout_ms: n_t };
    proof {
        assert(s@ =~= s@.subrange(0, p1 as int) + s@.subrange(p1 as int, a1 as int) + s@.subrange(
            a1 as int,
            a2 as int,
        ) + s@.subrange(a2 as int, a3 as int) + s@.subrange(a3 as int, a4 as int) + s@.subrange(
            a4 as int,
            a5 as int,
        ) + s@.subrange(a5 as int, a6 as int));
        assert((n_u as u32) as nat == n_u as nat);
        assert(s@ == helper_request_text(req.user_id, req.context@, req.timeout_ms));
        assert forall|u: u32, c: Seq<char>, t: u64|
            plain(c) && s@ == helper_request_text(u, c, t) implies req.user_id == u
            && req.context@ == c && req.timeout_ms == t by {
            lemma_helper_request_layout(s@, u, c, t);
            crate::text::lemma_dec_digits_inj(n_u as nat, u as nat);
            assert(a2 == 22 + dec_digits(u as nat).len());
            assert(a2 + c.len() + 2 <= s@.len());
            assert(s@.subrange(a2 as int, a2 + c.len() + 2) == jstr(c));
            assert(context@ == c);
            assert(a4 == 38 + dec_digits(u as nat).len() + c.len());
            crate::text::lemma_dec_digits_inj(n_t as nat, t as nat);
        }
    }
    Ok(req)
}

/// The text of one embedding component: a signed fixed-point number
/// with six decimals.
pub open spec fn comp_text(v: i64) -> Seq<char> {
    if v < 0 {
        seq!['-'] + score6_text((-v) as i64)
    } else {
        score6_text(v)
    }
}

/// The items of a vector, joined by commas.
pub open spec fn vector_items_text(v: Seq<i64>) -> Seq<char>
    decreases v.len(),
{
    if v.len() == 0 {
        Seq::empty()
    } else if v.len() == 1 {
        comp_text(v[0])
    } else {
        vector_items_text(v.drop_last()) + seq![','] + comp_text(v.last())
    }
}

/// The text of an embedding vector: a JSON array of its components.
pub open spec fn vector_text(v: Seq<i64>) -> Seq<char> {
    seq!['['] + vector_items_text(v) + seq![']']
}

/// Serialize an embedding vector.
pub fn encode_vector(v: &Vec<i64>) -> (r: String)
    requires
        crate::embedding::comps_bounded(v@),
    ensures
        r@ == vector_text(v@),
{
    proof {
        reveal_strlit("[");
        reveal_strlit("]");
        reveal_strlit(",");
        reveal_strlit("-");
    }
    let mut out = String::from_str("[");
    let n = v.len();
    let mut i: usize = 0;
    while i < n
        invariant
            0 <= i <= n,
            n == v@.len(),
            crate::embedding::comps_bounded(v@),
            out@ == seq!['['] + vector_items_text(v@.take(i as int)),
        decreases n - i,
    {
        if i > 0 {
            out.append(",");
        }
        let x = v[i];
        if x < 0 {
            out.append("-");
            let t = format_score6(-x);
            out.append(t.as_str());
        } else {
            let t = format_score6(x);
            out.append(t.as_str());
        }
        proof {
            reveal_strlit("[");
            reveal_strlit(",");
            reveal_strlit("-");
            assert(v@.take(i as int + 1).drop_last() =~= v@.take(i as int));
            assert(v@.take(i as int + 1).last() == v@[i as int]);
            assert(out@ =~= seq!['['] + vector_items_text(v@.take(i as int + 1)));
        }
        i = i + 1;
    }
    out.append("]");
    proof {
        reveal_strlit("]");
        assert(v@.take(n as int) =~= v@);
        assert(out@ =~= vector_text(v@));
    }
    out
}

/// The canonical text of an enrollment request.
pub open spec fn register_request_text(
    user_id: u32,
    context: Seq<char>,
    timeout_ms: u64,
    num_samples: u32,
) -> Seq<char> {
    "{\"user_id\":"@ + dec_digits(user_id as nat) + ",\"context\":"@ + jstr(context)
        + ",\"timeout_ms\":"@ + dec_digits(timeout_ms as nat) + ",\"num_samples\":"@ + dec_digits(
        num_samples as nat,
    ) + "}"@
}

/// The canonical text of a verification request: the same shape as a
/// bridge request, since the bridge relays exactly one verification.
pub open spec fn verify_request_text(user_id: u32, context: Seq<char>, timeout_ms: u64) -> Seq<
    char,
> {
    helper_request_text(user_id, context, timeout_ms)
}

/// The canonical text of a deletion request; a missing face id is
/// `null` and means every face of the identity.
pub open spec fn delete_request_text(user_id: u32, face_id: Option<Seq<char>>) -> Seq<char> {
    "{\"user_id\":"@ + dec_digits(user_id as nat) + ",\"face_id\":"@ + (match face_id {
        Some(f) => jstr(f),
        None => "null"@,
    }) + "}"@
}

/// The canonical text of an enrollment answer.
pub open spec fn register_response_text(
    face_id: Seq<char>,
    registered_at: u64,
    quality_ppm: i64,
) -> Seq<char> {
    "{\"face_id\":"@ + jstr(face_id) + ",\"registered_at\":"@ + dec_digits(registered_at as nat)
        + ",\"quality_score\":"@ + score6_text(quality_ppm) + "}"@
}

/// Serialize an enrollment request.
pub fn encode_register_request(req: &RegisterFaceRequest) -> (r: Result<String, DaemonError>)
    ensures
        r is Ok <==> plain(req.context@),
        r matches Ok(t) ==> t@ == register_request_text(
            req.user_id,
            req.context@,
            req.timeout_ms,
            req.num_samples,
        ),
        r matches Err(e) ==> e matches DaemonError::ProtocolError(_),
{
    if !is_plain_str(req.context.as_str()) {
        return Err(
            DaemonError::ProtocolError(String::from_str("contexte non transportable")),
        );
    }
    let mut out = String::from_str("{\"user_id\":");
    let d1 = u64_to_dec(req.user_id as u64);
    out.append(d1.as_str());
    out.append(",\"context\":\"");
    out.append(req.context.as_str());
    out.append("\",\"timeout_ms\":");
    let d2 = u64_to_dec(req.timeout_ms);
    out.append(d2.as_str());
    out.append(",\"num_samples\":");
    let d3 = u64_to_dec(req.num_samples as u64);
    out.append(d3.as_str());
    out.append("}");
    proof {
        reveal_strlit(",\"context\":\"");
        reveal_strlit(",\"context\":");
        reveal_strlit("\",\"timeout_ms\":");
        reveal_strlit(",\"timeout_ms\":");
        reveal_strlit("\"");
        assert(out@ =~= register_request_text(
            req.user_id,
            req.context@,
            req.timeout_ms,
            req.num_samples,
        ));
    }
    Ok(out)
}

/// Serialize a verification request.
pub fn encode_verify_request(req: &VerifyRequest) -> (r: Result<String, DaemonError>)
    ensures
        r is Ok <==> plain(req.context@),
        r matches Ok(t) ==> t@ == verify_request_text(req.user_id, req.context@, req.timeout_ms),
        r matches Err(e) ==> e matches DaemonError::ProtocolError(_),
{
    let bridge = PamHelperRequest {
        user_id: req.user_id,
        context: req.context.clone(),
        timeout_ms: req.timeout_ms,
    };
    encode_helper_request(&bridge)
}

/// Serialize a deletion request.
pub fn encode_delete_request(req: &DeleteFaceRequest) -> (r: Result<String, DaemonError>)
    ensures
        r is Ok <==> (match req.face_id {
            Some(f) => plain(f@),
            None => true,
        }),
        r matches Ok(t) ==> t@ == delete_request_text(
            req.user_id,
            match req.face_id {
                Some(f) => Some(f@),
                None => None,
            },
        ),
        r matches Err(e) ==> e matches DaemonError::ProtocolError(_),
{
    let mut out = String::from_str("{\"user_id\":");
    let d1 = u64_to_dec(req.user_id as u64);
    out.append(d1.as_str());
    out.append(",\"face_id\":");
    match &req.face_id {
        Some(f) => {
            if !is_plain_str(f.as_str()) {
                return Err(
                    DaemonError::ProtocolError(String::from_str("face_id non transportable")),
                );
            }
            out.append("\"");
            out.append(f.as_str());
            out.append("\"}");
        },
        None => {
            out.append("null}");
        },
    }
    proof {
        reveal_strlit(",\"face_id\":");
        reveal_strlit("\"");
        reveal_strlit("\"}");
        reveal_strlit("null}");
        reveal_strlit("null");
        reveal_strlit("}");
        assert(out@ =~= delete_request_text(
            req.user_id,
            match req.face_id {
                Some(f) => Some(f@),
                None => None,
            },
        ));
    }
    Ok(out)
}

/// Serialize an enrollment answer.
pub fn encode_register_response(resp: &RegisterFaceResponse) -> (r: Result<String, DaemonError>)
    requires
        score_valid(resp.quality_ppm),
    ensures
        r is Ok <==> plain(resp.face_id@),
        r matches Ok(t) ==> t@ == register_response_text(
            resp.face_id@,
            resp.registered_at,
            resp.quality_ppm,
        ),
        r matches Err(e) ==> e matches DaemonError::ProtocolError(_),
{
    if !is_plain_str(resp.face_id.as_str()) {
        return Err(
            DaemonError::ProtocolError(String::from_str("face_id non transportable")),
        );
    }
    let mut out = String::from_str("{\"face_id\":\"");
    out.append(resp.face_id.as_str());
    out.append("\",\"registered_at\":");
    let d1 = u64_to_dec(resp.registered_at);
    out.append(d1.as_str());
    out.append(",\"quality_score\":");
    let q = format_score6(resp.quality_ppm);
    out.append(q.as_str());
    out.append("}");
    proof {
        reveal_strlit("{\"face_id\":\"");
        reveal_strlit("{\"face_id\":");
        reveal_strlit("\",\"registered_at\":");
        reveal_strlit(",\"registered_at\":");
        reveal_strlit(",\"quality_score\":");
        reveal_strlit("\"");
        assert(out@ =~= register_response_text(
            resp.face_id@,
            resp.registered_at,
            resp.quality_ppm,
        ));
    }
    Ok(out)
}

/// String payloads of a response are plain, and a success carries a
/// non-negative score: the conditions under which it can go on the
/// wire.
pub open spec fn resp_encodable(resp: PamHelperResponse) -> bool {
    match resp {
        PamHelperResponse::Success { face_id, similarity_score_ppm } => plain(face_id@) && 0
            <= similarity_score_ppm,
        PamHelperResponse::Failure { reason } => plain(reason@),
    }
}

/// Two responses carry the same variant and values.
pub open spec fn resp_same(a: PamHelperResponse, b: PamHelperResponse) -> bool {
    match (a, b) {
        (
            PamHelperResponse::Success { face_id: f1, similarity_score_ppm: s1 },
            PamHelperResponse::Success { face_id: f2, similarity_score_ppm: s2 },
        ) => f1@ == f2@ && s1 == s2,
        (
            PamHelperResponse::Failure { reason: r1 },
            PamHelperResponse::Failure { reason: r2 },
        ) => r1@ == r2@,
        _ => false,
    }
}

/// Law: the explicit variant tags keep the two response shapes apart —
/// no text is at once the encoding of a success and of a failure, so no
/// parse can confuse them.
pub proof fn lemma_response_tags_unambiguous(a: PamHelperResponse, b: PamHelperResponse)
    requires
        a matches PamHelperResponse::Success { .. },
        b matches PamHelperResponse::Failure { .. },
    ensures
        helper_response_text(a) != helper_response_text(b),
{
    reveal_strlit("{\"Success\":{\"face_id\":");
    reveal_strlit("{\"Failure\":{\"reason\":");
    assert(helper_response_text(a)[2] == 'S');
    assert(helper_response_text(b)[2] == 'F');
}

/// Layout of a canonical success response.
proof fn lemma_success_layout(s: Seq<char>, f: Seq<char>, sc: i64)
    requires
        plain(f),
        0 <= sc,
        s == "{\"Success\":{\"face_id\":"@ + jstr(f) + ",\"similarity_score\":"@ + score6_text(sc)
            + "}}"@,
    ensures
        s.len() == 46 + f.len() as int + score6_text(sc).len() as int,
        s.subrange(0, 22) == "{\"Success\":{\"face_id\":"@,
        s.subrange(22, 24 + f.len() as int) == jstr(f),
        s.subrange(24 + f.len() as int, 44 + f.len() as int) == ",\"similarity_score\":"@,
        s.subrange(
            44 + f.len() as int,
            44 + f.len() as int + score6_text(sc).len() as int,
        ) == score6_text(sc),
        s.subrange(s.len() - 2, s.len() as int) == "}}"@,
        s[2] == 'S',
{
    reveal_strlit("{\"Success\":{\"face_id\":");
    reveal_strlit(",\"similarity_score\":");
    reveal_strlit("}}");
    let p1 = 22int;
    let p2 = p1 + f.len() + 2;
    let p3 = p2 + 20;
    let p4 = p3 + score6_text(sc).len();
    assert(s.len() == p4 + 2);
    assert(s.subrange(0, p1) =~= "{\"Success\":{\"face_id\":"@);
    assert(s.subrange(p1, p2) =~= jstr(f));
    assert(s.subrange(p2, p3) =~= ",\"similarity_score\":"@);
    assert(s.subrange(p3, p4) =~= score6_text(sc));
    assert(s.subrange(p4, p4 + 2) =~= "}}"@);
}

/// Layout of a canonical failure response.
proof fn lemma_failure_layout(s: Seq<char>, rsn: Seq<char>)
    requires
        plain(rsn),
        s == "{\"Failure\":{\"reason\":"@ + jstr(rsn) + "}}"@,
    ensures
        s.len() == 25 + rsn.len() as int,
        s.subrange(0, 21) == "{\"Failure\":{\"reason\":"@,
        s.subrange(21, 23 + rsn.len() as int) == jstr(rsn),
        s.subrange(s.len() - 2, s.len() as int) == "}}"@,
        s[2] == 'F',
{
    reveal_strlit("{\"Failure\":{\"reason\":");
    reveal_strlit("}}");
    let p1 = 21int;
    let p2 = p1 + rsn.len() + 2;
    assert(s.len() == p2 + 2);
    assert(s.subrange(0, p1) =~= "{\"Failure\":{\"reason\":"@);
    assert(s.subrange(p1, p2) =~= jstr(rsn));
    assert(s.subrange(p2, p2 + 2) =~= "}}"@);
}

/// Parse a bridge answer; succeeds exactly on the canonical text of
/// one, returns exactly the variant and values whose text it was, and
/// the explicit tags keep the two shapes apart.
#[verifier::rlimit(100)]
pub fn parse_helper_response(s: &str) -> (r: Result<PamHelperResponse, DaemonError>)
    ensures
        r matches Ok(resp) ==> resp_encodable(resp) && s@ == helper_response_text(resp),
        forall|resp2: PamHelperResponse|
            resp_encodable(resp2) && s@ == helper_response_text(resp2) ==> (r matches Ok(rr)
                && resp_same(rr, resp2)),
        r matches Err(e) ==> e matches DaemonError::ProtocolError(_),
{
    match parse_lit(s, 0, "{\"Success\":{\"face_id\":") {
        Some(p1) => {
            proof {
                reveal_strlit("{\"Success\":{\"face_id\":");
                assert forall|resp2: PamHelperResponse|
                    resp_encodable(resp2) && s@ == helper_response_text(resp2) implies (
                resp2 matches PamHelperResponse::Success { .. }) by {
                    if let PamHelperResponse::Failure { reason } = resp2 {
                        lemma_failure_layout(s@, reason@);
                        assert(s@.subrange(0, 22)[2] == s@[2]);
                        assert(s@[2] == 'S');
                    }
                }
            }
            let fid = match parse_plain_string(s, p1) {
                Some(x) => x,
                None => {
                    proof {
                        assert forall|resp2: PamHelperResponse|
                            resp_encodable(resp2) && s@ == helper_response_text(
                                resp2,
                            ) implies false by {
                            if let PamHelperResponse::Success { face_id, similarity_score_ppm } =
                                resp2 {
                                lemma_success_layout(s@, face_id@, similarity_score_ppm);
                            }
                        }
                    }
                    return Err(
                        DaemonError::ProtocolError(String::from_str("réponse malformée")),
                    );
                },
            };
            let (face_id, b1) = fid;
            let b2 = match parse_lit(s, b1, ",\"similarity_score\":") {
                Some(p) => p,
                None => {
                    proof {
                        assert forall|resp2: PamHelperResponse|
                            resp_encodable(resp2) && s@ == helper_response_text(
                                resp2,
                            ) implies false by {
                            if let PamHelperResponse::Success { face_id: f2, similarity_score_ppm }
                                = resp2 {
                                lemma_success_layout(s@, f2@, similarity_score_ppm);
                                assert(b1 == 24 + f2@.len());
                                reveal_strlit(",\"similarity_score\":");
                            }
                        }
                    }
                    return Err(
                        DaemonError::ProtocolError(String::from_str("réponse malformée")),
                    );
                },
            };
            proof {
                reveal_strlit(",\"similarity_score\":");
            }
            let scp = match parse_score6(s, b2) {
                Some(x) => x,
                None => {
                    proof {
                        assert forall|resp2: PamHelperResponse|
                            resp_encodable(resp2) && s@ == helper_response_text(
                                resp2,
                            ) implies false by {
                            if let PamHelperResponse::Success { face_id: f2, similarity_score_ppm }
                                = resp2 {
                                lemma_success_layout(s@, f2@, similarity_score_ppm);
                                assert(b2 == 44 + f2@.len());
                            }
                        }
                    }
                    return Err(
                        DaemonError::ProtocolError(String::from_str("réponse malformée")),
                    );
                },
            };
            let (score, b3) = scp;
            let b4 = match parse_lit(s, b3, "}}") {
                Some(p) => p,
                None => {
                    proof {
                        assert forall|resp2: PamHelperResponse|
                            resp_encodable(resp2) && s@ == helper_response_text(
                                resp2,
                            ) implies false by {
                            if let PamHelperResponse::Success { face_id: f2, similarity_score_ppm }
                                = resp2 {
                                lemma_success_layout(s@, f2@, similarity_score_ppm);
                                assert(b2 == 44 + f2@.len());
                                assert(b3 == b2 + score6_text(similarity_score_ppm).len());
                                reveal_strlit("}}");
                            }
                        }
                    }
                    return Err(
                        DaemonError::ProtocolError(String::from_str("réponse malformée")),
                    );
                },
            };
            proof {
                reveal_strlit("}}");
            }
            let sl = s.unicode_len();
            if b4 != sl {
                proof {
                    assert forall|resp2: PamHelperResponse|
                        resp_encodable(resp2) && s@ == helper_response_text(
                            resp2,
                        ) implies false by {
                        if let PamHelperResponse::Success { face_id: f2, similarity_score_ppm } =
                            resp2 {
                            lemma_success_layout(s@, f2@, similarity_score_ppm);
                            assert(b2 == 44 + f2@.len());
                            assert(b3 == b2 + score6_text(similarity_score_ppm).len());
                        }
                    }
                }
                return Err(DaemonError::ProtocolError(String::from_str("réponse malformée")));
            }
            let resp = PamHelperResponse::Success { face_id, similarity_score_ppm: score };
            proof {
                assert(s@ =~= s@.subrange(0, p1 as int) + s@.subrange(p1 as int, b1 as int)
                    + s@.subrange(b1 as int, b2 as int) + s@.subrange(b2 as int, b3 as int)
                    + s@.subrange(b3 as int, b4 as int));
                assert(s@ == helper_response_text(resp));
                assert forall|resp2: PamHelperResponse|
                    resp_encodable(resp2) && s@ == helper_response_text(resp2) implies resp_same(
                    resp,
                    resp2,
                ) by {
                    if let PamHelperResponse::Success { face_id: f2, similarity_score_ppm } =
                        resp2 {
                        lemma_success_layout(s@, f2@, similarity_score_ppm);
                        assert(face_id@ == f2@);
                        assert(b2 == 44 + f2@.len());
                        assert(score == similarity_score_ppm);
                    }
                }
            }
            Ok(resp)
        },
        None => {
            match parse_lit(s, 0, "{\"Failure\":{\"reason\":") {
                Some(q1) => {
                    proof {
                        reveal_strlit("{\"Failure\":{\"reason\":");
                        assert forall|resp2: PamHelperResponse|
                            resp_encodable(resp2) && s@ == helper_response_text(resp2) implies (
                        resp2 matches PamHelperResponse::Failure { .. }) by {
                            if let PamHelperResponse::Success { face_id, similarity_score_ppm } =
                                resp2 {
                                lemma_success_layout(s@, face_id@, similarity_score_ppm);
                                reveal_strlit("{\"Success\":{\"face_id\":");
                            }
                        }
                    }
                    let rsn = match parse_plain_string(s, q1) {
                        Some(x) => x,
                        None => {
                            proof {
                                assert forall|resp2: PamHelperResponse|
                                    resp_encodable(resp2) && s@ == helper_response_text(
                                        resp2,
                                    ) implies false by {
                                    if let PamHelperResponse::Failure { reason } = resp2 {
                                        lemma_failure_layout(s@, reason@);
                                    }
                                }
                            }
                            return Err(
                                DaemonError::ProtocolError(
                                    String::from_str("réponse malformée"),
                                ),
                            );
                        },
                    };
                    let (reason, d1) = rsn;
                    let d2 = match parse_lit(s, d1, "}}") {
                        Some(p) => p,
                        None => {
                            proof {
                                assert forall|resp2: PamHelperResponse|
                                    resp_encodable(resp2) && s@ == helper_response_text(
                                        resp2,
                                    ) implies false by {
                                    if let PamHelperResponse::Failure { reason: r2 } = resp2 {
                                        lemma_failure_layout(s@, r2@);
                                        assert(d1 == 23 + r2@.len());
                                        reveal_strlit("}}");
                                    }
                                }
                            }
                            return Err(
                                DaemonError::ProtocolError(
                                    String::from_str("réponse malformée"),
                                ),
                            );
                        },
                    };
                    proof {
                        reveal_strlit("}}");
                    }
                    let sl = s.unicode_len();
                    if d2 != sl {
                        proof {
                            assert forall|resp2: PamHelperResponse|
                                resp_encodable(resp2) && s@ == helper_response_text(
                                    resp2,
                                ) implies false by {
                                if let PamHelperResponse::Failure { reason: r2 } = resp2 {
                                    lemma_failure_layout(s@, r2@);
                                    assert(d1 == 23 + r2@.len());
                                }
                            }
                        }
                        return Err(
                            DaemonError::ProtocolError(String::from_str("réponse malformée")),
                        );
                    }
                    let resp = PamHelperResponse::Failure { reason };
                    proof {
                        assert(s@ =~= s@.subrange(0, q1 as int) + s@.subrange(q1 as int, d1 as int)
                            + s@.subrange(d1 as int, d2 as int));
                        assert(s@ == helper_response_text(resp));
                        assert forall|resp2: PamHelperResponse|
                            resp_encodable(resp2) && s@ == helper_response_text(
                                resp2,
                            ) implies resp_same(resp, resp2) by {
                            if let PamHelperResponse::Failure { reason: r2 } = resp2 {
                                lemma_failure_layout(s@, r2@);
                                assert(reason@ == r2@);
                            }
                        }
                    }
                    Ok(resp)
                },
                None => {
                    proof {
                        assert forall|resp2: PamHelperResponse|
                            resp_encodable(resp2) && s@ == helper_response_text(
                                resp2,
                            ) implies false by {
                            match resp2 {
                                PamHelperResponse::Success { face_id, similarity_score_ppm } => {
                                    lemma_success_layout(s@, face_id@, similarity_score_ppm);
                                    reveal_strlit("{\"Success\":{\"face_id\":");
                                },
                                PamHelperResponse::Failure { reason } => {
                                    lemma_failure_layout(s@, reason@);
                                    reveal_strlit("{\"Failure\":{\"reason\":");
                                },
                            }
                        }
                    }
                    Err(DaemonError::ProtocolError(String::from_str("réponse malformée")))
                },
            }
        },
    }
}

/// Layout of a canonical enrollment request.
proof fn lemma_register_request_layout(s: Seq<char>, u: u32, c: Seq<char>, t: u64, ns: u32)
    requires
        plain(c),
        s == register_request_text(u, c, t, ns),
    ensures
        s.len() == 54 + dec_digits(u as nat).len() as int + c.len() as int + dec_digits(
            t as nat,
        ).len() as int + dec_digits(ns as nat).len() as int,
        s.subrange(0, 11) == "{\"user_id\":"@,
        digit_run_end(s, 11) == 11 + dec_digits(u as nat).len() as int,
        s.subrange(11, digit_run_end(s, 11)) == dec_digits(u as nat),
        is_dec_digit(s[11]),
        s[11] != '0' || digit_run_end(s, 11) == 12,
        dec_value(s.subrange(11, digit_run_end(s, 11))) == u as nat,
        s.subrange(
            11 + dec_digits(u as nat).len() as int,
            22 + dec_digits(u as nat).len() as int,
        ) == ",\"context\":"@,
        s.subrange(
            22 + dec_digits(u as nat).len() as int,
            24 + dec_digits(u as nat).len() as int + c.len() as int,
        ) == jstr(c),
        s.subrange(
            24 + dec_digits(u as nat).len() as int + c.len() as int,
            38 + dec_digits(u as nat).len() as int + c.len() as int,
        ) == ",\"timeout_ms\":"@,
        digit_run_end(s, 38 + dec_digits(u as nat).len() as int + c.len() as int) == 38
            + dec_digits(u as nat).len() as int + c.len() as int + dec_digits(t as nat).len() as int,
        s.subrange(
            38 + dec_digits(u as nat).len() as int + c.len() as int,
            38 + dec_digits(u as nat).len() as int + c.len() as int + dec_digits(
                t as nat,
            ).len() as int,
        ) == dec_digits(t as nat),
        is_dec_digit(s[38 + dec_digits(u as nat).len() as int + c.len() as int]),
        s[38 + dec_digits(u as nat).len() as int + c.len() as int] != '0' || digit_run_end(
            s,
            38 + dec_digits(u as nat).len() as int + c.len() as int,
        ) == 39 + dec_digits(u as nat).len() as int + c.len() as int,
        dec_value(
            s.subrange(
                38 + dec_digits(u as nat).len() as int + c.len() as int,
                38 + dec_digits(u as nat).len() as int + c.len() as int + dec_digits(
                    t as nat,
                ).len() as int,
            ),
        ) == t as nat,
        ({
            let p5 = 38 + dec_digits(u as nat).len() as int + c.len() as int + dec_digits(
                t as nat,
            ).len() as int;
            &&& s.subrange(p5, p5 + 15) == ",\"num_samples\":"@
            &&& digit_run_end(s, p5 + 15) == p5 + 15 + dec_digits(ns as nat).len() as int
            &&& s.subrange(p5 + 15, p5 + 15 + dec_digits(ns as nat).len() as int) == dec_digits(
                ns as nat,
            )
            &&& is_dec_digit(s[p5 + 15])
            &&& (s[p5 + 15] != '0' || digit_run_end(s, p5 + 15) == p5 + 16)
            &&& dec_value(s.subrange(p5 + 15, p5 + 15 + dec_digits(ns as nat).len() as int))
                == ns as nat
            &&& s.subrange(s.len() - 1, s.len() as int) == "}"@
        }),
{
    reveal_strlit("{\"user_id\":");
    reveal_strlit(",\"context\":");
    reveal_strlit(",\"timeout_ms\":");
    reveal_strlit(",\"num_samples\":");
    reveal_strlit("}");
    lemma_dec_digits_shape(u as nat);
    lemma_dec_digits_shape(t as nat);
    lemma_dec_digits_shape(ns as nat);
    let d1 = dec_digits(u as nat);
    let d2 = dec_digits(t as nat);
    let d3 = dec_digits(ns as nat);
    let p2 = 11 + d1.len() as int;
    let p3 = p2 + 11;
    let p4 = p3 + c.len() + 2;
    let p5 = p4 + 14;
    let p6 = p5 + d2.len() as int;
    let p7 = p6 + 15;
    let p8 = p7 + d3.len() as int;
    assert(s.len() == p8 + 1);
    assert(s.subrange(0, 11) =~= "{\"user_id\":"@);
    assert(s.subrange(11, p2) =~= d1);
    assert(s[p2] == ',');
    assert(!is_dec_digit(','));
    lemma_run_end_of(s, 11, p2);
    assert(s.subrange(p2, p3) =~= ",\"context\":"@);
    assert(s.subrange(p3, p4) =~= jstr(c));
    assert(s.subrange(p4, p5) =~= ",\"timeout_ms\":"@);
    assert(s.subrange(p5, p6) =~= d2);
    assert(s[p6] == ',');
    lemma_run_end_of(s, p5, p6);
    assert(s.subrange(p6, p7) =~= ",\"num_samples\":"@);
    assert(s.subrange(p7, p8) =~= d3);
    assert(s[p8] == '}');
    assert(!is_dec_digit('}'));
    lemma_run_end_of(s, p7, p8);
    assert(s.subrange(p8, p8 + 1) =~= "}"@);
}

/// Parse an enrollment request; succeeds exactly on the canonical text
/// of one, and returns exactly the values whose text it was.
#[verifier::rlimit(100)]
pub fn parse_register_request(s: &str) -> (r: Result<RegisterFaceRequest, DaemonError>)
    ensures
        r matches Ok(req) ==> plain(req.context@) && s@ == register_request_text(
            req.user_id,
            req.context@,
            req.timeout_ms,
            req.num_samples,
        ),
        forall|u: u32, c: Seq<char>, t: u64, ns: u32|
            plain(c) && s@ == register_request_text(u, c, t, ns) ==> (r matches Ok(req)
                && req.user_id == u && req.context@ == c && req.timeout_ms == t
                && req.num_samples == ns),
        r matches Err(e) ==> e matches DaemonError::ProtocolError(_),
{
    let p1 = match parse_lit(s, 0, "{\"user_id\":") {
        Some(p) => p,
        None => {
            proof {
                assert forall|u: u32, c: Seq<char>, t: u64, ns: u32|
                    plain(c) && s@ == register_request_text(u, c, t, ns) implies false by {
                    lemma_register_request_layout(s@, u, c, t, ns);
                    reveal_strlit("{\"user_id\":");
                }
            }
            return Err(DaemonError::ProtocolError(String::from_str("requête malformée")));
        },
    };
    proof {
        reveal_strlit("{\"user_id\":");
    }
    let nu = match parse_u64(s, p1) {
        Some(x) => x,
        None => {
            proof {
                assert forall|u: u32, c: Seq<char>, t: u64, ns: u32|
                    plain(c) && s@ == register_request_text(u, c, t, ns) implies false by {
                    lemma_register_request_layout(s@, u, c, t, ns);
                    assert((u as nat) <= u64::MAX as nat);
                }
            }
            return Err(DaemonError::ProtocolError(String::from_str("requête malformée")));
        },
    };
    let (n_u, a1) = nu;
    if n_u > 0xFFFF_FFFF {
        proof {
            assert forall|u: u32, c: Seq<char>, t: u64, ns: u32|
                plain(c) && s@ == register_request_text(u, c, t, ns) implies false by {
                lemma_register_request_layout(s@, u, c, t, ns);
                crate::text::lemma_dec_digits_inj(n_u as nat, u as nat);
            }
        }
        return Err(DaemonError::ProtocolError(String::from_str("requête malformée")));
    }
    let a2 = match parse_lit(s, a1, ",\"context\":") {
        Some(p) => p,
        None => {
            proof {
                assert forall|u: u32, c: Seq<char>, t: u64, ns: u32|
                    plain(c) && s@ == register_request_text(u, c, t, ns) implies false by {
                    lemma_register_request_layout(s@, u, c, t, ns);
                    crate::text::lemma_dec_digits_inj(n_u as nat, u as nat);
                    reveal_strlit(",\"context\":");
                    assert(a1 == 11 + dec_digits(u as nat).len());
                }
            }
            return Err(DaemonError::ProtocolError(String::from_str("requête malformée")));
        },
    };
    proof {
        reveal_strlit(",\"context\":");
    }
    let ctx = match parse_plain_string(s, a2) {
        Some(x) => x,
        None => {
            proof {
                assert forall|u: u32, c: Seq<char>, t: u64, ns: u32|
                    plain(c) && s@ == register_request_text(u, c, t, ns) implies false by {
                    lemma_register_request_layout(s@, u, c, t, ns);
                    crate::text::lemma_dec_digits_inj(n_u as nat, u as nat);
                    assert(a2 == 22 + dec_digits(u as nat).len());
                    assert(a2 + c.len() + 2 <= s@.len());
                    assert(s@.subrange(a2 as int, a2 + c.len() + 2) == jstr(c));
                }
            }
            return Err(DaemonError::ProtocolError(String::from_str("requête malformée")));
        },
    };
    let (context, a3) = ctx;
    let a4 = match parse_lit(s, a3, ",\"timeout_ms\":") {
        Some(p) => p,
        None => {
            proof {
                assert forall|u: u32, c: Seq<char>, t: u64, ns: u32|
                    plain(c) && s@ == register_request_text(u, c, t, ns) implies false by {
                    lemma_register_request_layout(s@, u, c, t, ns);
                    crate::text::lemma_dec_digits_inj(n_u as nat, u as nat);
                    assert(a2 == 22 + dec_digits(u as nat).len());
                    assert(a2 + c.len() + 2 <= s@.len());
                    assert(s@.subrange(a2 as int, a2 + c.len() + 2) == jstr(c));
                    assert(a3 == 24 + dec_digits(u as nat).len() + c.len());
                    reveal_strlit(",\"timeout_ms\":");
                }
            }
            return Err(DaemonError::ProtocolError(String::from_str("requête malformée")));
        },
    };
    proof {
        reveal_strlit(",\"timeout_ms\":");
    }
    let nt = match parse_u64(s, a4) {
        Some(x) => x,
        None => {
            proof {
                assert forall|u: u32, c: Seq<char>, t: u64, ns: u32|
                    plain(c) && s@ == register_request_text(u, c, t, ns) implies false by {
                    lemma_register_request_layout(s@, u, c, t, ns);
                    crate::text::lemma_dec_digits_inj(n_u as nat, u as nat);
                    assert(a2 == 22 + dec_digits(u as nat).len());
                    assert(a2 + c.len() + 2 <= s@.len());
                    assert(s@.subrange(a2 as int, a2 + c.len() + 2) == jstr(c));
                    assert(a4 == 38 + dec_digits(u as nat).len() + c.len());
                    assert((t as nat) <= u64::MAX as nat);
                }
            }
            return Err(DaemonError::ProtocolError(String::from_str("requête malformée")));
        },
    };
    let (n_t, a5) = nt;
    let a6 = match parse_lit(s, a5, ",\"num_samples\":") {
        Some(p) => p,
        None => {
            proof {
                assert forall|u: u32, c: Seq<char>, t: u64, ns: u32|
                    plain(c) && s@ == register_request_text(u, c, t, ns) implies false by {
                    lemma_register_request_layout(s@, u, c, t, ns);
                    crate::text::lemma_dec_digits_inj(n_u as nat, u as nat);
                    assert(a2 == 22 + dec_digits(u as nat).len());
                    assert(a2 + c.len() + 2 <= s@.len());
                    assert(s@.subrange(a2 as int, a2 + c.len() + 2) == jstr(c));
                    assert(a4 == 38 + dec_digits(u as nat).len() + c.len());
                    crate::text::lemma_dec_digits_inj(n_t as nat, t as nat);
                    assert(a5 == 38 + dec_digits(u as nat).len() + c.len() + dec_digits(
                        t as nat,
                    ).len());
                    reveal_strlit(",\"num_samples\":");
                }
            }
            return Err(DaemonError::ProtocolError(String::from_str("requête malformée")));
        },
    };
    proof {
        reveal_strlit(",\"num_samples\":");
    }
    let nn = match parse_u64(s, a6) {
        Some(x) => x,
        None => {
            proof {
                assert forall|u: u32, c: Seq<char>, t: u64, ns: u32|
                    plain(c) && s@ == register_request_text(u, c, t, ns) implies false by {
                    lemma_register_request_layout(s@, u, c, t, ns);
                    crate::text::lemma_dec_digits_inj(n_u as nat, u as nat);
                    assert(a2 == 22 + dec_digits(u as nat).len());
                    assert(a2 + c.len() + 2 <= s@.len());
                    assert(s@.subrange(a2 as int, a2 + c.len() + 2) == jstr(c));
                    assert(a4 == 38 + dec_digits(u as nat).len() + c.len());
                    crate::text::lemma_dec_digits_inj(n_t as nat, t as nat);
                    assert(a6 == 53 + dec_digits(u as nat).len() + c.len() + dec_digits(
                        t as nat,
                    ).len());
                    assert((ns as nat) <= u64::MAX as nat);
                }
            }
            return Err(DaemonError::ProtocolError(String::from_str("requête malformée")));
        },
    };
    let (n_n, a7) = nn;
    let a8 = match parse_lit(s, a7, "}") {
        Some(p) => p,
        None => {
            proof {
                assert forall|u: u32, c: Seq<char>, t: u64, ns: u32|
                    plain(c) && s@ == register_request_text(u, c, t, ns) implies false by {
                    lemma_register_request_layout(s@, u, c, t, ns);
                    crate::text::lemma_dec_digits_inj(n_u as nat, u as nat);
                    assert(a2 == 22 + dec_digits(u as nat).len());
                    assert(a2 + c.len() + 2 <= s@.len());
                    assert(s@.subrange(a2 as int, a2 + c.len() + 2) == jstr(c));
                    assert(a4 == 38 + dec_digits(u as nat).len() + c.len());
                    crate::text::lemma_dec_digits_inj(n_t as nat, t as nat);
                    assert(a6 == 53 + dec_digits(u as nat).len() + c.len() + dec_digits(
                        t as nat,
                    ).len());
                    crate::text::lemma_dec_digits_inj(n_n as nat, ns as nat);
                    assert(a7 == s@.len() - 1);
                    reveal_strlit("}");
                }
            }
            return Err(DaemonError::ProtocolError(String::from_str("requête malformée")));
        },
    };
    proof {
        reveal_strlit("}");
    }
    if n_n > 0xFFFF_FFFF {
        proof {
            assert forall|u: u32, c: Seq<char>, t: u64, ns: u32|
                plain(c) && s@ == register_request_text(u, c, t, ns) implies false by {
                lemma_register_request_layout(s@, u, c, t, ns);
                crate::text::lemma_dec_digits_inj(n_u as nat, u as nat);
                assert(a2 == 22 + dec_digits(u as nat).len());
                assert(a2 + c.len() + 2 <= s@.len());
                assert(s@.subrange(a2 as int, a2 + c.len() + 2) == jstr(c));
                assert(a4 == 38 + dec_digits(u as nat).len() + c.len());
                crate::text::lemma_dec_digits_inj(n_t as nat, t as nat);
                assert(a6 == 53 + dec_digits(u as nat).len() + c.len() + dec_digits(
                    t as nat,
                ).len());
                crate::text::lemma_dec_digits_inj(n_n as nat, ns as nat);
            }
        }
        return Err(DaemonError::ProtocolError(String::from_str("requête malformée")));
    }
    let sl = s.unicode_len();
    if a8 != sl {
        proof {
            assert forall|u: u32, c: Seq<char>, t: u64, ns: u32|
                plain(c) && s@ == register_request_text(u, c, t, ns) implies false by {
                lemma_register_request_layout(s@, u, c, t, ns);
                crate::text::lemma_dec_digits_inj(n_u as nat, u as nat);
                assert(a2 == 22 + dec_digits(u as nat).len());
                assert(a2 + c.len() + 2 <= s@.len());
                assert(s@.subrange(a2 as int, a2 + c.len() + 2) == jstr(c));
                assert(a4 == 38 + dec_digits(u as nat).len() + c.len());
                crate::text::lemma_dec_digits_inj(n_t as nat, t as nat);
                assert(a6 == 53 + dec_digits(u as nat).len() + c.len() + dec_digits(
                    t as nat,
                ).len());
                crate::text::lemma_dec_digits_inj(n_n as nat, ns as nat);
                assert(a8 == s@.len());
            }
        }
        return Err(DaemonError::ProtocolError(String::from_str("requête malformée")));
    }
    let req = RegisterFaceRequest {
        user_id: n_u as u32,
        context,
        timeout_ms: n_t,
        num_samples: n_n as u32,
    };
    proof {
        assert(s@ =~= s@.subrange(0, p1 as int) + s@.subrange(p1 as int, a1 as int) + s@.subrange(
            a1 as int,
            a2 as int,
        ) + s@.subrange(a2 as int, a3 as int) + s@.subrange(a3 as int, a4 as int) + s@.subrange(
            a4 as int,
            a5 as int,
        ) + s@.subrange(a5 as int, a6 as int) + s@.subrange(a6 as int, a7 as int) + s@.subrange(
            a7 as int,
            a8 as int,
        ));
        assert((n_u as u32) as nat == n_u as nat);
        assert((n_n as u32) as nat == n_n as nat);
        assert(s@ == register_request_text(
            req.user_id,
            req.context@,
            req.timeout_ms,
            req.num_samples,
        ));
        assert forall|u: u32, c: Seq<char>, t: u64, ns: u32|
            plain(c) && s@ == register_request_text(u, c, t, ns) implies req.user_id == u
            && req.context@ == c && req.timeout_ms == t && req.num_samples == ns by {
            lemma_register_request_layout(s@, u, c, t, ns);
            crate::text::lemma_dec_digits_inj(n_u as nat, u as nat);
            assert(a2 == 22 + dec_digits(u as nat).len());
            assert(a2 + c.len() + 2 <= s@.len());
            assert(s@.subrange(a2 as int, a2 + c.len() + 2) == jstr(c));
            assert(context@ == c);
            assert(a4 == 38 + dec_digits(u as nat).len() + c.len());
            crate::text::lemma_dec_digits_inj(n_t as nat, t as nat);
            assert(a6 == 53 + dec_digits(u as nat).len() + c.len() + dec_digits(t as nat).len());
            crate::text::lemma_dec_digits_inj(n_n as nat, ns as nat);
        }
    }
    Ok(req)
}

/// Parse a verification request: the bridge request shape under the
/// service API's name.
pub fn parse_verify_request(s: &str) -> (r: Result<VerifyRequest, DaemonError>)
    ensures
        r matches Ok(req) ==> plain(req.context@) && s@ == verify_request_text(
            req.user_id,
            req.context@,
            req.timeout_ms,
        ),
        forall|u: u32, c: Seq<char>, t: u64|
            plain(c) && s@ == verify_request_text(u, c, t) ==> (r matches Ok(req) && req.user_id
                == u && req.context@ == c && req.timeout_ms == t),
        r matches Err(e) ==> e matches DaemonError::ProtocolError(_),
{
    match parse_helper_request(s) {
        Ok(b) => Ok(
            VerifyRequest { user_id: b.user_id, context: b.context, timeout_ms: b.timeout_ms },
        ),
        Err(e) => Err(e),
    }
}

/// Layout of a canonical deletion request.
proof fn lemma_delete_request_layout(s: Seq<char>, u: u32, fid: Option<Seq<char>>)
    requires
        (fid matches Some(f) ==> plain(f)),
        s == delete_request_text(u, fid),
    ensures
        s.subrange(0, 11) == "{\"user_id\":"@,
        digit_run_end(s, 11) == 11 + dec_digits(u as nat).len() as int,
        s.subrange(11, digit_run_end(s, 11)) == dec_digits(u as nat),
        is_dec_digit(s[11]),
        s[11] != '0' || digit_run_end(s, 11) == 12,
        dec_value(s.subrange(11, digit_run_end(s, 11))) == u as nat,
        s.subrange(
            11 + dec_digits(u as nat).len() as int,
            22 + dec_digits(u as nat).len() as int,
        ) == ",\"face_id\":"@,
        fid is None ==> s.len() == 27 + dec_digits(u as nat).len() as int && s.subrange(
            22 + dec_digits(u as nat).len() as int,
            26 + dec_digits(u as nat).len() as int,
        ) == "null"@,
        fid matches Some(f) ==> s.len() == 25 + dec_digits(u as nat).len() as int + f.len() as int
            && s.subrange(
            22 + dec_digits(u as nat).len() as int,
            24 + dec_digits(u as nat).len() as int + f.len() as int,
        ) == jstr(f) && s[22 + dec_digits(u as nat).len() as int] == '"',
        s.subrange(s.len() - 1, s.len() as int) == "}"@,
{
    reveal_strlit("{\"user_id\":");
    reveal_strlit(",\"face_id\":");
    reveal_strlit("null");
    reveal_strlit("}");
    lemma_dec_digits_shape(u as nat);
    let d1 = dec_digits(u as nat);
    let p2 = 11 + d1.len() as int;
    let p3 = p2 + 11;
    assert(s.subrange(0, 11) =~= "{\"user_id\":"@);
    assert(s.subrange(11, p2) =~= d1);
    assert(s[p2] == ',');
    assert(!is_dec_digit(','));
    lemma_run_end_of(s, 11, p2);
    assert(s.subrange(p2, p3) =~= ",\"face_id\":"@);
    match fid {
        Some(f) => {
            let p4 = p3 + f.len() + 2;
            assert(s.len() == p4 + 1);
            assert(s.subrange(p3, p4) =~= jstr(f));
            assert(s[p3] == jstr(f)[0]);
            assert(s.subrange(p4, p4 + 1) =~= "}"@);
        },
        None => {
            let p4 = p3 + 4;
            assert(s.len() == p4 + 1);
            assert(s.subrange(p3, p4) =~= "null"@);
            assert(s.subrange(p4, p4 + 1) =~= "}"@);
        },
    }
}

/// The option of a face id at spec level.
pub open spec fn fid_view(fid: Option<String>) -> Option<Seq<char>> {
    match fid {
        Some(f) => Some(f@),
        None => None,
    }
}

/// Parse a deletion request; succeeds exactly on the canonical text of
/// one, and returns exactly the identity and optional face id whose
/// text it was.
#[verifier::rlimit(100)]
pub fn parse_delete_request(s: &str) -> (r: Result<DeleteFaceRequest, DaemonError>)
    ensures
        r matches Ok(req) ==> (req.face_id matches Some(f) ==> plain(f@)) && s@
            == delete_request_text(req.user_id, fid_view(req.face_id)),
        forall|u: u32, fid: Option<Seq<char>>|
            (fid matches Some(f) ==> plain(f)) && s@ == delete_request_text(u, fid) ==> (r matches
                Ok(req) && req.user_id == u && fid_view(req.face_id) == fid),
        r matches Err(e) ==> e matches DaemonError::ProtocolError(_),
{
    let p1 = match parse_lit(s, 0, "{\"user_id\":") {
        Some(p) => p,
        None => {
            proof {
                assert forall|u: u32, fid: Option<Seq<char>>|
                    (fid matches Some(f) ==> plain(f)) && s@ == delete_request_text(
                        u,
                        fid,
                    ) implies false by {
                    lemma_delete_request_layout(s@, u, fid);
                    reveal_strlit("null");
                    reveal_strlit("null}");
                    reveal_strlit("}");
                    reveal_strlit("{\"user_id\":");
                    assert(11 + dec_digits(u as nat).len() + 11 + 1 <= s@.len());
                }
            }
            return Err(DaemonError::ProtocolError(String::from_str("requête malformée")));
        },
    };
    proof {
        reveal_strlit("{\"user_id\":");
    }
    let nu = match parse_u64(s, p1) {
        Some(x) => x,
        None => {
            proof {
                assert forall|u: u32, fid: Option<Seq<char>>|
                    (fid matches Some(f) ==> plain(f)) && s@ == delete_request_text(
                        u,
                        fid,
                    ) implies false by {
                    lemma_delete_request_layout(s@, u, fid);
                    reveal_strlit("null");
                    reveal_strlit("null}");
                    reveal_strlit("}");
                    assert(11 + dec_digits(u as nat).len() + 11 + 1 <= s@.len());
                    assert((u as nat) <= u64::MAX as nat);
                }
            }
            return Err(DaemonError::ProtocolError(String::from_str("requête malformée")));
        },
    };
    let (n_u, a1) = nu;
    if n_u > 0xFFFF_FFFF {
        proof {
            assert forall|u: u32, fid: Option<Seq<char>>|
                (fid matches Some(f) ==> plain(f)) && s@ == delete_request_text(
                    u,
                    fid,
                ) implies false by {
                lemma_delete_request_layout(s@, u, fid);
                    reveal_strlit("null");
                    reveal_strlit("null}");
                    reveal_strlit("}");
                crate::text::lemma_dec_digits_inj(n_u as nat, u as nat);
            }
        }
        return Err(DaemonError::ProtocolError(String::from_str("requête malformée")));
    }
    let a2 = match parse_lit(s, a1, ",\"face_id\":") {
        Some(p) => p,
        None => {
            proof {
                assert forall|u: u32, fid: Option<Seq<char>>|
                    (fid matches Some(f) ==> plain(f)) && s@ == delete_request_text(
                        u,
                        fid,
                    ) implies false by {
                    lemma_delete_request_layout(s@, u, fid);
                    reveal_strlit("null");
                    reveal_strlit("null}");
                    reveal_strlit("}");
                    crate::text::lemma_dec_digits_inj(n_u as nat, u as nat);
                    assert(a1 == 11 + dec_digits(u as nat).len());
                    reveal_strlit(",\"face_id\":");
                    assert(a1 + 11 + 1 <= s@.len());
                }
            }
            return Err(DaemonError::ProtocolError(String::from_str("requête malformée")));
        },
    };
    proof {
        reveal_strlit(",\"face_id\":");
    }
    let sl = s.unicode_len();
    match parse_lit(s, a2, "null}") {
        Some(a3) => {
            proof {
                reveal_strlit("null}");
            }
            if a3 != sl {
                proof {
                    assert forall|u: u32, fid: Option<Seq<char>>|
                        (fid matches Some(f) ==> plain(f)) && s@ == delete_request_text(
                            u,
                            fid,
                        ) implies false by {
                        lemma_delete_request_layout(s@, u, fid);
                    reveal_strlit("null");
                    reveal_strlit("null}");
                    reveal_strlit("}");
                        crate::text::lemma_dec_digits_inj(n_u as nat, u as nat);
                        assert(a2 == 22 + dec_digits(u as nat).len());
                        match fid {
                            None => {
                                assert(a3 == s@.len());
                            },
                            Some(f) => {
                                assert(s@[a2 as int] == '"');
                                assert(s@.subrange(a2 as int, a2 + 5)[0] == '"');
                            },
                        }
                    }
                }
                return Err(
                    DaemonError::ProtocolError(String::from_str("requête malformée")),
                );
            }
            let req = DeleteFaceRequest { user_id: n_u as u32, face_id: None };
            proof {
                assert(s@ =~= s@.subrange(0, p1 as int) + s@.subrange(p1 as int, a1 as int)
                    + s@.subrange(a1 as int, a2 as int) + s@.subrange(a2 as int, a3 as int));
                reveal_strlit("null");
                reveal_strlit("null}");
                reveal_strlit("}");
                assert(s@.subrange(a2 as int, a3 as int) =~= "null"@ + "}"@);
                assert((n_u as u32) as nat == n_u as nat);
                assert(s@ =~= delete_request_text(req.user_id, fid_view(req.face_id)));
                assert forall|u: u32, fid: Option<Seq<char>>|
                    (fid matches Some(f) ==> plain(f)) && s@ == delete_request_text(
                        u,
                        fid,
                    ) implies req.user_id == u && fid_view(req.face_id) == fid by {
                    lemma_delete_request_layout(s@, u, fid);
                    reveal_strlit("null");
                    reveal_strlit("null}");
                    reveal_strlit("}");
                    crate::text::lemma_dec_digits_inj(n_u as nat, u as nat);
                    assert(a2 == 22 + dec_digits(u as nat).len());
                    if let Some(f) = fid {
                        assert(s@[a2 as int] == '"');
                        assert(s@.subrange(a2 as int, a2 + 5)[0] == '"');
                        assert(false);
                    }
                }
            }
            Ok(req)
        },
        None => {
            proof {
                reveal_strlit("null}");
            }
            let fidp = match parse_plain_string(s, a2) {
                Some(x) => x,
                None => {
                    proof {
                        assert forall|u: u32, fid: Option<Seq<char>>|
                            (fid matches Some(f) ==> plain(f)) && s@ == delete_request_text(
                                u,
                                fid,
                            ) implies false by {
                            lemma_delete_request_layout(s@, u, fid);
                    reveal_strlit("null");
                    reveal_strlit("null}");
                    reveal_strlit("}");
                            crate::text::lemma_dec_digits_inj(n_u as nat, u as nat);
                            assert(a2 == 22 + dec_digits(u as nat).len());
                            match fid {
                                Some(f) => {
                                    assert(a2 + f.len() + 2 <= s@.len());
                                    assert(s@.subrange(a2 as int, a2 + f.len() + 2) == jstr(f));
                                },
                                None => {
                                    assert(s@.subrange(a2 as int, a2 + 4) == "null"@);
                                    assert(s@.subrange(
                                        a2 as int,
                                        a2 + 5,
                                    ) =~= "null}"@);
                                },
                            }
                        }
                    }
                    return Err(
                        DaemonError::ProtocolError(String::from_str("requête malformée")),
                    );
                },
            };
            let (face_id, a3) = fidp;
            let a4 = match parse_lit(s, a3, "}") {
                Some(p) => p,
                None => {
                    proof {
                        assert forall|u: u32, fid: Option<Seq<char>>|
                            (fid matches Some(f) ==> plain(f)) && s@ == delete_request_text(
                                u,
                                fid,
                            ) implies false by {
                            lemma_delete_request_layout(s@, u, fid);
                    reveal_strlit("null");
                    reveal_strlit("null}");
                    reveal_strlit("}");
                            crate::text::lemma_dec_digits_inj(n_u as nat, u as nat);
                            assert(a2 == 22 + dec_digits(u as nat).len());
                            reveal_strlit("}");
                            match fid {
                                Some(f) => {
                                    assert(a2 + f.len() + 2 <= s@.len());
                                    assert(s@.subrange(a2 as int, a2 + f.len() + 2) == jstr(f));
                                    assert(a3 == s@.len() - 1);
                                },
                                None => {
                                    assert(s@.subrange(a2 as int, a2 + 4) == "null"@);
                                    assert(s@.subrange(a2 as int, a2 + 5) =~= "null}"@);
                                },
                            }
                        }
                    }
                    return Err(
                        DaemonError::ProtocolError(String::from_str("requête malformée")),
                    );
                },
            };
            proof {
                reveal_strlit("}");
            }
            if a4 != sl {
                proof {
                    assert forall|u: u32, fid: Option<Seq<char>>|
                        (fid matches Some(f) ==> plain(f)) && s@ == delete_request_text(
                            u,
                            fid,
                        ) implies false by {
                        lemma_delete_request_layout(s@, u, fid);
                    reveal_strlit("null");
                    reveal_strlit("null}");
                    reveal_strlit("}");
                        crate::text::lemma_dec_digits_inj(n_u as nat, u as nat);
                        assert(a2 == 22 + dec_digits(u as nat).len());
                        match fid {
                            Some(f) => {
                                assert(a2 + f.len() + 2 <= s@.len());
                                assert(s@.subrange(a2 as int, a2 + f.len() + 2) == jstr(f));
                                assert(a4 == s@.len());
                            },
                            None => {
                                assert(s@.subrange(a2 as int, a2 + 4) == "null"@);
                                assert(s@.subrange(a2 as int, a2 + 5) =~= "null}"@);
                            },
                        }
                    }
                }
                return Err(
                    DaemonError::ProtocolError(String::from_str("requête malformée")),
                );
            }
            let req = DeleteFaceRequest { user_id: n_u as u32, face_id: Some(face_id) };
            proof {
                assert(s@ =~= s@.subrange(0, p1 as int) + s@.subrange(p1 as int, a1 as int)
                    + s@.subrange(a1 as int, a2 as int) + s@.subrange(a2 as int, a3 as int)
                    + s@.subrange(a3 as int, a4 as int));
                assert((n_u as u32) as nat == n_u as nat);
                assert(s@ == delete_request_text(req.user_id, fid_view(req.face_id)));
                assert forall|u: u32, fid: Option<Seq<char>>|
                    (fid matches Some(f) ==> plain(f)) && s@ == delete_request_text(
                        u,
                        fid,
                    ) implies req.user_id == u && fid_view(req.face_id) == fid by {
                    lemma_delete_request_layout(s@, u, fid);
                    reveal_strlit("null");
                    reveal_strlit("null}");
                    reveal_strlit("}");
                    crate::text::lemma_dec_digits_inj(n_u as nat, u as nat);
                    assert(a2 == 22 + dec_digits(u as nat).len());
                    match fid {
                        Some(f) => {
                            assert(a2 + f.len() + 2 <= s@.len());
                            assert(s@.subrange(a2 as int, a2 + f.len() + 2) == jstr(f));
                        },
                        None => {
                            assert(s@.subrange(a2 as int, a2 + 4) == "null"@);
                            assert(s@.subrange(a2 as int, a2 + 5) =~= "null}"@);
                        },
                    }
                }
            }
            Ok(req)
        },
    }
}

/// Layout of a canonical enrollment answer.
proof fn lemma_register_response_layout(s: Seq<char>, f: Seq<char>, t: u64, q: i64)
    requires
        plain(f),
        0 <= q,
        s == register_response_text(f, t, q),
    ensures
        s.len() == 48 + f.len() as int + dec_digits(t as nat).len() as int + score6_text(
            q,
        ).len() as int,
        s.subrange(0, 11) == "{\"face_id\":"@,
        s.subrange(11, 13 + f.len() as int) == jstr(f),
        s.subrange(13 + f.len() as int, 30 + f.len() as int) == ",\"registered_at\":"@,
        digit_run_end(s, 30 + f.len() as int) == 30 + f.len() as int + dec_digits(
            t as nat,
        ).len() as int,
        s.subrange(
            30 + f.len() as int,
            30 + f.len() as int + dec_digits(t as nat).len() as int,
        ) == dec_digits(t as nat),
        is_dec_digit(s[30 + f.len() as int]),
        s[30 + f.len() as int] != '0' || digit_run_end(s, 30 + f.len() as int) == 31
            + f.len() as int,
        dec_value(
            s.subrange(30 + f.len() as int, digit_run_end(s, 30 + f.len() as int)),
        ) == t as nat,
        ({
            let p4 = 30 + f.len() as int + dec_digits(t as nat).len() as int;
            &&& s.subrange(p4, p4 + 17) == ",\"quality_score\":"@
            &&& p4 + 17 + score6_text(q).len() as int <= s.len()
            &&& s.subrange(p4 + 17, p4 + 17 + score6_text(q).len() as int) == score6_text(q)
        }),
        s.subrange(s.len() - 1, s.len() as int) == "}"@,
{
    reveal_strlit("{\"face_id\":");
    reveal_strlit(",\"registered_at\":");
    reveal_strlit(",\"quality_score\":");
    reveal_strlit("}");
    lemma_dec_digits_shape(t as nat);
    let d1 = dec_digits(t as nat);
    let p2 = 13 + f.len() as int;
    let p3 = p2 + 17;
    let p4 = p3 + d1.len() as int;
    let p5 = p4 + 17;
    let p6 = p5 + score6_text(q).len() as int;
    assert(s.len() == p6 + 1);
    assert(s.subrange(0, 11) =~= "{\"face_id\":"@);
    assert(s.subrange(11, p2) =~= jstr(f));
    assert(s.subrange(p2, p3) =~= ",\"registered_at\":"@);
    assert(s.subrange(p3, p4) =~= d1);
    assert(s[p4] == ',');
    assert(!is_dec_digit(','));
    lemma_run_end_of(s, p3, p4);
    assert(s.subrange(p4, p5) =~= ",\"quality_score\":"@);
    assert(s.subrange(p5, p6) =~= score6_text(q));
    assert(s[p6] == '}');
    assert(s.subrange(p6, p6 + 1) =~= "}"@);
}

/// Parse an enrollment answer; succeeds exactly on the canonical text
/// of one, and returns exactly the values whose text it was.
#[verifier::rlimit(100)]
pub fn parse_register_response(s: &str) -> (r: Result<RegisterFaceResponse, DaemonError>)
    ensures
        r matches Ok(resp) ==> plain(resp.face_id@) && 0 <= resp.quality_ppm && s@
            == register_response_text(resp.face_id@, resp.registered_at, resp.quality_ppm),
        forall|f: Seq<char>, t: u64, q: i64|
            plain(f) && 0 <= q && s@ == register_response_text(f, t, q) ==> (r matches Ok(resp)
                && resp.face_id@ == f && resp.registered_at == t && resp.quality_ppm == q),
        r matches Err(e) ==> e matches DaemonError::ProtocolError(_),
{
    let p1 = match parse_lit(s, 0, "{\"face_id\":") {
        Some(p) => p,
        None => {
            proof {
                assert forall|f: Seq<char>, t: u64, q: i64|
                    plain(f) && 0 <= q && s@ == register_response_text(f, t, q) implies false by {
                    lemma_register_response_layout(s@, f, t, q);
                    reveal_strlit("{\"face_id\":");
                }
            }
            return Err(DaemonError::ProtocolError(String::from_str("réponse malformée")));
        },
    };
    proof {
        reveal_strlit("{\"face_id\":");
    }
    let fid = match parse_plain_string(s, p1) {
        Some(x) => x,
        None => {
            proof {
                assert forall|f: Seq<char>, t: u64, q: i64|
                    plain(f) && 0 <= q && s@ == register_response_text(f, t, q) implies false by {
                    lemma_register_response_layout(s@, f, t, q);
                    assert(p1 + f.len() + 2 <= s@.len());
                    assert(s@.subrange(p1 as int, p1 + f.len() + 2) == jstr(f));
                }
            }
            return Err(DaemonError::ProtocolError(String::from_str("réponse malformée")));
        },
    };
    let (face_id, a1) = fid;
    let a2 = match parse_lit(s, a1, ",\"registered_at\":") {
        Some(p) => p,
        None => {
            proof {
                assert forall|f: Seq<char>, t: u64, q: i64|
                    plain(f) && 0 <= q && s@ == register_response_text(f, t, q) implies false by {
                    lemma_register_response_layout(s@, f, t, q);
                    assert(p1 + f.len() + 2 <= s@.len());
                    assert(s@.subrange(p1 as int, p1 + f.len() + 2) == jstr(f));
                    assert(a1 == 13 + f.len());
                    reveal_strlit(",\"registered_at\":");
                }
            }
            return Err(DaemonError::ProtocolError(String::from_str("réponse malformée")));
        },
    };
    proof {
        reveal_strlit(",\"registered_at\":");
    }
    let nt = match parse_u64(s, a2) {
        Some(x) => x,
        None => {
            proof {
                assert forall|f: Seq<char>, t: u64, q: i64|
                    plain(f) && 0 <= q && s@ == register_response_text(f, t, q) implies false by {
                    lemma_register_response_layout(s@, f, t, q);
                    assert(p1 + f.len() + 2 <= s@.len());
                    assert(s@.subrange(p1 as int, p1 + f.len() + 2) == jstr(f));
                    assert(a2 == 30 + f.len());
                    assert((t as nat) <= u64::MAX as nat);
                }
            }
            return Err(DaemonError::ProtocolError(String::from_str("réponse malformée")));
        },
    };
    let (n_t, a3) = nt;
    let a4 = match parse_lit(s, a3, ",\"quality_score\":") {
        Some(p) => p,
        None => {
            proof {
                assert forall|f: Seq<char>, t: u64, q: i64|
                    plain(f) && 0 <= q && s@ == register_response_text(f, t, q) implies false by {
                    lemma_register_response_layout(s@, f, t, q);
                    assert(p1 + f.len() + 2 <= s@.len());
                    assert(s@.subrange(p1 as int, p1 + f.len() + 2) == jstr(f));
                    assert(a2 == 30 + f.len());
                    crate::text::lemma_dec_digits_inj(n_t as nat, t as nat);
                    assert(a3 == 30 + f.len() + dec_digits(t as nat).len());
                    reveal_strlit(",\"quality_score\":");
                }
            }
            return Err(DaemonError::ProtocolError(String::from_str("réponse malformée")));
        },
    };
    proof {
        reveal_strlit(",\"quality_score\":");
    }
    let qp = match parse_score6(s, a4) {
        Some(x) => x,
        None => {
            proof {
                assert forall|f: Seq<char>, t: u64, q: i64|
                    plain(f) && 0 <= q && s@ == register_response_text(f, t, q) implies false by {
                    lemma_register_response_layout(s@, f, t, q);
                    assert(p1 + f.len() + 2 <= s@.len());
                    assert(s@.subrange(p1 as int, p1 + f.len() + 2) == jstr(f));
                    assert(a2 == 30 + f.len());
                    crate::text::lemma_dec_digits_inj(n_t as nat, t as nat);
                    assert(a4 == 47 + f.len() + dec_digits(t as nat).len());
                }
            }
            return Err(DaemonError::ProtocolError(String::from_str("réponse malformée")));
        },
    };
    let (quality, a5) = qp;
    let a6 = match parse_lit(s, a5, "}") {
        Some(p) => p,
        None => {
            proof {
                assert forall|f: Seq<char>, t: u64, q: i64|
                    plain(f) && 0 <= q && s@ == register_response_text(f, t, q) implies false by {
                    lemma_register_response_layout(s@, f, t, q);
                    assert(p1 + f.len() + 2 <= s@.len());
                    assert(s@.subrange(p1 as int, p1 + f.len() + 2) == jstr(f));
                    assert(a2 == 30 + f.len());
                    crate::text::lemma_dec_digits_inj(n_t as nat, t as nat);
                    assert(a4 == 47 + f.len() + dec_digits(t as nat).len());
                    assert(a5 == s@.len() - 1);
                    reveal_strlit("}");
                }
            }
            return Err(DaemonError::ProtocolError(String::from_str("réponse malformée")));
        },
    };
    proof {
        reveal_strlit("}");
    }
    let sl = s.unicode_len();
    if a6 != sl {
        proof {
            assert forall|f: Seq<char>, t: u64, q: i64|
                plain(f) && 0 <= q && s@ == register_response_text(f, t, q) implies false by {
                lemma_register_response_layout(s@, f, t, q);
                assert(p1 + f.len() + 2 <= s@.len());
                assert(s@.subrange(p1 as int, p1 + f.len() + 2) == jstr(f));
                assert(a2 == 30 + f.len());
                crate::text::lemma_dec_digits_inj(n_t as nat, t as nat);
                assert(a4 == 47 + f.len() + dec_digits(t as nat).len());
                assert(a6 == s@.len());
            }
        }
        return Err(DaemonError::ProtocolError(String::from_str("réponse malformée")));
    }
    let resp = RegisterFaceResponse { face_id, registered_at: n_t, quality_ppm: quality };
    proof {
        assert(s@ =~= s@.subrange(0, p1 as int) + s@.subrange(p1 as int, a1 as int) + s@.subrange(
            a1 as int,
            a2 as int,
        ) + s@.subrange(a2 as int, a3 as int) + s@.subrange(a3 as int, a4 as int) + s@.subrange(
            a4 as int,
            a5 as int,
        ) + s@.subrange(a5 as int, a6 as int));
        assert(s@ == register_response_text(resp.face_id@, resp.registered_at, resp.quality_ppm));
        assert forall|f: Seq<char>, t: u64, q: i64|
            plain(f) && 0 <= q && s@ == register_response_text(f, t, q) implies resp.face_id@ == f
            && resp.registered_at == t && resp.quality_ppm == q by {
            lemma_register_response_layout(s@, f, t, q);
            assert(p1 + f.len() + 2 <= s@.len());
            assert(s@.subrange(p1 as int, p1 + f.len() + 2) == jstr(f));
            assert(face_id@ == f);
            assert(a2 == 30 + f.len());
            crate::text::lemma_dec_digits_inj(n_t as nat, t as nat);
            assert(a4 == 47 + f.len() + dec_digits(t as nat).len());
        }
    }
    Ok(resp)
}

/// The canonical text of a face record's metadata file.
pub open spec fn face_record_text(
    face_id: Seq<char>,
    user_id: u32,
    embedding_json: Seq<char>,
    quality_ppm: i64,
    registered_at: u64,
    context: Seq<char>,
) -> Seq<char> {
    "{\"face_id\":"@ + jstr(face_id) + ",\"user_id\":"@ + dec_digits(user_id as nat)
        + ",\"embedding_json\":"@ + jstr(embedding_json) + ",\"quality_score\":"@ + score6_text(
        quality_ppm,
    ) + ",\"registered_at\":"@ + dec_digits(registered_at as nat) + ",\"context\":"@ + jstr(
        context,
    ) + "}"@
}

/// Serialize a face record's metadata.
pub fn encode_face_record(rec: &FaceRecord) -> (r: Result<String, DaemonError>)
    requires
        rec.wf(),
    ensures
        r is Ok <==> (plain(rec.face_id@) && plain(rec.embedding_json@) && plain(rec.context@)),
        r matches Ok(t) ==> t@ == face_record_text(
            rec.face_id@,
            rec.user_id,
            rec.embedding_json@,
            rec.quality_ppm,
            rec.registered_at,
            rec.context@,
        ),
        r matches Err(e) ==> e matches DaemonError::ProtocolError(_),
{
    if !is_plain_str(rec.face_id.as_str()) || !is_plain_str(rec.embedding_json.as_str())
        || !is_plain_str(rec.context.as_str()) {
        return Err(
            DaemonError::ProtocolError(String::from_str("enregistrement non transportable")),
        );
    }
    let mut out = String::from_str("{\"face_id\":\"");
    out.append(rec.face_id.as_str());
    out.append("\",\"user_id\":");
    let d1 = u64_to_dec(rec.user_id as u64);
    out.append(d1.as_str());
    out.append(",\"embedding_json\":\"");
    out.append(rec.embedding_json.as_str());
    out.append("\",\"quality_score\":");
    let q = format_score6(rec.quality_ppm);
    out.append(q.as_str());
    out.append(",\"registered_at\":");
    let d2 = u64_to_dec(rec.registered_at);
    out.append(d2.as_str());
    out.append(",\"context\":\"");
    out.append(rec.context.as_str());
    out.append("\"}");
    proof {
        reveal_strlit("{\"face_id\":\"");
        reveal_strlit("{\"face_id\":");
        reveal_strlit("\",\"user_id\":");
        reveal_strlit(",\"user_id\":");
        reveal_strlit(",\"embedding_json\":\"");
        reveal_strlit(",\"embedding_json\":");
        reveal_strlit("\",\"quality_score\":");
        reveal_strlit(",\"quality_score\":");
        reveal_strlit(",\"registered_at\":");
        reveal_strlit(",\"context\":\"");
        reveal_strlit(",\"context\":");
        reveal_strlit("\"}");
        reveal_strlit("\"");
        reveal_strlit("}");
        assert(out@ =~= face_record_text(
            rec.face_id@,
            rec.user_id,
            rec.embedding_json@,
            rec.quality_ppm,
            rec.registered_at,
            rec.context@,
        ));
    }
    Ok(out)
}

/// Layout of a canonical face-record text.
proof fn lemma_face_record_layout(
    s: Seq<char>,
    fid: Seq<char>,
    u: u32,
    ej: Seq<char>,
    q: i64,
    t: u64,
    c: Seq<char>,
)
    requires
        plain(fid),
        plain(ej),
        plain(c),
        0 <= q,
        s == face_record_text(fid, u, ej, q, t, c),
    ensures
        s.subrange(0, 11) == "{\"face_id\":"@,
        11 + fid.len() as int + 2 <= s.len(),
        s.subrange(11, 13 + fid.len() as int) == jstr(fid),
        ({
            let p1 = 13 + fid.len() as int;
            &&& s.subrange(p1, p1 + 11) == ",\"user_id\":"@
            &&& digit_run_end(s, p1 + 11) == p1 + 11 + dec_digits(u as nat).len() as int
            &&& s.subrange(p1 + 11, p1 + 11 + dec_digits(u as nat).len() as int) == dec_digits(
                u as nat,
            )
            &&& is_dec_digit(s[p1 + 11])
            &&& (s[p1 + 11] != '0' || digit_run_end(s, p1 + 11) == p1 + 12)
            &&& dec_value(s.subrange(p1 + 11, digit_run_end(s, p1 + 11))) == u as nat
        }),
        ({
            let p2 = 24 + fid.len() as int + dec_digits(u as nat).len() as int;
            &&& s.subrange(p2, p2 + 18) == ",\"embedding_json\":"@
            &&& p2 + 18 + ej.len() as int + 2 <= s.len()
            &&& s.subrange(p2 + 18, p2 + 20 + ej.len() as int) == jstr(ej)
        }),
        ({
            let p3 = 44 + fid.len() as int + dec_digits(u as nat).len() as int + ej.len() as int;
            &&& s.subrange(p3, p3 + 17) == ",\"quality_score\":"@
            &&& p3 + 17 + score6_text(q).len() as int <= s.len()
            &&& s.subrange(p3 + 17, p3 + 17 + score6_text(q).len() as int) == score6_text(q)
        }),
        ({
            let p4 = 61 + fid.len() as int + dec_digits(u as nat).len() as int + ej.len() as int
                + score6_text(q).len() as int;
            &&& s.subrange(p4, p4 + 17) == ",\"registered_at\":"@
            &&& digit_run_end(s, p4 + 17) == p4 + 17 + dec_digits(t as nat).len() as int
            &&& s.subrange(p4 + 17, p4 + 17 + dec_digits(t as nat).len() as int) == dec_digits(
                t as nat,
            )
            &&& is_dec_digit(s[p4 + 17])
            &&& (s[p4 + 17] != '0' || digit_run_end(s, p4 + 17) == p4 + 18)
            &&& dec_value(s.subrange(p4 + 17, digit_run_end(s, p4 + 17))) == t as nat
        }),
        ({
            let p5 = 78 + fid.len() as int + dec_digits(u as nat).len() as int + ej.len() as int
                + score6_text(q).len() as int + dec_digits(t as nat).len() as int;
            &&& s.subrange(p5, p5 + 11) == ",\"context\":"@
            &&& p5 + 11 + c.len() as int + 2 + 1 == s.len()
            &&& s.subrange(p5 + 11, p5 + 13 + c.len() as int) == jstr(c)
        }),
        s.subrange(s.len() - 1, s.len() as int) == "}"@,
{
    reveal_strlit("{\"face_id\":");
    reveal_strlit(",\"user_id\":");
    reveal_strlit(",\"embedding_json\":");
    reveal_strlit(",\"quality_score\":");
    reveal_strlit(",\"registered_at\":");
    reveal_strlit(",\"context\":");
    reveal_strlit("}");
    lemma_dec_digits_shape(u as nat);
    lemma_dec_digits_shape(t as nat);
    let d1 = dec_digits(u as nat);
    let d2 = dec_digits(t as nat);
    let a1 = 11 + fid.len() as int + 2;
    let a2 = a1 + 11;
    let a3 = a2 + d1.len() as int;
    let a4 = a3 + 18;
    let a5 = a4 + ej.len() as int + 2;
    let a6 = a5 + 17;
    let a7 = a6 + score6_text(q).len() as int;
    let a8 = a7 + 17;
    let a9 = a8 + d2.len() as int;
    let a10 = a9 + 11;
    let a11 = a10 + c.len() as int + 2;
    assert(s.len() == a11 + 1);
    assert(s.subrange(0, 11) =~= "{\"face_id\":"@);
    assert(s.subrange(11, a1) =~= jstr(fid));
    assert(s.subrange(a1, a2) =~= ",\"user_id\":"@);
    assert(s.subrange(a2, a3) =~= d1);
    assert(s[a3] == ',');
    assert(!is_dec_digit(','));
    lemma_run_end_of(s, a2, a3);
    assert(s.subrange(a3, a4) =~= ",\"embedding_json\":"@);
    assert(s.subrange(a4, a5) =~= jstr(ej));
    assert(s.subrange(a5, a6) =~= ",\"quality_score\":"@);
    assert(s.subrange(a6, a7) =~= score6_text(q));
    assert(s.subrange(a7, a8) =~= ",\"registered_at\":"@);
    assert(s.subrange(a8, a9) =~= d2);
    assert(s[a9] == ',');
    lemma_run_end_of(s, a8, a9);
    assert(s.subrange(a9, a10) =~= ",\"context\":"@);
    assert(s.subrange(a10, a11) =~= jstr(c));
    assert(s[a11] == '}');
    assert(s.subrange(a11, a11 + 1) =~= "}"@);
}


/// The leading half of a face-record text: id, identity and embedding.
pub open spec fn fr_head_text(face_id: Seq<char>, user_id: u32, embedding_json: Seq<char>) -> Seq<
    char,
> {
    "{\"face_id\":"@ + jstr(face_id) + ",\"user_id\":"@ + dec_digits(user_id as nat)
        + ",\"embedding_json\":"@ + jstr(embedding_json)
}

/// The trailing half of a face-record text: quality, time and context.
pub open spec fn fr_tail_text(quality_ppm: i64, registered_at: u64, context: Seq<char>) -> Seq<
    char,
> {
    ",\"quality_score\":"@ + score6_text(quality_ppm) + ",\"registered_at\":"@ + dec_digits(
        registered_at as nat,
    ) + ",\"context\":"@ + jstr(context) + "}"@
}

/// A face-record text is its head followed by its tail.
proof fn lemma_face_record_split(
    fid: Seq<char>,
    u: u32,
    ej: Seq<char>,
    q: i64,
    t: u64,
    c: Seq<char>,
)
    ensures
        face_record_text(fid, u, ej, q, t, c) == fr_head_text(fid, u, ej) + fr_tail_text(q, t, c),
        fr_head_text(fid, u, ej).len() == 44 + fid.len() as int + dec_digits(
            u as nat,
        ).len() as int + ej.len() as int,
        fr_tail_text(q, t, c).len() == 48 + score6_text(q).len() as int + dec_digits(
            t as nat,
        ).len() as int + c.len() as int,
{
    reveal_strlit("{\"face_id\":");
    reveal_strlit(",\"user_id\":");
    reveal_strlit(",\"embedding_json\":");
    reveal_strlit(",\"quality_score\":");
    reveal_strlit(",\"registered_at\":");
    reveal_strlit(",\"context\":");
    reveal_strlit("}");
    assert(face_record_text(fid, u, ej, q, t, c) =~= fr_head_text(fid, u, ej) + fr_tail_text(
        q,
        t,
        c,
    ));
}

/// Layout of a face-record head at the start of a text.
proof fn lemma_fr_head_layout(s: Seq<char>, fid: Seq<char>, u: u32, ej: Seq<char>)
    requires
        plain(fid),
        plain(ej),
        44 + fid.len() as int + dec_digits(u as nat).len() as int + ej.len() as int <= s.len(),
        s.subrange(
            0,
            44 + fid.len() as int + dec_digits(u as nat).len() as int + ej.len() as int,
        ) == fr_head_text(fid, u, ej),
    ensures
        s.subrange(0, 11) == "{\"face_id\":"@,
        s.subrange(11, 13 + fid.len() as int) == jstr(fid),
        s.subrange(
            13 + fid.len() as int,
            24 + fid.len() as int,
        ) == ",\"user_id\":"@,
        digit_run_end(s, 24 + fid.len() as int) == 24 + fid.len() as int + dec_digits(
            u as nat,
        ).len() as int,
        s.subrange(
            24 + fid.len() as int,
            24 + fid.len() as int + dec_digits(u as nat).len() as int,
        ) == dec_digits(u as nat),
        is_dec_digit(s[24 + fid.len() as int]),
        s[24 + fid.len() as int] != '0' || digit_run_end(s, 24 + fid.len() as int) == 25
            + fid.len() as int,
        dec_value(s.subrange(24 + fid.len() as int, digit_run_end(s, 24 + fid.len() as int)))
            == u as nat,
        ({
            let p3 = 24 + fid.len() as int + dec_digits(u as nat).len() as int;
            &&& s.subrange(p3, p3 + 18) == ",\"embedding_json\":"@
            &&& s.subrange(p3 + 18, p3 + 20 + ej.len() as int) == jstr(ej)
        }),
{
    reveal_strlit("{\"face_id\":");
    reveal_strlit(",\"user_id\":");
    reveal_strlit(",\"embedding_json\":");
    lemma_dec_digits_shape(u as nat);
    let d1 = dec_digits(u as nat);
    let h = fr_head_text(fid, u, ej);
    let hl = 44 + fid.len() as int + d1.len() as int + ej.len() as int;
    assert(h.len() == hl);
    assert forall|j: int| 0 <= j < hl implies s[j] == h[j] by {
        assert(s.subrange(0, hl)[j] == h[j]);
    }
    let a1 = 13 + fid.len() as int;
    let a2 = a1 + 11;
    let a3 = a2 + d1.len() as int;
    let a4 = a3 + 18;
    assert(s.subrange(0, 11) =~= "{\"face_id\":"@);
    assert(s.subrange(11, a1) =~= jstr(fid));
    assert(s.subrange(a1, a2) =~= ",\"user_id\":"@);
    assert(s.subrange(a2, a3) =~= d1);
    assert(s[a3] == ',');
    assert(!is_dec_digit(','));
    lemma_run_end_of(s, a2, a3);
    assert(s.subrange(a3, a4) =~= ",\"embedding_json\":"@);
    assert(s.subrange(a4, a4 + 2 + ej.len() as int) =~= jstr(ej));
}

/// Layout of a face-record tail that ends the text.
proof fn lemma_fr_tail_layout(s: Seq<char>, pos: int, q: i64, t: u64, c: Seq<char>)
    requires
        plain(c),
        0 <= q,
        0 <= pos,
        pos + 48 + score6_text(q).len() as int + dec_digits(t as nat).len() as int
            + c.len() as int == s.len(),
        s.subrange(pos, s.len() as int) == fr_tail_text(q, t, c),
    ensures
        s.subrange(pos, pos + 17) == ",\"quality_score\":"@,
        s.subrange(pos + 17, pos + 17 + score6_text(q).len() as int) == score6_text(q),
        ({
            let p2 = pos + 17 + score6_text(q).len() as int;
            &&& s.subrange(p2, p2 + 17) == ",\"registered_at\":"@
            &&& digit_run_end(s, p2 + 17) == p2 + 17 + dec_digits(t as nat).len() as int
            &&& s.subrange(p2 + 17, p2 + 17 + dec_digits(t as nat).len() as int) == dec_digits(
                t as nat,
            )
            &&& is_dec_digit(s[p2 + 17])
            &&& (s[p2 + 17] != '0' || digit_run_end(s, p2 + 17) == p2 + 18)
            &&& dec_value(s.subrange(p2 + 17, digit_run_end(s, p2 + 17))) == t as nat
        }),
        ({
            let p3 = pos + 34 + score6_text(q).len() as int + dec_digits(t as nat).len() as int;
            &&& s.subrange(p3, p3 + 11) == ",\"context\":"@
            &&& s.subrange(p3 + 11, p3 + 13 + c.len() as int) == jstr(c)
            &&& p3 + 13 + c.len() as int + 1 == s.len()
        }),
        s.subrange(s.len() - 1, s.len() as int) == "}"@,
{
    reveal_strlit(",\"quality_score\":");
    reveal_strlit(",\"registered_at\":");
    reveal_strlit(",\"context\":");
    reveal_strlit("}");
    lemma_dec_digits_shape(t as nat);
    let d2 = dec_digits(t as nat);
    let w = fr_tail_text(q, t, c);
    assert(s =~= s.subrange(0, pos) + w);
    let b1 = pos + 17;
    let b2 = b1 + score6_text(q).len() as int;
    let b3 = b2 + 17;
    let b4 = b3 + d2.len() as int;
    let b5 = b4 + 11;
    let b6 = b5 + c.len() as int + 2;
    assert(s.len() == b6 + 1);
    assert(s.subrange(pos, b1) =~= ",\"quality_score\":"@);
    assert(s.subrange(b1, b2) =~= score6_text(q));
    assert(s.subrange(b2, b3) =~= ",\"registered_at\":"@);
    assert(s.subrange(b3, b4) =~= d2);
    assert(s[b4] == ',');
    assert(!is_dec_digit(','));
    lemma_run_end_of(s, b3, b4);
    assert(s.subrange(b4, b5) =~= ",\"context\":"@);
    assert(s.subrange(b5, b6) =~= jstr(c));
    assert(s[b6] == '}');
    assert(s.subrange(b6, b6 + 1) =~= "}"@);
}

/// Parse the head of a face record.
#[verifier::rlimit(100)]
#[verifier::spinoff_prover]
fn parse_fr_head(s: &str) -> (r: Option<(String, u64, String, usize)>)
    ensures
        r matches Some((fid_s, n_u, ej_s, p)) ==> plain(fid_s@) && plain(ej_s@) && n_u
            <= 0xFFFF_FFFF && p <= s@.len() && p == 44 + fid_s@.len() + dec_digits(
            n_u as nat,
        ).len() + ej_s@.len() && s@.subrange(0, p as int) == fr_head_text(
            fid_s@,
            n_u as u32,
            ej_s@,
        ),
        forall|fid: Seq<char>, u: u32, ej: Seq<char>|
            plain(fid) && plain(ej) && 44 + fid.len() + dec_digits(u as nat).len() + ej.len()
                <= s@.len() && s@.subrange(
                0,
                44 + fid.len() as int + dec_digits(u as nat).len() as int + ej.len() as int,
            ) == fr_head_text(fid, u, ej) ==> (r matches Some((fid_s, n_u, ej_s, p)) && fid_s@
                == fid && n_u as nat == u as nat && ej_s@ == ej && p == 44 + fid.len()
                + dec_digits(u as nat).len() + ej.len()),
{
    let p1 = match parse_lit(s, 0, "{\"face_id\":") {
        Some(p) => p,
        None => {
            proof {
                assert forall|fid: Seq<char>, u: u32, ej: Seq<char>|
                    plain(fid) && plain(ej) && 44 + fid.len() + dec_digits(u as nat).len()
                        + ej.len() <= s@.len() && s@.subrange(
                        0,
                        44 + fid.len() as int + dec_digits(u as nat).len() as int
                            + ej.len() as int,
                    ) == fr_head_text(fid, u, ej) implies false by {
                    lemma_fr_head_layout(s@, fid, u, ej);
                    reveal_strlit("{\"face_id\":");
                }
            }
            return None;
        },
    };
    proof {
        reveal_strlit("{\"face_id\":");
    }
    let fidp = match parse_plain_string(s, p1) {
        Some(x) => x,
        None => {
            proof {
                assert forall|fid: Seq<char>, u: u32, ej: Seq<char>|
                    plain(fid) && plain(ej) && 44 + fid.len() + dec_digits(u as nat).len()
                        + ej.len() <= s@.len() && s@.subrange(
                        0,
                        44 + fid.len() as int + dec_digits(u as nat).len() as int
                            + ej.len() as int,
                    ) == fr_head_text(fid, u, ej) implies false by {
                    lemma_fr_head_layout(s@, fid, u, ej);
                }
            }
            return None;
        },
    };
    let (face_id, a1) = fidp;
    let a2 = match parse_lit(s, a1, ",\"user_id\":") {
        Some(p) => p,
        None => {
            proof {
                assert forall|fid: Seq<char>, u: u32, ej: Seq<char>|
                    plain(fid) && plain(ej) && 44 + fid.len() + dec_digits(u as nat).len()
                        + ej.len() <= s@.len() && s@.subrange(
                        0,
                        44 + fid.len() as int + dec_digits(u as nat).len() as int
                            + ej.len() as int,
                    ) == fr_head_text(fid, u, ej) implies false by {
                    lemma_fr_head_layout(s@, fid, u, ej);
                    assert(a1 == 13 + fid.len());
                    reveal_strlit(",\"user_id\":");
                }
            }
            return None;
        },
    };
    proof {
        reveal_strlit(",\"user_id\":");
    }
    let nu = match parse_u64(s, a2) {
        Some(x) => x,
        None => {
            proof {
                assert forall|fid: Seq<char>, u: u32, ej: Seq<char>|
                    plain(fid) && plain(ej) && 44 + fid.len() + dec_digits(u as nat).len()
                        + ej.len() <= s@.len() && s@.subrange(
                        0,
                        44 + fid.len() as int + dec_digits(u as nat).len() as int
                            + ej.len() as int,
                    ) == fr_head_text(fid, u, ej) implies false by {
                    lemma_fr_head_layout(s@, fid, u, ej);
                    assert(a1 == 13 + fid.len());
                    assert(a2 == 24 + fid.len());
                    assert((u as nat) <= u64::MAX as nat);
                }
            }
            return None;
        },
    };
    let (n_u, a3) = nu;
    if n_u > 0xFFFF_FFFF {
        proof {
            assert forall|fid: Seq<char>, u: u32, ej: Seq<char>|
                plain(fid) && plain(ej) && 44 + fid.len() + dec_digits(u as nat).len() + ej.len()
                    <= s@.len() && s@.subrange(
                    0,
                    44 + fid.len() as int + dec_digits(u as nat).len() as int + ej.len() as int,
                ) == fr_head_text(fid, u, ej) implies false by {
                lemma_fr_head_layout(s@, fid, u, ej);
                assert(a1 == 13 + fid.len());
                assert(a2 == 24 + fid.len());
                crate::text::lemma_dec_digits_inj(n_u as nat, u as nat);
            }
        }
        return None;
    }
    let a4 = match parse_lit(s, a3, ",\"embedding_json\":") {
        Some(p) => p,
        None => {
            proof {
                assert forall|fid: Seq<char>, u: u32, ej: Seq<char>|
                    plain(fid) && plain(ej) && 44 + fid.len() + dec_digits(u as nat).len()
                        + ej.len() <= s@.len() && s@.subrange(
                        0,
                        44 + fid.len() as int + dec_digits(u as nat).len() as int
                            + ej.len() as int,
                    ) == fr_head_text(fid, u, ej) implies false by {
                    lemma_fr_head_layout(s@, fid, u, ej);
                    assert(a1 == 13 + fid.len());
                    assert(a2 == 24 + fid.len());
                    crate::text::lemma_dec_digits_inj(n_u as nat, u as nat);
                    assert(a3 == 24 + fid.len() + dec_digits(u as nat).len());
                    reveal_strlit(",\"embedding_json\":");
                }
            }
            return None;
        },
    };
    proof {
        reveal_strlit(",\"embedding_json\":");
    }
    let ejp = match parse_plain_string(s, a4) {
        Some(x) => x,
        None => {
            proof {
                assert forall|fid: Seq<char>, u: u32, ej: Seq<char>|
                    plain(fid) && plain(ej) && 44 + fid.len() + dec_digits(u as nat).len()
                        + ej.len() <= s@.len() && s@.subrange(
                        0,
                        44 + fid.len() as int + dec_digits(u as nat).len() as int
                            + ej.len() as int,
                    ) == fr_head_text(fid, u, ej) implies false by {
                    lemma_fr_head_layout(s@, fid, u, ej);
                    assert(a1 == 13 + fid.len());
                    assert(a2 == 24 + fid.len());
                    crate::text::lemma_dec_digits_inj(n_u as nat, u as nat);
                    assert(a4 == 42 + fid.len() + dec_digits(u as nat).len());
                    assert(a4 + ej.len() + 2 <= s@.len());
                    assert(s@.subrange(a4 as int, a4 + ej.len() + 2) == jstr(ej));
                }
            }
            return None;
        },
    };
    let (embedding_json, a5) = ejp;
    proof {
        assert(s@.subrange(0, a5 as int) =~= s@.subrange(0, p1 as int) + s@.subrange(
            p1 as int,
            a1 as int,
        ) + s@.subrange(a1 as int, a2 as int) + s@.subrange(a2 as int, a3 as int) + s@.subrange(
            a3 as int,
            a4 as int,
        ) + s@.subrange(a4 as int, a5 as int));
        assert(s@.subrange(0, a5 as int) == fr_head_text(
            face_id@,
            (n_u as u32),
            embedding_json@,
        ));
        assert forall|fid: Seq<char>, u: u32, ej: Seq<char>|
            plain(fid) && plain(ej) && 44 + fid.len() + dec_digits(u as nat).len() + ej.len()
                <= s@.len() && s@.subrange(
                0,
                44 + fid.len() as int + dec_digits(u as nat).len() as int + ej.len() as int,
            ) == fr_head_text(fid, u, ej) implies face_id@ == fid && n_u as nat == u as nat
            && embedding_json@ == ej && a5 == 44 + fid.len() + dec_digits(u as nat).len()
            + ej.len() by {
            lemma_fr_head_layout(s@, fid, u, ej);
            assert(a1 == 13 + fid.len());
            assert(face_id@ == fid);
            assert(a2 == 24 + fid.len());
            crate::text::lemma_dec_digits_inj(n_u as nat, u as nat);
            assert(a4 == 42 + fid.len() + dec_digits(u as nat).len());
            assert(a4 + ej.len() + 2 <= s@.len());
            assert(s@.subrange(a4 as int, a4 + ej.len() + 2) == jstr(ej));
            assert(embedding_json@ == ej);
        }
    }
    Some((face_id, n_u, embedding_json, a5))
}

/// Parse the tail of a face record, which must end the text.
#[verifier::rlimit(100)]
#[verifier::spinoff_prover]
fn parse_fr_tail(s: &str, pos: usize) -> (r: Option<(i64, u64, String)>)
    requires
        pos <= s@.len(),
    ensures
        r matches Some((q, t, c_s)) ==> plain(c_s@) && 0 <= q && pos + 48 + score6_text(
            q,
        ).len() + dec_digits(t as nat).len() + c_s@.len() == s@.len() && s@.subrange(
            pos as int,
            s@.len() as int,
        ) == fr_tail_text(q, t, c_s@),
        forall|q: i64, t: u64, c: Seq<char>|
            plain(c) && 0 <= q && pos + 48 + score6_text(q).len() + dec_digits(t as nat).len()
                + c.len() == s@.len() && s@.subrange(pos as int, s@.len() as int) == fr_tail_text(
                q,
                t,
                c,
            ) ==> (r matches Some((q2, t2, c_s)) && q2 == q && t2 == t && c_s@ == c),
{
    let b1 = match parse_lit(s, pos, ",\"quality_score\":") {
        Some(p) => p,
        None => {
            proof {
                assert forall|q: i64, t: u64, c: Seq<char>|
                    plain(c) && 0 <= q && pos + 48 + score6_text(q).len() + dec_digits(
                        t as nat,
                    ).len() + c.len() == s@.len() && s@.subrange(pos as int, s@.len() as int)
                        == fr_tail_text(q, t, c) implies false by {
                    lemma_fr_tail_layout(s@, pos as int, q, t, c);
                    reveal_strlit(",\"quality_score\":");
                }
            }
            return None;
        },
    };
    proof {
        reveal_strlit(",\"quality_score\":");
    }
    let qp = match parse_score6(s, b1) {
        Some(x) => x,
        None => {
            proof {
                assert forall|q: i64, t: u64, c: Seq<char>|
                    plain(c) && 0 <= q && pos + 48 + score6_text(q).len() + dec_digits(
                        t as nat,
                    ).len() + c.len() == s@.len() && s@.subrange(pos as int, s@.len() as int)
                        == fr_tail_text(q, t, c) implies false by {
                    lemma_fr_tail_layout(s@, pos as int, q, t, c);
                    assert(b1 == pos + 17);
                }
            }
            return None;
        },
    };
    let (quality, b2) = qp;
    let b3 = match parse_lit(s, b2, ",\"registered_at\":") {
        Some(p) => p,
        None => {
            proof {
                assert forall|q: i64, t: u64, c: Seq<char>|
                    plain(c) && 0 <= q && pos + 48 + score6_text(q).len() + dec_digits(
                        t as nat,
                    ).len() + c.len() == s@.len() && s@.subrange(pos as int, s@.len() as int)
                        == fr_tail_text(q, t, c) implies false by {
                    lemma_fr_tail_layout(s@, pos as int, q, t, c);
                    assert(b1 == pos + 17);
                    assert(quality == q);
                    assert(b2 == b1 + score6_text(q).len());
                    reveal_strlit(",\"registered_at\":");
                }
            }
            return None;
        },
    };
    proof {
        reveal_strlit(",\"registered_at\":");
    }
    let ntp = match parse_u64(s, b3) {
        Some(x) => x,
        None => {
            proof {
                assert forall|q: i64, t: u64, c: Seq<char>|
                    plain(c) && 0 <= q && pos + 48 + score6_text(q).len() + dec_digits(
                        t as nat,
                    ).len() + c.len() == s@.len() && s@.subrange(pos as int, s@.len() as int)
                        == fr_tail_text(q, t, c) implies false by {
                    lemma_fr_tail_layout(s@, pos as int, q, t, c);
                    assert(b1 == pos + 17);
                    assert(quality == q);
                    assert(b3 == b1 + score6_text(q).len() + 17);
                    assert((t as nat) <= u64::MAX as nat);
                }
            }
            return None;
        },
    };
    let (n_t, b4) = ntp;
    let b5 = match parse_lit(s, b4, ",\"context\":") {
        Some(p) => p,
        None => {
            proof {
                assert forall|q: i64, t: u64, c: Seq<char>|
                    plain(c) && 0 <= q && pos + 48 + score6_text(q).len() + dec_digits(
                        t as nat,
                    ).len() + c.len() == s@.len() && s@.subrange(pos as int, s@.len() as int)
                        == fr_tail_text(q, t, c) implies false by {
                    lemma_fr_tail_layout(s@, pos as int, q, t, c);
                    assert(b1 == pos + 17);
                    assert(quality == q);
                    assert(b3 == b1 + score6_text(q).len() + 17);
                    crate::text::lemma_dec_digits_inj(n_t as nat, t as nat);
                    assert(b4 == b3 + dec_digits(t as nat).len());
                    reveal_strlit(",\"context\":");
                }
            }
            return None;
        },
    };
    proof {
        reveal_strlit(",\"context\":");
    }
    let cp = match parse_plain_string(s, b5) {
        Some(x) => x,
        None => {
            proof {
                assert forall|q: i64, t: u64, c: Seq<char>|
                    plain(c) && 0 <= q && pos + 48 + score6_text(q).len() + dec_digits(
                        t as nat,
                    ).len() + c.len() == s@.len() && s@.subrange(pos as int, s@.len() as int)
                        == fr_tail_text(q, t, c) implies false by {
                    lemma_fr_tail_layout(s@, pos as int, q, t, c);
                    assert(b1 == pos + 17);
                    assert(quality == q);
                    assert(b3 == b1 + score6_text(q).len() + 17);
                    crate::text::lemma_dec_digits_inj(n_t as nat, t as nat);
                    assert(b5 == b4 + 11);
                    assert(b5 + c.len() + 2 <= s@.len());
                    assert(s@.subrange(b5 as int, b5 + c.len() + 2) == jstr(c));
                }
            }
            return None;
        },
    };
    let (context, b6) = cp;
    let b7 = match parse_lit(s, b6, "}") {
        Some(p) => p,
        None => {
            proof {
                assert forall|q: i64, t: u64, c: Seq<char>|
                    plain(c) && 0 <= q && pos + 48 + score6_text(q).len() + dec_digits(
                        t as nat,
                    ).len() + c.len() == s@.len() && s@.subrange(pos as int, s@.len() as int)
                        == fr_tail_text(q, t, c) implies false by {
                    lemma_fr_tail_layout(s@, pos as int, q, t, c);
                    assert(b1 == pos + 17);
                    assert(quality == q);
                    assert(b3 == b1 + score6_text(q).len() + 17);
                    crate::text::lemma_dec_digits_inj(n_t as nat, t as nat);
                    assert(b5 == b4 + 11);
                    assert(b5 + c.len() + 2 <= s@.len());
                    assert(s@.subrange(b5 as int, b5 + c.len() + 2) == jstr(c));
                    assert(b6 == s@.len() - 1);
                    reveal_strlit("}");
                }
            }
            return None;
        },
    };
    proof {
        reveal_strlit("}");
    }
    let sl = s.unicode_len();
    if b7 != sl {
        proof {
            assert forall|q: i64, t: u64, c: Seq<char>|
                plain(c) && 0 <= q && pos + 48 + score6_text(q).len() + dec_digits(
                    t as nat,
                ).len() + c.len() == s@.len() && s@.subrange(pos as int, s@.len() as int)
                    == fr_tail_text(q, t, c) implies false by {
                lemma_fr_tail_layout(s@, pos as int, q, t, c);
                assert(b1 == pos + 17);
                assert(quality == q);
                assert(b3 == b1 + score6_text(q).len() + 17);
                crate::text::lemma_dec_digits_inj(n_t as nat, t as nat);
                assert(b5 == b4 + 11);
                assert(b5 + c.len() + 2 <= s@.len());
                assert(s@.subrange(b5 as int, b5 + c.len() + 2) == jstr(c));
                assert(b7 == s@.len());
            }
        }
        return None;
    }
    proof {
        assert(s@.subrange(pos as int, s@.len() as int) =~= s@.subrange(pos as int, b1 as int)
            + s@.subrange(b1 as int, b2 as int) + s@.subrange(b2 as int, b3 as int) + s@.subrange(
            b3 as int,
            b4 as int,
        ) + s@.subrange(b4 as int, b5 as int) + s@.subrange(b5 as int, b6 as int) + s@.subrange(
            b6 as int,
            b7 as int,
        ));
        assert(s@.subrange(pos as int, s@.len() as int) == fr_tail_text(quality, n_t, context@));
        assert forall|q: i64, t: u64, c: Seq<char>|
            plain(c) && 0 <= q && pos + 48 + score6_text(q).len() + dec_digits(t as nat).len()
                + c.len() == s@.len() && s@.subrange(pos as int, s@.len() as int) == fr_tail_text(
                q,
                t,
                c,
            ) implies quality == q && n_t == t && context@ == c by {
            lemma_fr_tail_layout(s@, pos as int, q, t, c);
            assert(b1 == pos + 17);
            assert(quality == q);
            assert(b3 == b1 + score6_text(q).len() + 17);
            crate::text::lemma_dec_digits_inj(n_t as nat, t as nat);
            assert(b5 == b4 + 11);
            assert(b5 + c.len() + 2 <= s@.len());
            assert(s@.subrange(b5 as int, b5 + c.len() + 2) == jstr(c));
            assert(context@ == c);
        }
    }
    Some((quality, n_t, context))
}

/// Parse a face record's metadata; succeeds exactly on the canonical
/// text of one, and returns exactly the record whose text it was.
#[verifier::rlimit(100)]
#[verifier::spinoff_prover]
pub fn parse_face_record(s: &str) -> (r: Result<FaceRecord, DaemonError>)
    ensures
        r matches Ok(rec) ==> plain(rec.face_id@) && plain(rec.embedding_json@) && plain(
            rec.context@,
        ) && 0 <= rec.quality_ppm && s@ == face_record_text(
            rec.face_id@,
            rec.user_id,
            rec.embedding_json@,
            rec.quality_ppm,
            rec.registered_at,
            rec.context@,
        ),
        forall|fid: Seq<char>, u: u32, ej: Seq<char>, q: i64, t: u64, c: Seq<char>|
            plain(fid) && plain(ej) && plain(c) && 0 <= q && s@ == face_record_text(
                fid,
                u,
                ej,
                q,
                t,
                c,
            ) ==> (r matches Ok(rec) && rec.face_id@ == fid && rec.user_id == u
                && rec.embedding_json@ == ej && rec.quality_ppm == q && rec.registered_at == t
                && rec.context@ == c),
        r matches Err(e) ==> e matches DaemonError::ProtocolError(_),
{
    let head = match parse_fr_head(s) {
        Some(x) => x,
        None => {
            proof {
                assert forall|fid: Seq<char>, u: u32, ej: Seq<char>, q: i64, t: u64, c: Seq<char>|
                    plain(fid) && plain(ej) && plain(c) && 0 <= q && s@ == face_record_text(
                        fid,
                        u,
                        ej,
                        q,
                        t,
                        c,
                    ) implies false by {
                    lemma_face_record_split(fid, u, ej, q, t, c);
                    let hl = 44 + fid.len() as int + dec_digits(u as nat).len() as int
                        + ej.len() as int;
                    assert(s@.len() == hl + fr_tail_text(q, t, c).len());
                    assert(s@.subrange(0, hl) =~= fr_head_text(fid, u, ej));
                }
            }
            return Err(DaemonError::ProtocolError(String::from_str("enregistrement malformé")));
        },
    };
    let (face_id, n_u, embedding_json, p) = head;
    let tail = match parse_fr_tail(s, p) {
        Some(x) => x,
        None => {
            proof {
                assert forall|fid: Seq<char>, u: u32, ej: Seq<char>, q: i64, t: u64, c: Seq<char>|
                    plain(fid) && plain(ej) && plain(c) && 0 <= q && s@ == face_record_text(
                        fid,
                        u,
                        ej,
                        q,
                        t,
                        c,
                    ) implies false by {
                    lemma_face_record_split(fid, u, ej, q, t, c);
                    let hl = 44 + fid.len() as int + dec_digits(u as nat).len() as int
                        + ej.len() as int;
                    assert(s@.len() == hl + fr_tail_text(q, t, c).len());
                    assert(s@.subrange(0, hl) =~= fr_head_text(fid, u, ej));
                    assert(p == hl);
                    assert(s@.subrange(hl, s@.len() as int) =~= fr_tail_text(q, t, c));
                }
            }
            return Err(DaemonError::ProtocolError(String::from_str("enregistrement malformé")));
        },
    };
    let (quality, n_t, context) = tail;
    let rec = FaceRecord {
        face_id,
        user_id: n_u as u32,
        embedding_json,
        quality_ppm: quality,
        registered_at: n_t,
        context,
    };
    proof {
        assert((n_u as u32) as nat == n_u as nat);
        assert(s@ =~= s@.subrange(0, p as int) + s@.subrange(p as int, s@.len() as int));
        assert(s@ == fr_head_text(rec.face_id@, rec.user_id, rec.embedding_json@) + fr_tail_text(
            rec.quality_ppm,
            rec.registered_at,
            rec.context@,
        ));
        lemma_face_record_split(
            rec.face_id@,
            rec.user_id,
            rec.embedding_json@,
            rec.quality_ppm,
            rec.registered_at,
            rec.context@,
        );
        assert forall|fid: Seq<char>, u: u32, ej: Seq<char>, q: i64, t: u64, c: Seq<char>|
            plain(fid) && plain(ej) && plain(c) && 0 <= q && s@ == face_record_text(
                fid,
                u,
                ej,
                q,
                t,
                c,
            ) implies rec.face_id@ == fid && rec.user_id == u && rec.embedding_json@ == ej
            && rec.quality_ppm == q && rec.registered_at == t && rec.context@ == c by {
            lemma_face_record_split(fid, u, ej, q, t, c);
            let hl = 44 + fid.len() as int + dec_digits(u as nat).len() as int + ej.len() as int;
            assert(s@.len() == hl + fr_tail_text(q, t, c).len());
            assert(s@.subrange(0, hl) =~= fr_head_text(fid, u, ej));
            assert(face_id@ == fid && n_u as nat == u as nat && embedding_json@ == ej);
            assert(p == hl);
            assert(s@.subrange(hl, s@.len() as int) =~= fr_tail_text(q, t, c));
            assert(quality == q && n_t == t && context@ == c);
        }
    }
    Ok(rec)
}

/// Structure of a score text inside a larger text: the digit run at its/// Structure of a score text inside a larger text: the digit run at its
/// start is exactly the whole part, the dot follows, and the six
/// fraction digits follow that.
proof fn lemma_score6_parts(s: Seq<char>, pos: int, v: i64)
    requires
        0 <= v,
        0 <= pos,
        pos + crate::score::score6_text(v).len() <= s.len(),
        s.subrange(pos, pos + crate::score::score6_text(v).len()) == crate::score::score6_text(v),
    ensures
        digit_run_end(s, pos) == pos + dec_digits((v / 1_000_000) as nat).len(),
        s.subrange(pos, digit_run_end(s, pos)) == dec_digits((v / 1_000_000) as nat),
        is_dec_digit(s[pos]),
        s[pos] != '0' || digit_run_end(s, pos) == pos + 1,
        dec_value(s.subrange(pos, digit_run_end(s, pos))) == (v / 1_000_000) as nat,
        s[digit_run_end(s, pos)] == '.',
        pos + dec_digits((v / 1_000_000) as nat).len() + 1 + 6 <= s.len(),
        forall|j: int|
            0 <= j < 6 ==> is_dec_digit(
                #[trigger] s[pos + dec_digits((v / 1_000_000) as nat).len() + 1 + j],
            ),
        dec_value(
            s.subrange(
                pos + dec_digits((v / 1_000_000) as nat).len() + 1,
                pos + dec_digits((v / 1_000_000) as nat).len() + 7,
            ),
        ) == (v % 1_000_000) as nat,
{
    reveal_strlit(".");
    let wn = (v / 1_000_000) as nat;
    let fn_ = (v % 1_000_000) as nat;
    let wd = dec_digits(wn);
    let t = crate::score::score6_text(v);
    lemma_dec_digits_shape(wn);
    reveal_with_fuel(pow10, 7);
    lemma_fixed_value(fn_, 6);
    assert(t == wd + seq!['.'] + fixed_digits(fn_, 6));
    assert(t.len() == wd.len() + 7);
    assert forall|j: int| 0 <= j < t.len() implies s[pos + j] == t[j] by {
        assert(s.subrange(pos, pos + t.len())[j] == t[j]);
    }
    assert forall|j: int| pos <= j < pos + wd.len() implies is_dec_digit(#[trigger] s[j]) by {
        assert(s[j] == t[j - pos]);
        assert(t[j - pos] == wd[j - pos]);
    }
    assert(s[pos + wd.len()] == t[wd.len() as int]);
    assert(t[wd.len() as int] == '.');
    assert(!is_dec_digit('.'));
    lemma_run_end_of(s, pos, pos + wd.len());
    assert(s.subrange(pos, pos + wd.len()) =~= wd);
    assert(s[pos] == wd[0]);
    assert(wd.len() > 1 ==> wd[0] != '0');
    assert forall|j: int| 0 <= j < 6 implies is_dec_digit(
        #[trigger] s[pos + wd.len() + 1 + j],
    ) by {
        assert(s[pos + wd.len() + 1 + j] == t[wd.len() + 1 + j]);
        assert(t[wd.len() + 1 + j] == fixed_digits(fn_, 6)[j]);
    }
    assert forall|j: int| 0 <= j < 6 implies s.subrange(
        pos + wd.len() + 1,
        pos + wd.len() + 7,
    )[j] == fixed_digits(fn_, 6)[j] by {
        assert(s[pos + (wd.len() + 1 + j)] == t[wd.len() + 1 + j]);
        assert(t[wd.len() + 1 + j] == fixed_digits(fn_, 6)[j]);
    }
    assert(s.subrange(pos + wd.len() + 1, pos + wd.len() + 7) =~= fixed_digits(fn_, 6));
}

} // verus!
