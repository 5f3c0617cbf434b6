//! Decimal formatting and lexicographic order on strings.
//!
//! Face ids are built from decimal renderings of identities and
//! timestamps, and the matcher breaks score ties by lexicographic order
//! on face ids, so both get exact specifications here.

use vstd::prelude::*;
use vstd::string::StrSliceExecFns;
use vstd::string::StringExecFns;

verus! {

/// The character for a single decimal digit.
pub open spec fn digit_char(d: nat) -> char {
    if d == 0 {
        '0'
    } else if d == 1 {
        '1'
    } else if d == 2 {
        '2'
    } else if d == 3 {
        '3'
    } else if d == 4 {
        '4'
    } else if d == 5 {
        '5'
    } else if d == 6 {
        '6'
    } else if d == 7 {
        '7'
    } else if d == 8 {
        '8'
    } else {
        '9'
    }
}

/// The canonical decimal rendering of a natural number: no sign, no
/// leading zero except for zero itself.
pub open spec fn dec_digits(n: nat) -> Seq<char>
    decreases n,
{
    if n < 10 {
        seq![digit_char(n)]
    } else {
        dec_digits(n / 10).push(digit_char(n % 10))
    }
}

/// The one-character string for a decimal digit.
pub fn digit_str(d: u64) -> (r: &'static str)
    requires
        d < 10,
    ensures
        r@ == seq![digit_char(d as nat)],
{
    proof {
        reveal_strlit("0");
        reveal_strlit("1");
        reveal_strlit("2");
        reveal_strlit("3");
        reveal_strlit("4");
        reveal_strlit("5");
        reveal_strlit("6");
        reveal_strlit("7");
        reveal_strlit("8");
        reveal_strlit("9");
    }
    let r: &'static str = if d == 0 {
        "0"
    } else if d == 1 {
        "1"
    } else if d == 2 {
        "2"
    } else if d == 3 {
        "3"
    } else if d == 4 {
        "4"
    } else if d == 5 {
        "5"
    } else if d == 6 {
        "6"
    } else if d == 7 {
        "7"
    } else if d == 8 {
        "8"
    } else {
        "9"
    };
    proof {
        assert(r@ =~= seq![digit_char(d as nat)]);
    }
    r
}

/// Render a number in canonical decimal.
pub fn u64_to_dec(n: u64) -> (r: String)
    ensures
        r@ == dec_digits(n as nat),
    decreases n,
{
    if n < 10 {
        String::from_str(digit_str(n))
    } else {
        let mut s = u64_to_dec(n / 10);
        s.append(digit_str(n % 10));
        s
    }
}

/// The decimal rendering of `n` in exactly `w` digits, zero-padded on
/// the left; high digits beyond `w` are dropped.
pub open spec fn fixed_digits(n: nat, w: nat) -> Seq<char>
    decreases w,
{
    if w == 0 {
        Seq::empty()
    } else {
        fixed_digits(n / 10, (w - 1) as nat).push(digit_char(n % 10))
    }
}

/// Render `n` in exactly `w` decimal digits, zero-padded.
pub fn u64_to_dec_fixed(n: u64, w: usize) -> (r: String)
    ensures
        r@ == fixed_digits(n as nat, w as nat),
    decreases w,
{
    if w == 0 {
        String::new()
    } else {
        let mut s = u64_to_dec_fixed(n / 10, w - 1);
        s.append(digit_str(n % 10));
        s
    }
}

/// Whether a character is a decimal digit.
pub open spec fn is_dec_digit(c: char) -> bool {
    c == '0' || c == '1' || c == '2' || c == '3' || c == '4' || c == '5' || c == '6' || c == '7'
        || c == '8' || c == '9'
}

/// The value of a decimal digit character.
pub open spec fn digit_val(c: char) -> nat {
    if c == '0' {
        0
    } else if c == '1' {
        1
    } else if c == '2' {
        2
    } else if c == '3' {
        3
    } else if c == '4' {
        4
    } else if c == '5' {
        5
    } else if c == '6' {
        6
    } else if c == '7' {
        7
    } else if c == '8' {
        8
    } else {
        9
    }
}

/// The number a digit string denotes, most significant digit first.
pub open spec fn dec_value(d: Seq<char>) -> nat
    decreases d.len(),
{
    if d.len() == 0 {
        0
    } else {
        dec_value(d.drop_last()) * 10 + digit_val(d.last())
    }
}

/// Ten to the `k`.
pub open spec fn pow10(k: nat) -> nat
    decreases k,
{
    if k == 0 {
        1nat
    } else {
        10 * pow10((k - 1) as nat)
    }
}

pub proof fn lemma_pow10_mono(a: nat, b: nat)
    requires
        a <= b,
    ensures
        pow10(a) <= pow10(b),
        pow10(a) >= 1,
    decreases b,
{
    if a < b {
        lemma_pow10_mono(a, (b - 1) as nat);
    } else if b > 0 {
        lemma_pow10_mono((a - 1) as nat, (b - 1) as nat);
    }
}

/// The canonical rendering consists of digits, never starts with a zero
/// unless it is exactly "0", and denotes the number it renders.
pub proof fn lemma_dec_digits_shape(n: nat)
    ensures
        dec_digits(n).len() >= 1,
        forall|k: int| 0 <= k < dec_digits(n).len() ==> is_dec_digit(#[trigger] dec_digits(n)[k]),
        dec_digits(n).len() > 1 ==> dec_digits(n)[0] != '0',
        dec_value(dec_digits(n)) == n,
    decreases n,
{
    if n < 10 {
        assert(dec_digits(n) =~= seq![digit_char(n)]);
        assert(dec_value(dec_digits(n).drop_last()) == 0);
    } else {
        lemma_dec_digits_shape(n / 10);
        let d = dec_digits(n);
        assert(d == dec_digits(n / 10).push(digit_char(n % 10)));
        assert(d.drop_last() =~= dec_digits(n / 10));
        assert(d[0] == dec_digits(n / 10)[0]);
        assert(dec_digits(n / 10)[0] != '0') by {
            if dec_digits(n / 10).len() == 1 {
                if n / 10 >= 10 {
                    lemma_dec_digits_shape(n / 10 / 10);
                    assert(dec_digits(n / 10) == dec_digits(n / 10 / 10).push(
                        digit_char((n / 10) % 10),
                    ));
                }
                assert(n / 10 < 10);
                assert(n / 10 >= 1);
                assert(dec_digits(n / 10) =~= seq![digit_char(n / 10)]);
            }
        }
    }
}

/// Two numbers with the same canonical rendering are equal.
pub proof fn lemma_dec_digits_inj(a: nat, b: nat)
    requires
        dec_digits(a) == dec_digits(b),
    ensures
        a == b,
{
    lemma_dec_digits_shape(a);
    lemma_dec_digits_shape(b);
}

/// A digit string is bounded by ten to its length.
pub proof fn lemma_dec_value_bound(d: Seq<char>)
    ensures
        dec_value(d) < pow10(d.len() as nat),
    decreases d.len(),
{
    if d.len() > 0 {
        lemma_dec_value_bound(d.drop_last());
    }
}

/// A digit string without a leading zero is the canonical rendering of
/// its value.
pub proof fn lemma_dec_canonical(d: Seq<char>)
    requires
        d.len() >= 1,
        forall|k: int| 0 <= k < d.len() ==> is_dec_digit(#[trigger] d[k]),
        d.len() > 1 ==> d[0] != '0',
    ensures
        dec_digits(dec_value(d)) == d,
    decreases d.len(),
{
    let n = dec_value(d);
    if d.len() == 1 {
        assert(d.drop_last() =~= Seq::<char>::empty());
        assert(d.last() == d[0]);
        assert(dec_value(d) == dec_value(d.drop_last()) * 10 + digit_val(d.last()));
        assert(dec_value(d.drop_last()) == 0);
        assert(n == digit_val(d[0]));
        assert(n < 10);
        assert(dec_digits(n) =~= seq![digit_char(n)]);
        assert(digit_char(digit_val(d[0])) == d[0]);
        assert(dec_digits(n) =~= d);
    } else {
        let d0 = d.drop_last();
        assert(forall|k: int| 0 <= k < d0.len() ==> is_dec_digit(#[trigger] d0[k]));
        lemma_dec_canonical(d0);
        let v0 = dec_value(d0);
        assert(n == v0 * 10 + digit_val(d.last()));
        assert(v0 >= 1) by {
            if v0 == 0 {
                lemma_dec_digits_shape(0);
                assert(dec_digits(0nat) =~= seq!['0']);
                assert(d0[0] == '0');
            }
        }
        assert(n >= 10);
        assert(n / 10 == v0 && n % 10 == digit_val(d.last()));
        assert(dec_digits(n) == dec_digits(v0).push(digit_char(digit_val(d.last()))));
        assert(digit_char(digit_val(d.last())) == d.last());
        assert(dec_digits(n) =~= d);
    }
}

/// A fixed-width digit string is the fixed-width rendering of its
/// value.
pub proof fn lemma_fixed_canonical(d: Seq<char>)
    requires
        forall|k: int| 0 <= k < d.len() ==> is_dec_digit(#[trigger] d[k]),
    ensures
        fixed_digits(dec_value(d), d.len() as nat) == d,
    decreases d.len(),
{
    if d.len() > 0 {
        let d0 = d.drop_last();
        assert(forall|k: int| 0 <= k < d0.len() ==> is_dec_digit(#[trigger] d0[k]));
        lemma_fixed_canonical(d0);
        let n = dec_value(d);
        let v0 = dec_value(d0);
        assert(n == v0 * 10 + digit_val(d.last()));
        assert(n / 10 == v0 && n % 10 == digit_val(d.last()));
        assert(digit_char(digit_val(d.last())) == d.last());
        assert(fixed_digits(n, d.len() as nat) =~= d);
    }
}

/// A fixed-width rendering consists of digits and denotes its value.
pub proof fn lemma_fixed_value(n: nat, w: nat)
    requires
        n < pow10(w),
    ensures
        fixed_digits(n, w).len() == w,
        forall|k: int| 0 <= k < w ==> is_dec_digit(#[trigger] fixed_digits(n, w)[k]),
        dec_value(fixed_digits(n, w)) == n,
    decreases w,
{
    if w > 0 {
        assert(n / 10 < pow10((w - 1) as nat)) by {
            assert(pow10(w) == 10 * pow10((w - 1) as nat));
        }
        lemma_fixed_value(n / 10, (w - 1) as nat);
        let d = fixed_digits(n, w);
        assert(d == fixed_digits(n / 10, (w - 1) as nat).push(digit_char(n % 10)));
        assert(d.drop_last() =~= fixed_digits(n / 10, (w - 1) as nat));
        assert(digit_val(digit_char(n % 10)) == n % 10);
    }
}

/// Where the run of decimal digits starting at `pos` ends.
pub open spec fn digit_run_end(s: Seq<char>, pos: int) -> int
    decreases s.len() - pos,
{
    if pos < 0 || pos >= s.len() {
        pos
    } else if !is_dec_digit(s[pos]) {
        pos
    } else {
        digit_run_end(s, pos + 1)
    }
}

pub proof fn lemma_digit_run(s: Seq<char>, pos: int)
    requires
        0 <= pos <= s.len(),
    ensures
        pos <= digit_run_end(s, pos) <= s.len(),
        forall|j: int| pos <= j < digit_run_end(s, pos) ==> is_dec_digit(#[trigger] s[j]),
        digit_run_end(s, pos) == s.len() || !is_dec_digit(s[digit_run_end(s, pos)]),
    decreases s.len() - pos,
{
    if pos < s.len() && is_dec_digit(s[pos]) {
        lemma_digit_run(s, pos + 1);
    }
}

/// The digit run ends exactly where the digits stop.
pub proof fn lemma_run_end_of(s: Seq<char>, pos: int, k: int)
    requires
        0 <= pos <= k <= s.len(),
        forall|j: int| pos <= j < k ==> is_dec_digit(#[trigger] s[j]),
        k == s.len() || !is_dec_digit(s[k]),
    ensures
        digit_run_end(s, pos) == k,
    decreases k - pos,
{
    if pos < k {
        lemma_run_end_of(s, pos + 1, k);
    }
}

/// Appending digits never lowers the value.
pub proof fn lemma_dec_value_extend(d: Seq<char>, e: Seq<char>)
    ensures
        dec_value(d + e) >= dec_value(d),
    decreases e.len(),
{
    if e.len() == 0 {
        assert(d + e =~= d);
    } else {
        lemma_dec_value_extend(d, e.drop_last());
        assert((d + e).drop_last() =~= d + e.drop_last());
    }
}

/// Strict lexicographic order on character sequences, by Unicode scalar
/// value; a proper prefix comes before its extensions.
pub open spec fn lex_lt(a: Seq<char>, b: Seq<char>) -> bool
    decreases a.len(),
{
    if b.len() == 0 {
        false
    } else if a.len() == 0 {
        true
    } else if a[0] != b[0] {
        (a[0] as u32) < (b[0] as u32)
    } else {
        lex_lt(a.skip(1), b.skip(1))
    }
}

/// Reflexive closure of `lex_lt`.
pub open spec fn lex_le(a: Seq<char>, b: Seq<char>) -> bool {
    !lex_lt(b, a)
}

pub proof fn lemma_lex_irreflexive(a: Seq<char>)
    ensures
        !lex_lt(a, a),
    decreases a.len(),
{
    if a.len() > 0 {
        lemma_lex_irreflexive(a.skip(1));
    }
}

pub proof fn lemma_lex_asymmetric(a: Seq<char>, b: Seq<char>)
    requires
        lex_lt(a, b),
    ensures
        !lex_lt(b, a),
    decreases a.len(),
{
    if b.len() == 0 {
    } else if a.len() == 0 {
    } else if a[0] != b[0] {
    } else {
        lemma_lex_asymmetric(a.skip(1), b.skip(1));
    }
}

pub proof fn lemma_lex_transitive(a: Seq<char>, b: Seq<char>, c: Seq<char>)
    requires
        lex_lt(a, b),
        lex_lt(b, c),
    ensures
        lex_lt(a, c),
    decreases a.len(),
{
    if b.len() == 0 || c.len() == 0 || a.len() == 0 {
    } else if a[0] == b[0] && b[0] == c[0] {
        lemma_lex_transitive(a.skip(1), b.skip(1), c.skip(1));
    }
}

/// Decide equality of two string slices by their characters.
pub fn str_eq(a: &str, b: &str) -> (r: bool)
    ensures
        r == (a@ == b@),
{
    let n = a.unicode_len();
    let m = b.unicode_len();
    if n != m {
        return false;
    }
    let mut i: usize = 0;
    while i < n
        invariant
            0 <= i <= n,
            n == a@.len() && n == b@.len(),
            forall|j: int| 0 <= j < i ==> a@[j] == b@[j],
        decreases n - i,
    {
        if a.get_char(i) != b.get_char(i) {
            return false;
        }
        i = i + 1;
    }
    proof {
        assert(a@ =~= b@);
    }
    true
}

/// Decide `lex_lt` on string slices.
pub fn str_lex_lt(a: &str, b: &str) -> (r: bool)
    ensures
        r == lex_lt(a@, b@),
    decreases a@.len(),
{
    let alen = a.unicode_len();
    let blen = b.unicode_len();
    if blen == 0 {
        false
    } else if alen == 0 {
        true
    } else {
        let ca = a.get_char(0);
        let cb = b.get_char(0);
        if ca != cb {
            (ca as u32) < (cb as u32)
        } else {
            let a1 = a.substring_char(1, alen);
            let b1 = b.substring_char(1, blen);
            proof {
                assert(a1@ =~= a@.skip(1));
                assert(b1@ =~= b@.skip(1));
            }
            str_lex_lt(a1, b1)
        }
    }
}

} // verus!
