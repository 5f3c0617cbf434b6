//! The authentication hook: the decision logic of the module loaded
//! into a privileged host process.
//!
//! The hook parses its option tokens, resolves the target identity,
//! relays one request over the privilege bridge and maps whatever comes
//! back to one of three verdicts: accept, reject, or abstain so another
//! authentication method can run. Everything that can go wrong around
//! the bridge — a missing endpoint, a timeout, a malformed answer —
//! abstains; it never becomes a reject, and never a hard failure of the
//! host. The host-process plumbing (raw pointers, socket I/O, the audit
//! file) lives outside; every decision is taken here.

use vstd::prelude::*;
use vstd::string::StrSliceExecFns;
use vstd::string::StringExecFns;
use crate::records::PamHelperResponse;
use crate::text::{dec_digits, fixed_digits, is_dec_digit, dec_value, u64_to_dec, u64_to_dec_fixed};
use crate::wire::is_digit_char;

verus! {

/// Options of the hook, from the host's `key=value` token list.
pub struct PamOptions {
    /// Authentication context label.
    pub context: String,
    /// Bounded wait for the bridge answer, in milliseconds.
    pub timeout_ms: u64,
    /// Similarity threshold in ppm of 1.0.
    pub similarity_threshold_ppm: i64,
    /// Ask for confirmation before accepting.
    pub confirm: bool,
    /// Verbose diagnostics.
    pub debug: bool,
}

impl Default for PamOptions {
    /// Context "default", five seconds, threshold 0.6, no confirmation,
    /// quiet.
    fn default() -> (r: Self)
        ensures
            r.context@ == "default"@,
            r.timeout_ms == 5000,
            r.similarity_threshold_ppm == 600_000,
            !r.confirm,
            !r.debug,
    {
        PamOptions {
            context: String::from_str("default"),
            timeout_ms: 5000,
            similarity_threshold_ppm: 600_000,
            confirm: false,
            debug: false,
        }
    }
}

/// Spec-level image of the options.
pub struct OptionsV {
    pub context: Seq<char>,
    pub timeout_ms: u64,
    pub similarity_threshold_ppm: i64,
    pub confirm: bool,
    pub debug: bool,
}

impl PamOptions {
    pub open spec fn view_v(&self) -> OptionsV {
        OptionsV {
            context: self.context@,
            timeout_ms: self.timeout_ms,
            similarity_threshold_ppm: self.similarity_threshold_ppm,
            confirm: self.confirm,
            debug: self.debug,
        }
    }
}

/// The default options at spec level.
pub open spec fn default_options() -> OptionsV {
    OptionsV {
        context: "default"@,
        timeout_ms: 5000,
        similarity_threshold_ppm: 600_000,
        confirm: false,
        debug: false,
    }
}

/// Whether every character of a token is a decimal digit and the token
/// is non-empty.
pub open spec fn all_digits(s: Seq<char>) -> bool {
    s.len() > 0 && forall|i: int| 0 <= i < s.len() ==> is_dec_digit(#[trigger] s[i])
}

/// The value a `timeout_ms=` token sets: its digits, if they are plain
/// digits whose value fits; otherwise nothing.
pub open spec fn timeout_of(val: Seq<char>) -> Option<u64> {
    if all_digits(val) && dec_value(val) <= u64::MAX {
        Some(dec_value(val) as u64)
    } else {
        None
    }
}

/// The value a `similarity_threshold=` token sets: a decimal number
/// with an optional fraction, read to six decimal places; otherwise
/// nothing.
pub open spec fn threshold_of(val: Seq<char>) -> Option<i64> {
    let dot = first_index_of(val, '.');
    match dot {
        Some(k) => {
            let whole = val.subrange(0, k);
            let frac = val.subrange(k + 1, val.len() as int);
            if all_digits(whole) && (frac.len() == 0 || all_digits(frac)) && frac.len() <= 6
                && dec_value(whole) * 1_000_000 + dec_value(frac) * frac_scale(frac.len() as nat)
                <= i64::MAX {
                Some(
                    (dec_value(whole) * 1_000_000 + dec_value(frac) * frac_scale(
                        frac.len() as nat,
                    )) as i64,
                )
            } else {
                None
            }
        },
        None => {
            if all_digits(val) && dec_value(val) * 1_000_000 <= i64::MAX {
                Some((dec_value(val) * 1_000_000) as i64)
            } else {
                None
            }
        },
    }
}

/// What one fraction digit at this count is worth in ppm.
pub open spec fn frac_scale(digits: nat) -> nat {
    if digits == 0 {
        1_000_000
    } else if digits == 1 {
        100_000
    } else if digits == 2 {
        10_000
    } else if digits == 3 {
        1_000
    } else if digits == 4 {
        100
    } else if digits == 5 {
        10
    } else if digits == 6 {
        1
    } else {
        0
    }
}

/// Index of the first occurrence of a character.
pub open spec fn first_index_of(s: Seq<char>, c: char) -> Option<int>
    decreases s.len(),
{
    if s.len() == 0 {
        None
    } else if s[0] == c {
        Some(0int)
    } else {
        match first_index_of(s.skip(1), c) {
            Some(k) => Some(k + 1),
            None => None,
        }
    }
}

/// How one token changes the options: `key=value` pairs set known keys,
/// bare `debug` and `confirm` flags set themselves, everything else is
/// ignored.
pub open spec fn apply_token(o: OptionsV, tok: Seq<char>) -> OptionsV {
    match first_index_of(tok, '=') {
        Some(k) => {
            let key = tok.subrange(0, k);
            let val = tok.subrange(k + 1, tok.len() as int);
            if key == "context"@ {
                OptionsV { context: val, ..o }
            } else if key == "timeout_ms"@ {
                match timeout_of(val) {
                    Some(ms) => OptionsV { timeout_ms: ms, ..o },
                    None => o,
                }
            } else if key == "similarity_threshold"@ {
                match threshold_of(val) {
                    Some(t) => OptionsV { similarity_threshold_ppm: t, ..o },
                    None => o,
                }
            } else if key == "debug"@ {
                OptionsV { debug: true, ..o }
            } else {
                o
            }
        },
        None => {
            if tok == "debug"@ {
                OptionsV { debug: true, ..o }
            } else if tok == "confirm"@ {
                OptionsV { confirm: true, ..o }
            } else {
                o
            }
        },
    }
}

/// The options after the first `n` tokens; the token at index zero
/// names the module and is never an option.
pub open spec fn options_spec(args: Seq<Seq<char>>, n: int) -> OptionsV
    decreases n,
{
    if n <= 1 {
        default_options()
    } else {
        apply_token(options_spec(args, n - 1), args[n - 1])
    }
}

/// Parse the module's option tokens. The token at index zero names the
/// module; the rest are read left to right, later values winning.
pub fn parse_options(args: &Vec<String>) -> (r: PamOptions)
    ensures
        r.view_v() == options_spec(args.deep_view(), args@.len() as int),
{
    let mut opts = PamOptions::default();
    let n = args.len();
    proof {
        assert(opts.view_v() == default_options());
    }
    if n <= 1 {
        proof {
            assert(options_spec(args.deep_view(), n as int) == default_options());
        }
        return opts;
    }
    let mut i: usize = 1;
    while i < n
        invariant
            1 <= i <= n,
            n == args@.len(),
            args.deep_view().len() == n,
            forall|j: int| 0 <= j < n ==> args.deep_view()[j] == (#[trigger] args@[j])@,
            opts.view_v() == options_spec(args.deep_view(), i as int),
        decreases n - i,
    {
        let tok: &String = &args[i];
        let ghost pre = opts.view_v();
        let ghost tv = tok@;
        match find_eq_char(tok.as_str(), '=') {
            Some(k) => {
                let tl = tok.as_str().unicode_len();
                let key = tok.as_str().substring_char(0, k);
                let val = tok.as_str().substring_char(k + 1, tl);
                proof {
                    assert(key@ =~= tv.subrange(0, k as int));
                    assert(val@ =~= tv.subrange(k as int + 1, tv.len() as int));
                }
                if crate::text::str_eq(key, "context") {
                    opts.context = String::from_str(val);
                } else if crate::text::str_eq(key, "timeout_ms") {
                    if let Some(ms) = parse_all_digits_u64(val) {
                        opts.timeout_ms = ms;
                    }
                } else if crate::text::str_eq(key, "similarity_threshold") {
                    if let Some(t) = parse_threshold(val) {
                        opts.similarity_threshold_ppm = t;
                    }
                } else if crate::text::str_eq(key, "debug") {
                    opts.debug = true;
                }
            },
            None => {
                if crate::text::str_eq(tok.as_str(), "debug") {
                    opts.debug = true;
                } else if crate::text::str_eq(tok.as_str(), "confirm") {
                    opts.confirm = true;
                }
            },
        }
        proof {
            assert(opts.view_v() == apply_token(pre, tv));
            assert(options_spec(args.deep_view(), i as int + 1) == apply_token(
                options_spec(args.deep_view(), i as int),
                args.deep_view()[i as int],
            ));
            assert(args.deep_view()[i as int] == tv);
        }
        i = i + 1;
    }
    opts
}

/// Read a token of plain digits as a number, exactly `timeout_of`.
fn parse_all_digits_u64(s: &str) -> (r: Option<u64>)
    ensures
        r == timeout_of(s@),
{
    let n = s.unicode_len();
    if n == 0 {
        return None;
    }
    let mut acc: u64 = 0;
    let mut i: usize = 0;
    while i < n
        invariant
            0 <= i <= n,
            n == s@.len(),
            forall|j: int| 0 <= j < i ==> is_dec_digit(#[trigger] s@[j]),
            acc == dec_value(s@.subrange(0, i as int)),
        decreases n - i,
    {
        let c = s.get_char(i);
        if !is_digit_char(c) {
            return None;
        }
        let dv = crate::wire::digit_value(c);
        if acc > (u64::MAX - dv) / 10 {
            proof {
                let pre = s@.subrange(0, i as int + 1);
                assert(pre.drop_last() =~= s@.subrange(0, i as int));
                assert(pre.last() == s@[i as int]);
                assert(dec_value(pre) == acc * 10 + dv);
                assert(acc * 10 + dv > u64::MAX) by (nonlinear_arith)
                    requires
                        acc > (u64::MAX - dv) / 10,
                        dv < 10,
                        0 <= acc,
                ;
                crate::text::lemma_dec_value_extend(pre, s@.subrange(i as int + 1, n as int));
                assert(pre + s@.subrange(i as int + 1, n as int) =~= s@);
                assert(s@.subrange(0, s@.len() as int) =~= s@);
            }
            return None;
        }
        proof {
            assert(acc * 10 + dv <= u64::MAX) by (nonlinear_arith)
                requires
                    acc <= (u64::MAX - dv) / 10,
                    dv < 10,
                    0 <= acc,
            ;
            let pre = s@.subrange(0, i as int + 1);
            assert(pre.drop_last() =~= s@.subrange(0, i as int));
            assert(pre.last() == s@[i as int]);
        }
        acc = acc * 10 + dv;
        i = i + 1;
    }
    proof {
        assert(s@.subrange(0, n as int) =~= s@);
    }
    Some(acc)
}

/// Read a threshold token as a fixed-point score, exactly
/// `threshold_of`.
fn parse_threshold(s: &str) -> (r: Option<i64>)
    ensures
        r == threshold_of(s@),
{
    let n = s.unicode_len();
    match find_eq_char(s, '.') {
        Some(k) => {
            let whole = s.substring_char(0, k);
            let frac = s.substring_char(k + 1, n);
            proof {
                assert(whole@ =~= s@.subrange(0, k as int));
                assert(frac@ =~= s@.subrange(k as int + 1, s@.len() as int));
            }
            let w = match parse_all_digits_u64(whole) {
                Some(w) => w,
                None => {
                    return None;
                },
            };
            let fl = frac.unicode_len();
            if fl > 6 {
                return None;
            }
            let f: u64 = if fl == 0 {
                proof {
                    assert(!all_digits(frac@));
                }
                0
            } else {
                match parse_all_digits_u64(frac) {
                    Some(f) => f,
                    None => {
                        proof {
                            crate::text::lemma_dec_value_bound(frac@);
                            crate::text::lemma_pow10_mono(fl as nat, 6);
                            reveal_with_fuel(crate::text::pow10, 8);
                        }
                        return None;
                    },
                }
            };
            let scale = frac_scale_exec(fl);
            proof {
                crate::text::lemma_dec_value_bound(frac@);
                lemma_frac_scale_bound(fl as nat);
                assert(f * scale < 1_000_000) by (nonlinear_arith)
                    requires
                        (f as nat) < crate::text::pow10(fl as nat),
                        scale == frac_scale(fl as nat),
                        frac_scale(fl as nat) * crate::text::pow10(fl as nat) <= 1_000_000,
                        crate::text::pow10(fl as nat) >= 1,
                        0 <= f,
                        0 <= scale,
                ;
            }
            if w > ((i64::MAX as u64) - f * scale) / 1_000_000 {
                proof {
                    assert(w * 1_000_000 + f * scale > i64::MAX) by (nonlinear_arith)
                        requires
                            w > ((i64::MAX as u64) - f * scale) / 1_000_000,
                            f * scale <= i64::MAX as u64,
                            0 <= w,
                    ;
                }
                return None;
            }
            proof {
                assert(w * 1_000_000 + f * scale <= i64::MAX) by (nonlinear_arith)
                    requires
                        w <= ((i64::MAX as u64) - f * scale) / 1_000_000,
                        f * scale <= i64::MAX as u64,
                        0 <= w,
                ;
            }
            Some((w * 1_000_000 + f * scale) as i64)
        },
        None => {
            let w = match parse_all_digits_u64(s) {
                Some(w) => w,
                None => {
                    return None;
                },
            };
            if w > (i64::MAX as u64) / 1_000_000 {
                proof {
                    assert(w * 1_000_000 > i64::MAX) by (nonlinear_arith)
                        requires
                            w > (i64::MAX as u64) / 1_000_000,
                            0 <= w,
                    ;
                }
                return None;
            }
            proof {
                assert(w * 1_000_000 <= i64::MAX) by (nonlinear_arith)
                    requires
                        w <= (i64::MAX as u64) / 1_000_000,
                        0 <= w,
                ;
            }
            Some((w * 1_000_000) as i64)
        },
    }
}

/// `frac_scale` never exceeds one million, and a bounded fraction times
/// it stays small.
proof fn lemma_frac_scale_bound(d: nat)
    ensures
        frac_scale(d) <= 1_000_000,
        d <= 6 ==> frac_scale(d) * crate::text::pow10(d) <= 1_000_000,
{
    reveal_with_fuel(crate::text::pow10, 8);
    if d <= 6 {
        if d == 0 {
        } else if d == 1 {
        } else if d == 2 {
        } else if d == 3 {
        } else if d == 4 {
        } else if d == 5 {
        } else {
        }
    }
}

/// The ppm weight of one fraction digit at this count.
fn frac_scale_exec(d: usize) -> (r: u64)
    requires
        d <= 6,
    ensures
        r == frac_scale(d as nat),
{
    if d == 0 {
        1_000_000
    } else if d == 1 {
        100_000
    } else if d == 2 {
        10_000
    } else if d == 3 {
        1_000
    } else if d == 4 {
        100
    } else if d == 5 {
        10
    } else {
        1
    }
}

/// Index of the first occurrence of a character in a string.
fn find_eq_char(s: &str, c: char) -> (r: Option<usize>)
    ensures
        match r {
            Some(k) => first_index_of(s@, c) == Some(k as int) && k < s@.len() && s@[k as int]
                == c,
            None => first_index_of(s@, c) is None,
        },
{
    let n = s.unicode_len();
    let mut i: usize = 0;
    proof {
        assert(s@.skip(0) =~= s@);
    }
    while i < n
        invariant
            0 <= i <= n,
            n == s@.len(),
            forall|j: int| 0 <= j < i ==> s@[j] != c,
            first_index_of(s@, c) == (match first_index_of(s@.skip(i as int), c) {
                Some(k) => Some(k + i),
                None => None::<int>,
            }),
        decreases n - i,
    {
        let x = s.get_char(i);
        proof {
            assert(s@.skip(i as int)[0] == s@[i as int]);
            assert(s@.skip(i as int).skip(1) =~= s@.skip(i as int + 1));
        }
        if x == c {
            return Some(i);
        }
        i = i + 1;
    }
    proof {
        assert(s@.skip(n as int).len() == 0);
    }
    None
}

/// The hook's three-way answer to its host.
pub enum Verdict {
    /// The face matched: authentication succeeds.
    Accept,
    /// The service answered and the face did not match: authentication
    /// fails.
    Reject,
    /// The bridge or the service was unavailable: let another
    /// authentication method run.
    Abstain,
}

/// What came back from one bridge attempt.
pub enum BridgeOutcome {
    /// A well-formed answer arrived.
    Answer(PamHelperResponse),
    /// The endpoint was absent or unreachable.
    ChannelUnavailable,
    /// The bounded wait elapsed.
    TimedOut,
    /// The answer was malformed or oversized.
    Malformed,
}

/// Map a bridge outcome to the hook's three-way answer. Only an
/// affirmative service answer leads to acceptance and only a negative
/// one to rejection; whatever else happened, the hook abstains, so a
/// broken or absent face-auth subsystem degrades to the next
/// authentication method instead of denying access.
pub fn decide(outcome: &BridgeOutcome) -> (r: Verdict)
    ensures
        (outcome matches BridgeOutcome::Answer(PamHelperResponse::Success { .. })) <==> r
            is Accept,
        (outcome matches BridgeOutcome::Answer(PamHelperResponse::Failure { .. })) <==> r
            is Reject,
        (outcome is ChannelUnavailable || outcome is TimedOut || outcome is Malformed) <==> r
            is Abstain,
{
    match outcome {
        BridgeOutcome::Answer(PamHelperResponse::Success { .. }) => Verdict::Accept,
        BridgeOutcome::Answer(PamHelperResponse::Failure { .. }) => Verdict::Reject,
        BridgeOutcome::ChannelUnavailable => Verdict::Abstain,
        BridgeOutcome::TimedOut => Verdict::Abstain,
        BridgeOutcome::Malformed => Verdict::Abstain,
    }
}

/// The numeric value the host framework expects for each of the three
/// answers.
pub fn pam_code(v: &Verdict) -> (r: i32)
    ensures
        v is Accept ==> r == 0,
        v is Reject ==> r == 7,
        v is Abstain ==> r == 25,
{
    match v {
        Verdict::Accept => 0,
        Verdict::Reject => 7,
        Verdict::Abstain => 25,
    }
}

/// The deterministic bridge endpoint path of an identity.
pub fn socket_path_for(user_id: u32) -> (r: String)
    ensures
        r@ == "/tmp/hello-pam-"@ + dec_digits(user_id as nat) + ".socket"@,
{
    let mut s = String::from_str("/tmp/hello-pam-");
    let d = u64_to_dec(user_id as u64);
    s.append(d.as_str());
    s.append(".socket");
    s
}

/// One line of the audit trail: a timestamp with milliseconds, the
/// module name and the message.
pub fn log_line(secs: u64, millis: u64, message: &str) -> (r: String)
    requires
        millis < 1000,
    ensures
        r@ == dec_digits(secs as nat) + "."@ + fixed_digits(millis as nat, 3)
            + " pam_linux_hello: "@ + message@,
{
    let mut s = u64_to_dec(secs);
    s.append(".");
    let m = u64_to_dec_fixed(millis, 3);
    s.append(m.as_str());
    s.append(" pam_linux_hello: ");
    s.append(message);
    s
}

/// The states of one authentication attempt, from entry to verdict.
pub enum HookState {
    /// The host just invoked the hook.
    Start,
    /// The option tokens are parsed.
    OptionsParsed,
    /// The claimed username resolved to an identity.
    IdentityResolved(u32),
    /// The request went out over the bridge.
    RequestSent(u32),
    /// A verdict is owed to the host; terminal.
    Finished(Verdict),
}

/// The events the host side feeds into an attempt.
pub enum HookEvent {
    /// The option tokens were read.
    OptionsRead,
    /// The username resolved to this identity.
    IdentityKnown(u32),
    /// The username did not resolve.
    IdentityUnknown,
    /// The request was written to the bridge.
    RequestWritten,
    /// The bridge attempt ended with this outcome.
    BridgeDone(BridgeOutcome),
}

/// Advance one authentication attempt. Unknown identities fail closed
/// to abstain; any event out of order abstains as well, so the host can
/// never be left without a verdict.
pub fn hook_step(state: HookState, event: &HookEvent) -> (r: HookState)
    ensures
        state is Start && event is OptionsRead ==> r is OptionsParsed,
        event matches HookEvent::IdentityKnown(u) ==> (state is OptionsParsed ==> (r matches
            HookState::IdentityResolved(u2) && u2 == u)),
        state is OptionsParsed && event is IdentityUnknown ==> r matches HookState::Finished(
            Verdict::Abstain,
        ),
        state matches HookState::IdentityResolved(u) ==> (event is RequestWritten ==> (r matches
            HookState::RequestSent(u2) && u2 == u)),
        event matches HookEvent::BridgeDone(o) ==> (state matches HookState::RequestSent(_) ==> (
        r matches HookState::Finished(v) && ((o matches BridgeOutcome::Answer(
            PamHelperResponse::Success { .. },
        )) <==> v is Accept) && ((o matches BridgeOutcome::Answer(
            PamHelperResponse::Failure { .. },
        )) <==> v is Reject))),
        state matches HookState::Finished(v) ==> r matches HookState::Finished(v2) && v2 == v,
{
    match (state, event) {
        (HookState::Start, HookEvent::OptionsRead) => HookState::OptionsParsed,
        (HookState::OptionsParsed, HookEvent::IdentityKnown(u)) => HookState::IdentityResolved(
            *u,
        ),
        (HookState::OptionsParsed, HookEvent::IdentityUnknown) => HookState::Finished(
            Verdict::Abstain,
        ),
        (HookState::IdentityResolved(u), HookEvent::RequestWritten) => HookState::RequestSent(u),
        (HookState::RequestSent(_), HookEvent::BridgeDone(o)) => HookState::Finished(decide(o)),
        (HookState::Finished(v), _) => HookState::Finished(v),
        (_, _) => HookState::Finished(Verdict::Abstain),
    }
}

} // verus!
