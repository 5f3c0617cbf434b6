use linux_hello::hook::{
    decide, hook_step, pam_code, parse_options, socket_path_for, log_line, BridgeOutcome,
    HookEvent, HookState, PamOptions, Verdict,
};
use linux_hello::records::PamHelperResponse;

#[test]
fn test_parse_options() {
    let opts = PamOptions::default();
    assert_eq!(opts.context, "default");
    assert_eq!(opts.timeout_ms, 5000);
}

#[test]
fn parse_options_reads_tokens() {
    let args: Vec<String> = vec![
        "pam_linux_hello.so".to_string(),
        "context=sudo".to_string(),
        "timeout_ms=2500".to_string(),
        "similarity_threshold=0.75".to_string(),
        "confirm".to_string(),
        "debug".to_string(),
    ];
    let opts = parse_options(&args);
    assert_eq!(opts.context, "sudo");
    assert_eq!(opts.timeout_ms, 2500);
    assert_eq!(opts.similarity_threshold_ppm, 750_000);
    assert!(opts.confirm);
    assert!(opts.debug);
}

#[test]
fn parse_options_keeps_defaults_on_bad_values() {
    let args: Vec<String> = vec![
        "pam_linux_hello.so".to_string(),
        "timeout_ms=soon".to_string(),
        "similarity_threshold=high".to_string(),
        "unknown=thing".to_string(),
    ];
    let opts = parse_options(&args);
    assert_eq!(opts.timeout_ms, 5000);
    assert_eq!(opts.similarity_threshold_ppm, 600_000);
    assert_eq!(opts.context, "default");
}

#[test]
fn parse_options_ignores_module_name_token() {
    let args: Vec<String> = vec!["context=stolen".to_string()];
    let opts = parse_options(&args);
    assert_eq!(opts.context, "default");
}

#[test]
fn absent_channel_abstains() {
    // the endpoint for the identity does not exist: never a reject,
    // never an unbounded block — the decision is abstain
    let v = decide(&BridgeOutcome::ChannelUnavailable);
    assert!(matches!(v, Verdict::Abstain));
    assert_eq!(pam_code(&v), 25);
}

#[test]
fn timeout_abstains() {
    // a service that answers too late is cut off at the bounded wait
    // and the hook abstains rather than waiting the service out
    let v = decide(&BridgeOutcome::TimedOut);
    assert!(matches!(v, Verdict::Abstain));
    assert_eq!(pam_code(&v), 25);
}

#[test]
fn malformed_answer_abstains() {
    let v = decide(&BridgeOutcome::Malformed);
    assert!(matches!(v, Verdict::Abstain));
}

#[test]
fn success_accepts_and_failure_rejects() {
    let ok = BridgeOutcome::Answer(PamHelperResponse::Success {
        face_id: "face_1000_1".to_string(),
        similarity_score_ppm: 990_000,
    });
    assert!(matches!(decide(&ok), Verdict::Accept));
    assert_eq!(pam_code(&decide(&ok)), 0);

    let no = BridgeOutcome::Answer(PamHelperResponse::Failure {
        reason: "Face not recognized".to_string(),
    });
    assert!(matches!(decide(&no), Verdict::Reject));
    assert_eq!(pam_code(&decide(&no)), 7);
}

#[test]
fn hook_walks_to_a_verdict() {
    let s = HookState::Start;
    let s = hook_step(s, &HookEvent::OptionsRead);
    let s = hook_step(s, &HookEvent::IdentityKnown(1000));
    let s = hook_step(s, &HookEvent::RequestWritten);
    let s = hook_step(
        s,
        &HookEvent::BridgeDone(BridgeOutcome::Answer(PamHelperResponse::Success {
            face_id: "face_1000_1".to_string(),
            similarity_score_ppm: 990_000,
        })),
    );
    assert!(matches!(s, HookState::Finished(Verdict::Accept)));
}

#[test]
fn unknown_identity_fails_closed_to_abstain() {
    let s = hook_step(HookState::OptionsParsed, &HookEvent::IdentityUnknown);
    assert!(matches!(s, HookState::Finished(Verdict::Abstain)));
}

#[test]
fn socket_path_is_deterministic() {
    assert_eq!(socket_path_for(1000), "/tmp/hello-pam-1000.socket");
    assert_eq!(socket_path_for(0), "/tmp/hello-pam-0.socket");
}

#[test]
fn audit_line_format() {
    let line = log_line(1700000000, 42, "pam_sm_authenticate commencé");
    assert_eq!(line, "1700000000.042 pam_linux_hello: pam_sm_authenticate commencé");
}
