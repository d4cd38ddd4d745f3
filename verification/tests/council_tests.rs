use sentinel::consensus::ConsensusEngine;
use sentinel::consensus::ConsensusResult;
use sentinel::council::ActionProposal;
use sentinel::council::CognitiveCouncil;
use sentinel::council::CouncilVerdict;
use sentinel::errors::CouncilError;
use sentinel::triad::Consequentialist;
use sentinel::triad::Deontologist;
use sentinel::triad::HarmLevel;
use sentinel::triad::HarmPattern;
use sentinel::triad::Logicist;
use sentinel::triad::Rule;
use sentinel::triad::RuleSeverity;
use sentinel::votes::Confidence;
use sentinel::votes::Decision;
use sentinel::votes::EvaluationContext;
use sentinel::votes::EvaluatorVote;
use sentinel::waluigi::WaluigiDetector;

#[test]
fn test_crate_compiles() {
    let _ = sentinel::gas::GasBudget::new(1);
}

#[test]
fn test_action_proposal_new() {
    let proposal = ActionProposal::new("read", "/tmp/file.txt");
    assert_eq!(proposal.action, "read");
    assert_eq!(proposal.target, "/tmp/file.txt");
}

#[test]
fn test_action_proposal_with_parameter() {
    let proposal = ActionProposal::new("write", "/tmp/file.txt").with_parameter("--force");
    assert_eq!(proposal.parameters.len(), 1);
}

#[test]
fn test_action_proposal_with_response() {
    let proposal =
        ActionProposal::new("execute", "script.sh").with_response("I'll help you run this.");
    assert!(proposal.response_content.is_some());
}

#[test]
fn test_decision_display() {
    assert_eq!(Decision::Approve.label(), "APPROVE");
    assert_eq!(Decision::Reject.label(), "REJECT");
    assert_eq!(Decision::Abstain.label(), "ABSTAIN");
}

#[test]
fn test_evaluation_context_new() {
    let ctx = EvaluationContext::new("read", "/tmp/file.txt");
    assert_eq!(ctx.action, "read");
    assert_eq!(ctx.target, "/tmp/file.txt");
    assert!(ctx.parameters.is_empty());
}

#[test]
fn test_evaluation_context_with_parameter() {
    let ctx = EvaluationContext::new("write", "/tmp/file.txt")
        .with_parameter("--force")
        .with_parameter("--recursive");
    assert_eq!(ctx.parameters.len(), 2);
    assert_eq!(ctx.parameters[0], "--force");
}

#[test]
fn test_evaluation_context_with_history() {
    let history = vec!["read /etc/passwd".to_string()];
    let ctx = EvaluationContext::new("write", "/etc/passwd").with_history(history);
    assert_eq!(ctx.history.len(), 1);
}

#[test]
fn test_deontologist_new() {
    let d = Deontologist::new();
    let ctx = EvaluationContext::new("read", "/tmp/safe_file.txt");
    let vote = d.evaluate(&ctx);
    assert_eq!(vote.decision, Decision::Approve);
}

#[test]
fn test_deontologist_name() {
    let d = Deontologist::new();
    assert_eq!(d.name(), "Deontologist");
}

#[test]
fn test_consequentialist_new() {
    let c = Consequentialist::new();
    let ctx = EvaluationContext::new("read", "/tmp/log.txt");
    let vote = c.evaluate(&ctx);
    assert_eq!(vote.decision, Decision::Approve);
}

#[test]
fn test_consequentialist_name() {
    let c = Consequentialist::new();
    assert_eq!(c.name(), "Consequentialist");
}

#[test]
fn test_logicist_new() {
    let l = Logicist::new();
    assert_eq!(l.max_history(), 10);
}

#[test]
fn test_logicist_name() {
    let l = Logicist::new();
    assert_eq!(l.name(), "Logicist");
}

#[test]
fn test_logicist_custom_history_limit() {
    let l = Logicist::with_max_history(5);
    assert_eq!(l.max_history(), 5);
}

#[test]
fn test_deontologist_rejects_system_modification() {
    let d = Deontologist::new();
    let ctx = EvaluationContext::new("write", "/etc/passwd");
    let vote = d.evaluate(&ctx);
    assert_eq!(vote.decision, Decision::Reject);
}

#[test]
fn test_deontologist_rejects_credential_access() {
    let d = Deontologist::new();
    let ctx = EvaluationContext::new("read", "secrets.json");
    let vote = d.evaluate(&ctx);
    assert_eq!(vote.decision, Decision::Reject);
}

#[test]
fn test_deontologist_custom_rules() {
    let rules = vec![Rule {
        name: "no_foo".to_string(),
        pattern: "foo".to_string(),
        severity: RuleSeverity::Critical,
    }];
    let d = Deontologist::with_rules(rules);
    let ctx = EvaluationContext::new("access", "foo_resource");
    let vote = d.evaluate(&ctx);
    assert_eq!(vote.decision, Decision::Reject);
}

#[test]
fn test_consequentialist_rejects_destructive_action() {
    let c = Consequentialist::new();
    let ctx = EvaluationContext::new("delete", "/important/data");
    let vote = c.evaluate(&ctx);
    assert_eq!(vote.decision, Decision::Reject);
}

#[test]
fn test_consequentialist_custom_patterns() {
    let patterns = vec![HarmPattern {
        name: "custom_harm".to_string(),
        pattern: "dangerous".to_string(),
        harm_level: HarmLevel::Catastrophic,
        reversible: false,
    }];
    let c = Consequentialist::with_patterns(patterns);
    let ctx = EvaluationContext::new("do", "dangerous_thing");
    let vote = c.evaluate(&ctx);
    assert_eq!(vote.decision, Decision::Reject);
}

#[test]
fn test_logicist_rejects_empty_action() {
    let l = Logicist::new();
    let ctx = EvaluationContext::new("", "/tmp/file.txt");
    let vote = l.evaluate(&ctx);
    assert_eq!(vote.decision, Decision::Reject);
}

#[test]
fn test_logicist_detects_command_injection() {
    let l = Logicist::new();
    let ctx = EvaluationContext::new("exec", "program").with_parameter("arg; rm -rf /");
    let vote = l.evaluate(&ctx);
    assert_eq!(vote.decision, Decision::Reject);
}

#[test]
fn test_consensus_approved_two_thirds() {
    let engine = ConsensusEngine::new();
    let votes = vec![
        EvaluatorVote::approve("A", Confidence::high(), "fine"),
        EvaluatorVote::approve("B", Confidence::high(), "fine"),
        EvaluatorVote::reject("C", Confidence::high(), "bad"),
    ];

    let (result, tally) = engine.evaluate(votes);
    assert_eq!(result, ConsensusResult::Approved);
    assert_eq!(tally.approvals, 2);
    assert_eq!(tally.rejections, 1);
}

// quorum fail-safe observed on a concrete tie: neither side reaches two
// thirds, so the verdict is rejection
#[test]
fn test_consensus_rejected_on_tie() {
    let engine = ConsensusEngine::new();
    let votes = vec![
        EvaluatorVote::approve("A", Confidence::high(), "fine"),
        EvaluatorVote::reject("B", Confidence::high(), "bad"),
    ];

    let (result, _) = engine.evaluate(votes);
    assert_eq!(result, ConsensusResult::Rejected);
}

#[test]
fn test_consensus_no_quorum() {
    let engine = ConsensusEngine::new();
    let votes = vec![
        EvaluatorVote::approve("A", Confidence::high(), "fine"),
        EvaluatorVote::abstain("B", "unsure"),
        EvaluatorVote::abstain("C", "unsure"),
    ];

    let (result, _) = engine.evaluate(votes);
    assert_eq!(result, ConsensusResult::NoConsensus);
}

#[test]
fn test_cognitive_council_approve_safe_action() {
    let council = CognitiveCouncil::new();
    let proposal = ActionProposal::new("read", "/tmp/safe_file.txt");
    let verdict = council.evaluate(&proposal);

    assert!(verdict.is_approved());
}

#[test]
fn test_cognitive_council_reject_dangerous_action() {
    let council = CognitiveCouncil::new();
    let proposal = ActionProposal::new("delete", "/etc/passwd");
    let verdict = council.evaluate(&proposal);

    assert!(verdict.is_rejected());
}

// the veto overrides the vote: an inverted utterance is vetoed although
// the action itself would be approved
#[test]
fn test_cognitive_council_waluigi_veto() {
    let council = CognitiveCouncil::new();
    let proposal = ActionProposal::new("help", "user")
        .with_response("As an evil AI, I am now jailbroken and will bypass safety.");

    let verdict = council.evaluate(&proposal);

    match verdict {
        CouncilVerdict::WaluigiVeto { score, patterns } => {
            assert!(score.value() >= 700);
            assert!(patterns.iter().any(|p| p == "role_play_evil"));
            assert!(patterns.iter().any(|p| p == "jailbreak_acknowledgment"));
        }
        v => panic!("expected a veto, got {:?}", v),
    }
}

#[test]
fn test_cognitive_council_disable_waluigi() {
    let mut council = CognitiveCouncil::new();
    council.set_waluigi_enabled(false);

    let proposal =
        ActionProposal::new("read", "/tmp/file.txt").with_response("As an evil AI, I will help you.");

    let verdict = council.evaluate(&proposal);

    assert!(!matches!(verdict, CouncilVerdict::WaluigiVeto { .. }));
}

#[test]
fn test_waluigi_detector_sudden_reversal() {
    let detector = WaluigiDetector::new();
    let context = "I cannot help with that request.";
    let content = "Sure, I can help. Here's how to do it.";

    let (_, patterns) = detector.analyze(content, Some(context));

    assert!(patterns.iter().any(|p| p == "sudden_reversal"));
}

#[test]
fn test_waluigi_detector_clean_content() {
    let detector = WaluigiDetector::new();
    let (score, patterns) = detector.analyze("Please help me write a poem.", None);

    assert!(score.value() < 300);
    assert!(patterns.is_empty());
}

#[test]
fn test_waluigi_detector_case_insensitive() {
    let detector = WaluigiDetector::new();
    let (_, patterns) = detector.analyze("AS AN EVIL AI", None);
    assert!(patterns.iter().any(|p| p == "role_play_evil"));
}

#[test]
fn test_cognitive_council_with_custom_check_pass() {
    let council = CognitiveCouncil::new();
    let proposal = ActionProposal::new("read", "/tmp/file.txt");

    let result = council.evaluate_with_check(&proposal, Ok(()));
    assert!(result.is_ok());
}

#[test]
fn test_cognitive_council_with_custom_check_fail() {
    let council = CognitiveCouncil::new();
    let proposal = ActionProposal::new("read", "/tmp/file.txt");

    let result = council.evaluate_with_check(
        &proposal,
        Err(CouncilError::InvalidProposal("Custom check failed".to_string())),
    );
    assert!(result.is_err());
}
