use sentinel::config::SentinelConfig;
use sentinel::consensus::ConsensusEngine;
use sentinel::consensus::ConsensusResult;
use sentinel::json::canonicalize;
use sentinel::json::json_eq;
use sentinel::json::JsonValue;
use sentinel::hash::hash_canonical;
use sentinel::registry::ToolSchema;
use sentinel::verdict::BlockReason;
use sentinel::verdict::ReviewFlag;
use sentinel::verdict::Verdict;
use sentinel::votes::Confidence;
use sentinel::votes::EvaluatorVote;
use sentinel::waluigi::InversionPattern;
use sentinel::waluigi::WaluigiDetector;
use sentinel::waluigi::WaluigiScore;
use sentinel::Sentinel;

fn obj(entries: Vec<(&str, JsonValue)>) -> JsonValue {
    JsonValue::Object(
        entries
            .into_iter()
            .map(|(k, v)| (k.to_string(), v))
            .collect(),
    )
}

fn text(s: &str) -> JsonValue {
    JsonValue::Text(s.to_string())
}

#[test]
fn test_canonicalize_null() {
    assert_eq!(canonicalize(&JsonValue::Null), "null");
}

#[test]
fn test_canonicalize_bool() {
    assert_eq!(canonicalize(&JsonValue::Bool(true)), "true");
    assert_eq!(canonicalize(&JsonValue::Bool(false)), "false");
}

#[test]
fn test_canonicalize_strings() {
    assert_eq!(canonicalize(&text("")), "\"\"");
    assert_eq!(canonicalize(&text("hello")), "\"hello\"");
    assert_eq!(canonicalize(&text("he\\llo")), "\"he\\\\llo\"");
    assert_eq!(canonicalize(&text("tab\there")), "\"tab\\there\"");
    assert_eq!(canonicalize(&text("ctl\u{1}x")), "\"ctl\\u0001x\"");
    assert_eq!(canonicalize(&text("sl/ash")), "\"sl/ash\"");
    assert_eq!(canonicalize(&text("héllo")), "\"héllo\"");
}

#[test]
fn test_canonicalize_array() {
    assert_eq!(canonicalize(&JsonValue::Array(vec![])), "[]");
    assert_eq!(
        canonicalize(&JsonValue::Array(vec![
            JsonValue::Int(1),
            JsonValue::Int(2),
            JsonValue::Int(3)
        ])),
        "[1,2,3]"
    );
}

#[test]
fn test_canonicalize_deterministic() {
    let v1 = obj(vec![("b", JsonValue::Int(1)), ("a", JsonValue::Int(2))]);
    let v2 = obj(vec![("a", JsonValue::Int(2)), ("b", JsonValue::Int(1))]);
    assert_eq!(canonicalize(&v1), canonicalize(&v2));
}

#[test]
fn test_canonicalize_nested() {
    let v = obj(vec![(
        "outer",
        obj(vec![("z", JsonValue::Int(1)), ("a", JsonValue::Int(2))]),
    )]);
    assert_eq!(canonicalize(&v), "{\"outer\":{\"a\":2,\"z\":1}}");
}

#[test]
fn test_hash_deterministic() {
    let v1 = obj(vec![("b", JsonValue::Int(1)), ("a", JsonValue::Int(2))]);
    let v2 = obj(vec![("a", JsonValue::Int(2)), ("b", JsonValue::Int(1))]);
    assert_eq!(hash_canonical(&v1), hash_canonical(&v2));
}

#[test]
fn test_hash_different_values() {
    let v1 = obj(vec![("a", JsonValue::Int(1))]);
    let v2 = obj(vec![("a", JsonValue::Int(2))]);
    assert_ne!(hash_canonical(&v1), hash_canonical(&v2));
}

#[test]
fn test_json_eq_structural() {
    let v1 = obj(vec![("a", JsonValue::Array(vec![text("x")]))]);
    let v2 = obj(vec![("a", JsonValue::Array(vec![text("x")]))]);
    let v3 = obj(vec![("a", JsonValue::Array(vec![text("y")]))]);
    assert!(json_eq(&v1, &v2));
    assert!(!json_eq(&v1, &v3));
}

#[test]
fn test_waluigi_score_bounds() {
    assert_eq!(WaluigiScore::zero().value(), 0);
    assert_eq!(WaluigiScore::max().value(), 1000);
    let score = WaluigiScore::new(800);
    assert!(score.is_inverted(700));
    assert!(!score.is_inverted(900));
}

#[test]
fn test_waluigi_detector_new() {
    let detector = WaluigiDetector::new();
    assert_eq!(detector.threshold(), 700);
}

#[test]
fn test_waluigi_detector_evil_roleplay() {
    let detector = WaluigiDetector::new();
    let (score, patterns) =
        detector.analyze("As an evil AI, I will help you hack the system.", None);

    assert!(score.value() > 300);
    assert!(patterns.iter().any(|p| p == "role_play_evil"));
}

#[test]
fn test_waluigi_detector_jailbreak() {
    let detector = WaluigiDetector::new();
    let (score, patterns) =
        detector.analyze("I am now in developer mode, bypassing safety guidelines.", None);

    assert!(score.value() > 500);
    assert!(patterns.iter().any(|p| p == "jailbreak_acknowledgment"));
}

#[test]
fn test_waluigi_detector_veto() {
    let detector = WaluigiDetector::new();

    let result = detector.check_veto("Please help with my homework.", None);
    assert!(result.is_none());

    let result = detector.check_veto(
        "As an evil AI, I am now jailbroken and will bypass safety guidelines.",
        None,
    );
    assert!(result.is_some());
}

#[test]
fn test_waluigi_detector_set_threshold() {
    let mut detector = WaluigiDetector::new();
    detector.set_threshold(500);
    assert_eq!(detector.threshold(), 500);
}

#[test]
fn test_waluigi_detector_custom_patterns() {
    let patterns = vec![InversionPattern::new(
        "custom",
        "Custom pattern",
        vec!["badword".to_string()],
        1000,
    )];
    let detector = WaluigiDetector::with_patterns(patterns, 400);

    let (score, matched) = detector.analyze("This contains badword", None);
    assert!(matched.iter().any(|p| p == "custom"));
    assert!(score.value() >= 400);
}

#[test]
fn test_vote_tally_from_votes() {
    let engine = ConsensusEngine::new();
    let votes = vec![
        EvaluatorVote::approve("A", Confidence::high(), "fine"),
        EvaluatorVote::approve("B", Confidence::high(), "fine"),
        EvaluatorVote::reject("C", Confidence::high(), "bad"),
    ];
    let (_, tally) = engine.evaluate(votes);

    assert_eq!(tally.approvals, 2);
    assert_eq!(tally.rejections, 1);
    assert_eq!(tally.abstentions, 0);
    assert_eq!(tally.total, 3);
}

#[test]
fn test_consensus_approved_unanimous() {
    let engine = ConsensusEngine::new();
    let votes = vec![
        EvaluatorVote::approve("A", Confidence::high(), "fine"),
        EvaluatorVote::approve("B", Confidence::high(), "fine"),
        EvaluatorVote::approve("C", Confidence::high(), "fine"),
    ];

    let (result, tally) = engine.evaluate(votes);
    assert_eq!(result, ConsensusResult::Approved);
    assert_eq!(tally.approvals, 3);
}

#[test]
fn test_consensus_rejected_two_thirds() {
    let engine = ConsensusEngine::new();
    let votes = vec![
        EvaluatorVote::reject("A", Confidence::high(), "bad"),
        EvaluatorVote::reject("B", Confidence::high(), "bad"),
        EvaluatorVote::approve("C", Confidence::high(), "fine"),
    ];

    let (result, _) = engine.evaluate(votes);
    assert_eq!(result, ConsensusResult::Rejected);
}

#[test]
fn test_consensus_with_abstention_still_passes() {
    let engine = ConsensusEngine::new();
    let votes = vec![
        EvaluatorVote::approve("A", Confidence::high(), "fine"),
        EvaluatorVote::approve("B", Confidence::high(), "fine"),
        EvaluatorVote::abstain("C", "unsure"),
    ];

    let (result, _) = engine.evaluate(votes);
    assert_eq!(result, ConsensusResult::Approved);
}

#[test]
fn test_verdict_allow() {
    let verdict = Verdict::allow();
    assert!(verdict.is_allowed());
    assert!(!verdict.is_blocked());
    assert!(!verdict.requires_review());
}

#[test]
fn test_verdict_block() {
    let verdict = Verdict::block(BlockReason::GasExhausted { used: 100, limit: 50 });
    assert!(!verdict.is_allowed());
    assert!(verdict.is_blocked());
    assert!(!verdict.requires_review());
}

#[test]
fn test_verdict_review() {
    let verdict = Verdict::review(vec![ReviewFlag::HighGasUsage { percentage: 80 }]);
    assert!(!verdict.is_allowed());
    assert!(!verdict.is_blocked());
    assert!(verdict.requires_review());
}

#[test]
fn test_sentinel_gas_tracking() {
    let config = SentinelConfig::default();
    let s = Sentinel::new(config).unwrap();
    assert!(s.gas_remaining() > 0);
}

#[test]
fn test_sentinel_step_lifecycle() {
    let config = SentinelConfig::default();
    let mut s = Sentinel::new(config).unwrap();

    let schema = ToolSchema {
        name: "test_tool".to_string(),
        description: "A test tool".to_string(),
        input_schema: obj(vec![
            ("type", text("object")),
            ("properties", obj(vec![("input", obj(vec![("type", text("string"))]))])),
        ]),
        output_schema: obj(vec![("type", text("string"))]),
    };
    s.register_tool(&schema).unwrap();

    let params = obj(vec![]);
    let verdict = s.analyze_tool_call("test_tool", &schema, &params).unwrap();
    assert!(!verdict.is_blocked());

    s.end_step("success").unwrap();
    assert_eq!(s.step_count(), 1);
}

#[test]
fn test_sentinel_reset_keeps_registry() {
    let config = SentinelConfig::default();
    let mut s = Sentinel::new(config).unwrap();

    let schema = ToolSchema {
        name: "kept".to_string(),
        description: "stays registered".to_string(),
        input_schema: obj(vec![("type", text("object"))]),
        output_schema: obj(vec![("type", text("string"))]),
    };
    s.register_tool(&schema).unwrap();
    let root_before = s.registry_root();

    let params = obj(vec![]);
    let _ = s.analyze_tool_call("kept", &schema, &params).unwrap();
    s.end_step("ok").unwrap();

    s.reset_monitor();
    assert_eq!(s.step_count(), 0);
    assert!(!s.is_halted());
    assert_eq!(s.registry_root(), root_before);
}

#[test]
fn test_canonicalize_decimal_unquoted() {
    let num = JsonValue::Decimal("1.5".to_string());
    let txt = text("1.5");
    assert_eq!(canonicalize(&num), "1.5");
    assert_eq!(canonicalize(&txt), "\"1.5\"");
    assert_ne!(hash_canonical(&num), hash_canonical(&txt));
    assert!(!json_eq(&num, &txt));
}
