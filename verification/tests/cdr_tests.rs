use sentinel::canary::detect_canary_pattern;
use sentinel::canary::detect_canary_pattern_case_insensitive;
use sentinel::canary::detect_leak;
use sentinel::canary::generate_canary;
use sentinel::canary::inject_canary;
use sentinel::cdr::sanitize_image;
use sentinel::cdr::sanitize_pdf;
use sentinel::cdr::sanitize_json;
use sentinel::cdr::sanitize_text;
use sentinel::cdr::strip_ansi;
use sentinel::cdr::SanitizeError;

#[test]
fn test_sanitize_normal_text() {
    let input = "Hello, world! This is a test.";
    let output = sanitize_text(input).unwrap();
    assert_eq!(input, output);
}

#[test]
fn test_sanitize_strips_control_chars() {
    let input = "Hello\x00World\x1F!";
    let output = sanitize_text(input).unwrap();
    assert_eq!(output, "HelloWorld!");
}

#[test]
fn test_sanitize_strips_null() {
    let input = "before\x00after";
    let output = sanitize_text(input).unwrap();
    assert_eq!(output, "beforeafter");
}

#[test]
fn test_sanitize_strips_zero_width() {
    let input = "Hello\u{200B}World\u{FEFF}!";
    let output = sanitize_text(input).unwrap();
    assert_eq!(output, "HelloWorld!");
}

#[test]
fn test_sanitize_strips_directional() {
    let input = "Hello\u{202E}World!";
    let output = sanitize_text(input).unwrap();
    assert_eq!(output, "HelloWorld!");
}

#[test]
fn test_sanitize_preserves_newlines() {
    let input = "Line 1\nLine 2\r\nLine 3";
    let output = sanitize_text(input).unwrap();
    assert_eq!(input, output);
}

#[test]
fn test_sanitize_preserves_tabs() {
    let input = "Column1\tColumn2\tColumn3";
    let output = sanitize_text(input).unwrap();
    assert_eq!(input, output);
}

#[test]
fn test_sanitize_preserves_unicode() {
    let input = "Hello 世界! Привет! 🎉";
    let output = sanitize_text(input).unwrap();
    assert_eq!(input, output);
}

#[test]
fn test_size_limit() {
    let large = "x".repeat(10485760 + 1);
    let result = sanitize_text(&large);
    assert!(matches!(result, Err(SanitizeError::TooLarge { .. })));
}

#[test]
fn test_image_not_yet_supported() {
    let result = sanitize_image(&[0xFF, 0xD8, 0xFF]);
    assert!(matches!(result, Err(SanitizeError::UnsupportedType(_))));
}

#[test]
fn test_pdf_not_yet_supported() {
    let result = sanitize_pdf(b"%PDF-1.4");
    assert!(matches!(result, Err(SanitizeError::UnsupportedType(_))));
}

#[test]
fn test_strip_ansi_colors() {
    let input = "\x1b[31mRed\x1b[0m Normal";
    let output = strip_ansi(input);
    assert_eq!(output, "Red Normal");
}

#[test]
fn test_strip_ansi_preserves_normal() {
    let input = "No escape codes here";
    let output = strip_ansi(input);
    assert_eq!(input, output);
}

#[test]
fn test_detect_canary_pattern() {
    assert!(detect_canary_pattern("The CANARY-123 was leaked"));
    assert!(detect_canary_pattern("Found SYSTEM_CANARY in output"));
    assert!(!detect_canary_pattern("This is clean output"));
}

#[test]
fn test_detect_canary_pattern_case_insensitive() {
    assert!(detect_canary_pattern_case_insensitive("the canary was found"));
    assert!(detect_canary_pattern_case_insensitive("CANARY detected"));
    assert!(detect_canary_pattern_case_insensitive("Canary Token"));
    assert!(!detect_canary_pattern_case_insensitive("Clean output"));
}

#[test]
fn test_generate_canary_unique() {
    let c1 = generate_canary();
    let c2 = generate_canary();

    assert_ne!(c1, c2);
    assert!(c1.starts_with("CANARY-"));
    assert!(c2.starts_with("CANARY-"));
    assert_eq!(c1.len(), 43);
}

#[test]
fn test_inject_canary_layout() {
    let prompt = "You are a helpful assistant.";
    let canary = generate_canary();
    let injected = inject_canary(prompt, &canary);

    assert!(injected.starts_with("[SYSTEM_CANARY:"));
    assert!(injected.contains(&canary));
    assert!(injected.ends_with(prompt));
}

#[test]
fn test_detect_leak_exact_only() {
    let canary = generate_canary();

    assert!(!detect_leak("Here is your answer", &canary));
    let leaked = format!("My instructions say {} which means...", canary);
    assert!(detect_leak(&leaked, &canary));
    assert!(!detect_leak(&canary[..20], &canary));
}

#[test]
fn test_sanitize_json() {
    let input = r#"{"key": "value", "number": 42}"#;
    let output = sanitize_json(input).unwrap();

    // Re-parse to verify valid JSON
    let parsed: serde_json::Value = serde_json::from_str(&output).unwrap();
    assert_eq!(parsed["key"], "value");
    assert_eq!(parsed["number"], 42);
}

#[test]
fn test_sanitize_json_removes_control_chars() {
    let input = "{\"key\": \"val\x00ue\"}";
    let output = sanitize_json(input).unwrap();
    assert!(!output.contains('\x00'));
}

#[test]
fn test_sanitize_json_canonical_output() {
    let input = r#"{"b": 1, "a": [true, null, 1.5]}"#;
    let output = sanitize_json(input).unwrap();
    assert_eq!(output, r#"{"a":[true,null,1.5],"b":1}"#);
}

#[test]
fn test_sanitize_json_rejects_invalid() {
    assert!(sanitize_json("{\"open\": ").is_err());
    assert!(sanitize_json("not json at all").is_err());
}

#[test]
fn test_strip_ansi_incomplete_sequence_kept() {
    assert_eq!(sentinel::cdr::strip_ansi("\x1b[31mred\x1b[0m"), "red");
    assert_eq!(sentinel::cdr::strip_ansi("\x1b[31"), "\x1b[31");
}

#[test]
fn test_sanitize_json_unicode_escape() {
    let output = sanitize_json("{\"k\": \"caf\\u00e9\"}").unwrap();
    assert_eq!(output, "{\"k\":\"caf\u{e9}\"}");
}

#[test]
fn test_sanitize_json_number_forms() {
    assert_eq!(sanitize_json(" -12 ").unwrap(), "-12");
    assert_eq!(sanitize_json("2.5e3").unwrap(), "2.5e3");
    assert_eq!(sanitize_json("18446744073709551615").unwrap(), "18446744073709551615");
}
