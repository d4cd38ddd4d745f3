use sentinel::entropy::analyze_segment;
use sentinel::entropy::find_high_entropy_window;
use sentinel::entropy::DEFAULT_ENTROPY_THRESHOLD_MILLIBITS;

#[test]
fn test_sliding_window_detection() {
    let text = "This is normal text. x9k2m3n4b5v6c7z8a1s2d3f4g5h6j7k8l9 back to normal.";
    let result = find_high_entropy_window(text, 30, DEFAULT_ENTROPY_THRESHOLD_MILLIBITS);
    assert!(result.is_some(), "Should detect high-entropy window");
}

#[test]
fn test_sliding_window_clean() {
    let text = "This is completely normal English text without any suspicious content.";
    let result = find_high_entropy_window(text, 20, DEFAULT_ENTROPY_THRESHOLD_MILLIBITS);
    assert!(result.is_none(), "Should not flag normal text");
}

#[test]
fn test_sliding_window_shorter_than_window() {
    assert!(find_high_entropy_window("short", 20, DEFAULT_ENTROPY_THRESHOLD_MILLIBITS).is_none());
}

#[test]
fn test_analyze_segment_normal_and_gibberish() {
    let (suspicious, entropy) = analyze_segment("The quick brown fox jumps over the lazy dog");
    assert!(!suspicious);
    assert!(entropy < DEFAULT_ENTROPY_THRESHOLD_MILLIBITS);

    let (suspicious, entropy) =
        analyze_segment("asdf8j2k3jk2j3kx9v8n2m3k4j5h6g7f8d9s0a1q2w3e4r5t");
    assert!(suspicious);
    assert!(entropy > DEFAULT_ENTROPY_THRESHOLD_MILLIBITS);
}

#[test]
fn test_entropy_short_text_gate_counts_characters() {
    // nine two-byte characters: more than ten bytes, still below the
    // ten-character floor, so never scored
    let nine_wide = "ééééééééé";
    assert_eq!(nine_wide.chars().count(), 9);
    assert!(nine_wide.len() >= 10);
    assert!(!sentinel::entropy::is_high_entropy(nine_wide, 0));
}
