use kwic_rust::process_kwic;
use std::collections::HashSet;

#[test]
fn test_case_sensitive_pass() {
    let lines = vec!["The Quick Brown Fox".to_string()];
    let stop_words: HashSet<String> = HashSet::new();

    let sensitive = process_kwic(&lines, &stop_words, true);
    let insensitive = process_kwic(&lines, &stop_words, false);

    assert_ne!(sensitive, insensitive, "Os resultados deveriam ser diferentes para case-sensitive e case-insensitive.");
}

#[test]
fn test_stop_words_pass() {
    let lines = vec!["The quick brown fox".to_string()];
    let stop_words: HashSet<String> = vec!["the".to_string(), "brown".to_string()]
        .into_iter()
        .collect();
    let results = process_kwic(&lines, &stop_words, false);

    assert!(!results.iter().any(|(k, _)| k == "the"));
    assert!(!results.iter().any(|(k, _)| k == "brown"));
    assert!(results.iter().any(|(k, _)| k == "quick"));
}

#[test]
fn test_unicode_handling_pass() {
    let lines = vec!["Olá mundo 你好 мир".to_string()];
    let stop_words: HashSet<String> = HashSet::new();
    let results = process_kwic(&lines, &stop_words, false);

    assert!(results.iter().any(|(k, _)| k == "olá"));
    assert!(results.iter().any(|(k, _)| k == "你好"));
    assert!(results.iter().any(|(k, _)| k == "мир"));
}

// Case-sensitive and case-insensitive runs over mixed-case text differ.
#[test]
fn test_case_sensitive_fail() {
    let lines = vec!["The Quick Brown Fox".to_string()];
    let stop_words: HashSet<String> = HashSet::new();

    let sensitive = process_kwic(&lines, &stop_words, true);
    let insensitive = process_kwic(&lines, &stop_words, false);

    assert_ne!(sensitive, insensitive, "Os resultados deveriam ser diferentes.");
}

// A stop word never becomes a keyword.
#[test]
fn test_stop_words_fail() {
    let lines = vec!["The quick brown fox".to_string()];
    let stop_words: HashSet<String> = vec!["the".to_string(), "brown".to_string()]
        .into_iter()
        .collect();
    let results = process_kwic(&lines, &stop_words, false);

    assert!(!results.iter().any(|(k, _)| k == "brown"));
}

// A stop word outside ASCII text is filtered too.
#[test]
fn test_unicode_handling_fail() {
    let lines = vec!["Olá mundo 你好 мир".to_string()];
    let stop_words: HashSet<String> = ["mundo".to_string()].into_iter().collect();
    let results = process_kwic(&lines, &stop_words, false);

    assert!(!results.iter().any(|(k, _)| k == "mundo"));
}
