use kwic_rust::{
    default_stop_words, nonempty_lines, normalize_words, process_kwic, rotated_context,
    sort_by_context, split_into_words, stop_words_from_lines, stop_words_or_default, KwicError,
};
use std::collections::HashSet;

fn strings(words: &[&str]) -> Vec<String> {
    words.iter().map(|w| w.to_string()).collect()
}

fn pair(k: &str, c: &str) -> (String, String) {
    (k.to_string(), c.to_string())
}

#[test]
fn tokenizing_twice_gives_the_same_tokens() {
    let line = "Olá, mundo! d'água guarda-chuva 你好";
    assert_eq!(split_into_words(line), split_into_words(line));
}

#[test]
fn tokenizer_splits_on_apostrophe_and_hyphen() {
    assert_eq!(split_into_words("d'água"), strings(&["d", "água"]));
    assert_eq!(split_into_words("guarda-chuva"), strings(&["guarda", "chuva"]));
    assert_eq!(split_into_words("Hello,"), strings(&["Hello"]));
}

#[test]
fn tokenizer_keeps_combining_marks_with_their_letter() {
    // "e" followed by a combining acute accent forms one cluster.
    assert_eq!(split_into_words("cafe\u{301} bom"), strings(&["cafe\u{301}", "bom"]));
}

#[test]
fn tokenizer_on_tabs_and_punctuation_only() {
    assert_eq!(split_into_words("\tone\t\ttwo\n"), strings(&["one", "two"]));
    assert_eq!(split_into_words("!?, ;"), Vec::<String>::new());
}

#[test]
fn line_with_three_eligible_tokens_gives_three_records() {
    let lines = strings(&["um gato um gato"]);
    let stop = default_stop_words();
    let results = process_kwic(&lines, &stop, false);
    assert_eq!(results.len(), 2);
    let none: HashSet<String> = HashSet::new();
    assert_eq!(process_kwic(&lines, &none, false).len(), 4);
}

#[test]
fn rotation_of_each_token() {
    let lines = strings(&["one two three"]);
    let none: HashSet<String> = HashSet::new();
    let results = process_kwic(&lines, &none, false);
    assert_eq!(
        results,
        vec![
            pair("one", "one two three"),
            pair("three", "three one two"),
            pair("two", "two three one"),
        ]
    );
}

#[test]
fn rotated_context_wraps_around() {
    let ws = strings(&["a", "b", "c", "d"]);
    assert_eq!(rotated_context(&ws, 0), "a b c d");
    assert_eq!(rotated_context(&ws, 2), "c d a b");
    assert_eq!(rotated_context(&ws, 3), "d a b c");
    assert_eq!(rotated_context(&strings(&["solo"]), 0), "solo");
}

#[test]
fn normalize_words_lowercases_only_when_insensitive() {
    let ws = strings(&["Ação", "MUNDO", "мир"]);
    assert_eq!(normalize_words(&ws, false), strings(&["ação", "mundo", "мир"]));
    assert_eq!(normalize_words(&ws, true), ws);
}

#[test]
fn sort_orders_by_lower_cased_context_and_keeps_ties_in_order() {
    let records = vec![
        pair("Zebra", "Zebra apple"),
        pair("Cat", "Cat"),
        pair("apple", "apple Zebra"),
        pair("cat", "cat"),
        pair("CAT", "CAT"),
    ];
    let sorted = sort_by_context(&records);
    assert_eq!(
        sorted,
        vec![
            pair("apple", "apple Zebra"),
            pair("Cat", "Cat"),
            pair("cat", "cat"),
            pair("CAT", "CAT"),
            pair("Zebra", "Zebra apple"),
        ]
    );
}

#[test]
fn sort_is_by_code_point_after_lower_casing() {
    let records = vec![pair("b", "b"), pair("é", "é"), pair("A", "A"), pair("ab", "ab")];
    let sorted = sort_by_context(&records);
    assert_eq!(sorted, vec![pair("A", "A"), pair("ab", "ab"), pair("b", "b"), pair("é", "é")]);
}

#[test]
fn results_are_ascending_and_stable_case_sensitive() {
    let lines = strings(&["Cat dog", "cat Dog", "CAT"]);
    let none: HashSet<String> = HashSet::new();
    let results = process_kwic(&lines, &none, true);
    assert_eq!(
        results,
        vec![
            pair("CAT", "CAT"),
            pair("Cat", "Cat dog"),
            pair("cat", "cat Dog"),
            pair("dog", "dog Cat"),
            pair("Dog", "Dog cat"),
        ]
    );
    for k in 0..results.len() - 1 {
        assert!(results[k].1.to_lowercase() <= results[k + 1].1.to_lowercase());
    }
}

#[test]
fn case_insensitive_emits_lower_case_throughout() {
    let lines = strings(&["The Quick Brown Fox"]);
    let none: HashSet<String> = HashSet::new();
    let insensitive = process_kwic(&lines, &none, false);
    assert_eq!(insensitive[0], pair("brown", "brown fox the quick"));
    let sensitive = process_kwic(&lines, &none, true);
    assert_eq!(sensitive[0], pair("Brown", "Brown Fox The Quick"));
}

#[test]
fn repeat_line_gives_two_identical_records() {
    let lines = strings(&["repeat repeat"]);
    let none: HashSet<String> = HashSet::new();
    let results = process_kwic(&lines, &none, false);
    assert_eq!(results, vec![pair("repeat", "repeat repeat"), pair("repeat", "repeat repeat")]);
}

#[test]
fn scenario_two_lines_with_default_stop_words() {
    let lines = strings(&["The quick brown fox", "A brown cat sat"]);
    let results = process_kwic(&lines, &default_stop_words(), false);
    assert_eq!(
        results,
        vec![
            pair("brown", "brown cat sat a"),
            pair("brown", "brown fox the quick"),
            pair("cat", "cat sat a brown"),
            pair("fox", "fox the quick brown"),
            pair("quick", "quick brown fox the"),
            pair("sat", "sat a brown cat"),
            pair("the", "the quick brown fox"),
        ]
    );
}

#[test]
fn stop_word_set_is_case_exact() {
    let lines = strings(&["De de"]);
    let stop: HashSet<String> = ["De".to_string()].into_iter().collect();
    assert_eq!(process_kwic(&lines, &stop, true), vec![pair("de", "de De")]);
    assert_eq!(process_kwic(&lines, &stop, false).len(), 2);
}

#[test]
fn default_stop_words_are_the_portuguese_set() {
    let set = default_stop_words();
    assert_eq!(set.len(), 12);
    for w in ["a", "o", "as", "os", "um", "uma", "é", "de", "do", "da", "no", "na"] {
        assert!(set.contains(w));
    }
}

#[test]
fn stop_words_from_a_list() {
    let listed = strings(&["the", "and", "the", ""]);
    let set = stop_words_from_lines(&listed);
    assert_eq!(set.len(), 3);
    assert!(set.contains("and") && set.contains("the") && set.contains(""));
    assert_eq!(stop_words_or_default(Some(&listed)), set);
    assert_eq!(stop_words_or_default(None), default_stop_words());
    assert!(stop_words_from_lines(&Vec::new()).is_empty());
}

#[test]
fn empty_input_is_an_error() {
    assert!(matches!(nonempty_lines(Vec::new()), Err(KwicError::EmptyInput)));
    let lines = strings(&["x"]);
    assert_eq!(nonempty_lines(lines.clone()).unwrap(), lines);
}

#[test]
fn error_messages() {
    assert_eq!(KwicError::EmptyInput.message(), "Input text is empty");
    let io = std::io::Error::new(std::io::ErrorKind::NotFound, "missing");
    let e = KwicError::from(io);
    assert!(matches!(e, KwicError::IoError(_)));
    assert_eq!(e.message(), "IO error: missing");
}
