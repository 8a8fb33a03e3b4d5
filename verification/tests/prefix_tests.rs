use sample_organizer::prefix::{longest_common_prefix, shared_length};

fn strings(items: &[&str]) -> Vec<String> {
    items.iter().map(|s| s.to_string()).collect()
}

#[test]
fn test_longest_common_prefix_empty_list() {
    let strings: Vec<String> = Vec::new();
    assert_eq!(longest_common_prefix(&strings), "");
}

#[test]
fn test_longest_common_prefix_single_string() {
    let strings = vec!["apple".to_string()];
    assert_eq!(longest_common_prefix(&strings), "apple");
}

#[test]
fn test_longest_common_prefix_common_prefix() {
    let strings = vec![
        "flower".to_string(),
        "flow".to_string(),
        "flight".to_string(),
    ];
    assert_eq!(longest_common_prefix(&strings), "fl");
}

#[test]
fn test_longest_common_prefix_no_common_prefix() {
    let strings = vec![
        "dog".to_string(),
        "racecar".to_string(),
        "car".to_string(),
    ];
    assert_eq!(longest_common_prefix(&strings), "");
}

#[test]
fn test_longest_common_prefix_full_match() {
    let strings = vec![
        "apple".to_string(),
        "apple".to_string(),
        "apple".to_string(),
    ];
    assert_eq!(longest_common_prefix(&strings), "apple");
}

#[test]
fn test_longest_common_prefix_with_different_lengths() {
    let strings = vec![
        "testing".to_string(),
        "test".to_string(),
        "tester".to_string(),
    ];
    assert_eq!(longest_common_prefix(&strings), "test");
}

#[test]
fn test_longest_common_prefix_with_numbers_and_symbols() {
    let strings = vec![
        "123abc".to_string(),
        "123def".to_string(),
        "123ghi".to_string(),
    ];
    assert_eq!(longest_common_prefix(&strings), "123");
}

#[test]
fn test_longest_common_prefix_case_insensitive() {
    let strings = vec![
        "Apple".to_string(),
        "apple".to_string(),
        "App".to_string(),
    ];
    assert_eq!(longest_common_prefix(&strings), "App");
}

#[test]
fn prefix_keeps_the_case_of_the_first_string() {
    assert_eq!(longest_common_prefix(&strings(&["LOOP_a", "loop_b"])), "LOOP_");
    assert_eq!(longest_common_prefix(&strings(&["loop_a", "LOOP_b"])), "loop_");
}

#[test]
fn prefix_is_bounded_by_the_shortest_string() {
    assert_eq!(longest_common_prefix(&strings(&["abc", "abcdef", "ab"])), "ab");
    assert_eq!(longest_common_prefix(&strings(&["abc", ""])), "");
}

#[test]
fn prefix_counts_characters_not_bytes() {
    assert_eq!(longest_common_prefix(&strings(&["Ärger_1", "ärger_2"])), "Ärger_");
    assert_eq!(longest_common_prefix(&strings(&["été", "Étude"])), "ét");
}

#[test]
fn prefix_of_a_single_string_with_a_multi_character_lower_case() {
    // U+0130 has a lower-case mapping of two characters.
    assert_eq!(longest_common_prefix(&strings(&["\u{130}x"])), "\u{130}x");
}

#[test]
fn lower_case_is_looked_up_not_passed_through() {
    // Would fail if the upper-case letter were compared as it stands.
    assert_eq!(longest_common_prefix(&strings(&["K", "k"])), "K");
    assert_eq!(longest_common_prefix(&strings(&["k", "K"])), "k");
}

#[test]
fn shared_length_of_key_rows() {
    let rows = vec![strings(&["f", "l", "o"]), strings(&["f", "l", "i"])];
    assert_eq!(shared_length(&rows), 2);
    let rows = vec![strings(&["a", "b"]), strings(&["a", "b", "c"]), strings(&["a", "b"])];
    assert_eq!(shared_length(&rows), 2);
    let none: Vec<Vec<String>> = Vec::new();
    assert_eq!(shared_length(&none), 0);
    let one = vec![strings(&["x", "y", "z"])];
    assert_eq!(shared_length(&one), 3);
    let apart = vec![strings(&["x"]), strings(&["y"])];
    assert_eq!(shared_length(&apart), 0);
}
