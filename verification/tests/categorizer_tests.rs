use sample_organizer::categorizer::{categorize_sample, first_match};
use sample_organizer::config::{CategoryPatterns, Config};
use std::path::Path;

fn category(name: &str, patterns: &[&str]) -> CategoryPatterns {
    CategoryPatterns {
        category: name.to_string(),
        patterns: patterns.iter().map(|p| p.to_string()).collect(),
    }
}

fn create_mock_config() -> Config {
    Config {
        patterns: vec![
            category("drums", &["kick", "snare"]),
            category("synth", &["pad", "lead"]),
        ],
    }
}

fn file_name(path: &Path) -> Option<&str> {
    path.file_name().and_then(|name| name.to_str())
}

#[test]
fn test_categorize_sample_match() {
    let config = create_mock_config();
    let path = Path::new("path/to/my_kick_sample.wav");
    assert_eq!(
        categorize_sample(file_name(path), &config),
        Some("drums".to_string())
    );
}

#[test]
fn test_categorize_sample_no_match() {
    let config = create_mock_config();
    let path = Path::new("path/to/my_vocal_sample.wav");
    assert_eq!(categorize_sample(file_name(path), &config), None);
}

#[test]
fn test_categorize_sample_multiple_patterns() {
    let config = create_mock_config();
    let path = Path::new("path/to/my_snare_drum.wav");
    assert_eq!(
        categorize_sample(file_name(path), &config),
        Some("drums".to_string())
    );
}

#[test]
fn test_categorize_sample_case_insensitivity() {
    let config = create_mock_config();
    let path = Path::new("path/to/My_Pad_Sound.wav");
    assert_eq!(
        categorize_sample(file_name(path), &config),
        Some("synth".to_string())
    );
}

#[test]
fn test_categorize_sample_empty_filename() {
    let config = create_mock_config();
    let path = Path::new("path/to/"); // No filename
    assert_eq!(categorize_sample(file_name(path), &config), None);
}

#[test]
fn sample_without_a_file_name_has_no_category() {
    let config = Config {
        patterns: vec![category("all", &[".*"])],
    };
    assert_eq!(categorize_sample(None, &config), None);
    assert_eq!(
        categorize_sample(file_name(Path::new("/")), &config),
        None
    );
    assert_eq!(
        categorize_sample(Some(""), &config),
        Some("all".to_string())
    );
}

#[test]
fn first_category_in_table_order_wins() {
    let config = Config {
        patterns: vec![
            category("none", &["zzz"]),
            category("first", &["nomatch", "kick"]),
            category("second", &["kick"]),
        ],
    };
    assert_eq!(
        categorize_sample(Some("kick.wav"), &config),
        Some("first".to_string())
    );
}

#[test]
fn patterns_are_regular_expressions() {
    let config = Config {
        patterns: vec![
            category("numbered", &[r"^\d+_"]),
            category("loops", &[r"loop(s)?\.wav$"]),
        ],
    };
    assert_eq!(
        categorize_sample(Some("01_kick.wav"), &config),
        Some("numbered".to_string())
    );
    assert_eq!(
        categorize_sample(Some("BassLoops.wav"), &config),
        Some("loops".to_string())
    );
    assert_eq!(categorize_sample(Some("a01_kick.wav"), &config), None);
}

#[test]
fn pattern_that_does_not_compile_is_passed_over() {
    let config = Config {
        patterns: vec![
            category("broken", &["kick("]),
            category("drums", &["(", "kick"]),
        ],
    };
    assert_eq!(
        categorize_sample(Some("kick.wav"), &config),
        Some("drums".to_string())
    );
}

#[test]
fn upper_case_pattern_does_not_match_the_lowered_name() {
    let config = Config {
        patterns: vec![category("drums", &["Kick"])],
    };
    assert_eq!(categorize_sample(Some("Kick.wav"), &config), None);
}

#[test]
fn empty_table_gives_no_category() {
    let config = Config { patterns: vec![] };
    assert_eq!(categorize_sample(Some("kick.wav"), &config), None);
    let config = Config {
        patterns: vec![category("empty", &[])],
    };
    assert_eq!(categorize_sample(Some("kick.wav"), &config), None);
}

#[test]
fn first_match_reads_the_outcomes() {
    assert_eq!(first_match(&vec![]), None);
    assert_eq!(first_match(&vec![vec![], vec![None, Some(false)]]), None);
    assert_eq!(
        first_match(&vec![
            vec![Some(false), None],
            vec![None, Some(true)],
            vec![Some(true)]
        ]),
        Some(1)
    );
    assert_eq!(first_match(&vec![vec![Some(true)]]), Some(0));
}
