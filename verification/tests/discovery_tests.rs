use sample_organizer::discoverer::discover_patterns;
use sample_organizer::grouping::group_rows;
use sample_organizer::natural::{insertion_place, natural_rank};
use sample_organizer::patterns::{folder_patterns, group_stems, select_patterns, PatternGroup};
use sample_organizer::report::{decimal_string, render_folder};
use sample_organizer::sample_finder::{
    collect_folders, find_samples, is_audio_extension, is_sample, ScannedEntry,
};

fn strings(items: &[&str]) -> Vec<String> {
    items.iter().map(|s| s.to_string()).collect()
}

fn file(folder: &str, name: &str) -> ScannedEntry {
    let (stem, extension) = match name.rfind('.') {
        Some(dot) => (name[..dot].to_string(), Some(name[dot + 1..].to_string())),
        None => (name.to_string(), None),
    };
    ScannedEntry {
        path: format!("{}/{}", folder, name),
        is_file: true,
        extension,
        stem: Some(stem),
        folder: Some(folder.to_string()),
    }
}

fn groups_of(stems: &[&str]) -> Vec<(String, Vec<String>)> {
    group_stems(&strings(stems))
        .into_iter()
        .map(|g| (g.prefix, g.stems))
        .collect()
}

fn lines_of(stems: &[&str]) -> Vec<(String, usize)> {
    folder_patterns(&strings(stems))
        .into_iter()
        .map(|l| (l.prefix, l.count))
        .collect()
}

#[test]
fn kicks_snare_and_vocal_give_three_lines() {
    let stems = ["kick_01", "kick_02", "snare_01", "vocal_fx"];
    assert_eq!(
        groups_of(&stems),
        vec![
            ("kick_0".to_string(), strings(&["kick_01", "kick_02"])),
            ("snare_01".to_string(), strings(&["snare_01"])),
            ("vocal_fx".to_string(), strings(&["vocal_fx"])),
        ]
    );
    assert_eq!(
        lines_of(&stems),
        vec![
            ("kick_0".to_string(), 2),
            ("snare_01".to_string(), 1),
            ("vocal_fx".to_string(), 1),
        ]
    );
    let entries: Vec<ScannedEntry> = stems
        .iter()
        .map(|s| file("drums", &format!("{}.wav", s)))
        .collect();
    assert_eq!(
        discover_patterns(&entries),
        "drums\n\
         - pattern like 'kick_0*': 2 files\n\
         - pattern like 'snare_01*': 1 files\n\
         - pattern like 'vocal_fx*': 1 files\n\
         \n"
    );
}

#[test]
fn three_shared_characters_are_below_the_threshold() {
    assert_eq!(
        lines_of(&["ab_x", "ab_y", "ac_z"]),
        vec![
            ("ab_x".to_string(), 1),
            ("ab_y".to_string(), 1),
            ("ac_z".to_string(), 1),
        ]
    );
    assert_eq!(
        groups_of(&["abc1", "abc2"]),
        vec![
            ("abc1".to_string(), strings(&["abc1"])),
            ("abc2".to_string(), strings(&["abc2"])),
        ]
    );
}

#[test]
fn four_shared_characters_meet_the_threshold() {
    assert_eq!(
        groups_of(&["abcd1", "abcd2"]),
        vec![("abcd".to_string(), strings(&["abcd1", "abcd2"]))]
    );
    // A short shared prefix never groups, even if it is a whole stem.
    assert_eq!(
        groups_of(&["abc", "abc"]),
        vec![
            ("abc".to_string(), strings(&["abc"])),
            ("abc".to_string(), strings(&["abc"])),
        ]
    );
    assert_eq!(
        groups_of(&["abcd", "abcd"]),
        vec![("abcd".to_string(), strings(&["abcd", "abcd"]))]
    );
}

#[test]
fn threshold_counts_characters() {
    // Two characters of two bytes each are not four characters.
    assert_eq!(
        groups_of(&["ääx", "ääy"]),
        vec![
            ("ääx".to_string(), strings(&["ääx"])),
            ("ääy".to_string(), strings(&["ääy"])),
        ]
    );
}

#[test]
fn case_variants_are_merged() {
    assert_eq!(
        groups_of(&["Loop1", "loop2"]),
        vec![("Loop".to_string(), strings(&["Loop1", "loop2"]))]
    );
    assert_eq!(lines_of(&["Loop1", "loop2"]), vec![("Loop".to_string(), 2)]);
}

#[test]
fn running_prefix_shrinks_as_stems_join() {
    // "kick_hard" joins on "kick_", then "kick" joins on "kick".
    assert_eq!(
        groups_of(&["kick_01", "snare", "kick_hard", "kick", "kic"]),
        vec![
            (
                "kick".to_string(),
                strings(&["kick_01", "kick_hard", "kick"])
            ),
            ("snare".to_string(), strings(&["snare"])),
            ("kic".to_string(), strings(&["kic"])),
        ]
    );
}

#[test]
fn later_stems_are_tried_against_the_shrunk_prefix() {
    // Once "loopy" has joined, the prefix is "loop": "loop_bass" shares
    // four characters with it and joins, "loo" does not.
    assert_eq!(
        groups_of(&["loop_a1", "loopy", "loop_bass", "loo"]),
        vec![
            (
                "loop".to_string(),
                strings(&["loop_a1", "loopy", "loop_bass"])
            ),
            ("loo".to_string(), strings(&["loo"])),
        ]
    );
}

#[test]
fn group_rows_gives_indices() {
    let rows = vec![
        strings(&["k", "i", "c", "k", "1"]),
        strings(&["s", "n", "a", "r", "e"]),
        strings(&["k", "i", "c", "k", "2"]),
        strings(&["s", "n", "a", "r", "l"]),
    ];
    assert_eq!(group_rows(&rows), vec![vec![0, 2], vec![1, 3]]);
    let none: Vec<Vec<String>> = Vec::new();
    assert_eq!(group_rows(&none), Vec::<Vec<usize>>::new());
}

#[test]
fn every_stem_is_in_one_group() {
    let stems = strings(&["a_1", "loop_x", "a_1", "loop_y", "", "LOOP_z", "b"]);
    let groups = group_stems(&stems);
    let mut all: Vec<String> = groups.iter().flat_map(|g| g.stems.clone()).collect();
    let mut given = stems.clone();
    all.sort();
    given.sort();
    assert_eq!(all, given);
    assert!(groups.iter().all(|g| !g.stems.is_empty()));
}

#[test]
fn duplicate_prefixes_are_reported_once() {
    // Two singleton groups with the same stem: the second is passed over.
    assert_eq!(lines_of(&["abc", "abc"]), vec![("abc".to_string(), 1)]);
    // Letter case aside.
    assert_eq!(lines_of(&["abc", "ABC"]), vec![("abc".to_string(), 1)]);
    assert_eq!(
        lines_of(&["abc", "x", "ABC", "X", "y"]),
        vec![
            ("abc".to_string(), 1),
            ("x".to_string(), 1),
            ("y".to_string(), 1),
        ]
    );
}

#[test]
fn empty_prefix_is_not_reported() {
    assert_eq!(groups_of(&[""]), vec![("".to_string(), strings(&[""]))]);
    assert_eq!(lines_of(&[""]), Vec::<(String, usize)>::new());
    assert_eq!(lines_of(&[]), Vec::<(String, usize)>::new());
}

#[test]
fn select_patterns_reads_the_prefix_given() {
    let groups = vec![
        PatternGroup {
            prefix: "Kick".to_string(),
            stems: strings(&["Kick1", "Kick2"]),
        },
        PatternGroup {
            prefix: "".to_string(),
            stems: strings(&["x"]),
        },
        PatternGroup {
            prefix: "kick".to_string(),
            stems: strings(&["kick"]),
        },
        PatternGroup {
            prefix: "hat".to_string(),
            stems: strings(&["hat", "hat2", "hat3"]),
        },
    ];
    let lines: Vec<(String, usize)> = select_patterns(&groups)
        .into_iter()
        .map(|l| (l.prefix, l.count))
        .collect();
    assert_eq!(lines, vec![("Kick".to_string(), 2), ("hat".to_string(), 3)]);
}

#[test]
fn seen_prefixes_are_kept_in_lower_case() {
    // Would fail if the lower-case form were the text as given.
    assert_eq!(lines_of(&["ABC", "abc"]), vec![("ABC".to_string(), 1)]);
}

#[test]
fn folders_are_reported_in_natural_order() {
    let entries = vec![
        file("v10", "a.wav"),
        file("v1", "b.wav"),
        file("v2", "c.wav"),
    ];
    assert_eq!(
        discover_patterns(&entries),
        "v1\n- pattern like 'b*': 1 files\n\n\
         v2\n- pattern like 'c*': 1 files\n\n\
         v10\n- pattern like 'a*': 1 files\n\n"
    );
}

#[test]
fn natural_rank_orders_numbers_by_value() {
    assert_eq!(natural_rank(&strings(&["v1", "v10", "v2"])), vec![0, 2, 1]);
    assert_eq!(
        natural_rank(&strings(&["track10", "track2", "track1"])),
        vec![2, 1, 0]
    );
    assert_eq!(natural_rank(&strings(&[])), Vec::<usize>::new());
    // Would fail if the comparison were by characters.
    assert_eq!(natural_rank(&strings(&["a100", "a20"])), vec![1, 0]);
}

#[test]
fn natural_rank_keeps_the_order_of_keys_that_compare_alike() {
    // Spaces do not count in the comparison.
    assert_eq!(natural_rank(&strings(&["b", "a 1", "a1", "a"])), vec![3, 1, 2, 0]);
}

#[test]
fn insertion_place_is_before_the_last_run_that_comes_after() {
    assert_eq!(insertion_place(&vec![-1, 0, 1, 1]), 2);
    assert_eq!(insertion_place(&vec![1, 1]), 0);
    assert_eq!(insertion_place(&vec![-1, -1]), 2);
    assert_eq!(insertion_place(&vec![1, -1, 1]), 2);
    assert_eq!(insertion_place(&vec![]), 0);
    assert_eq!(insertion_place(&vec![0]), 1);
}

#[test]
fn scan_keeps_samples_only() {
    let mut not_a_file = file("a", "dir.wav");
    not_a_file.is_file = false;
    let mut no_stem = file("a", "x.wav");
    no_stem.stem = None;
    let mut no_parent = file("a", "root.WAV");
    no_parent.folder = None;
    let entries = vec![
        file("b", "one.wav"),
        file("a", "two.Wav"),
        file("b", "three.mp3"),
        not_a_file,
        file("b", "four.wav"),
        file("a", "noext"),
        no_stem,
        no_parent,
        file("a", "five.wave"),
        file("a", "six.wa"),
    ];
    let folders: Vec<(String, Vec<String>)> = collect_folders(&entries)
        .into_iter()
        .map(|f| (f.path, f.stems))
        .collect();
    assert_eq!(
        folders,
        vec![
            ("b".to_string(), strings(&["one", "four"])),
            ("a".to_string(), strings(&["two"])),
            (".".to_string(), strings(&["root"])),
        ]
    );
    assert_eq!(
        find_samples(&entries),
        strings(&["b/one.wav", "a/two.Wav", "b/four.wav", "a/x.wav", "a/root.WAV"])
    );
}

#[test]
fn audio_extension_is_wav_in_any_case() {
    for ext in ["wav", "WAV", "Wav", "wAv", "waV"] {
        assert!(is_audio_extension(ext), "{}", ext);
    }
    for ext in ["", "wa", "wave", "mp3", "aiff", "w\u{e4}v", "vaw", " wav"] {
        assert!(!is_audio_extension(ext), "{}", ext);
    }
    assert!(is_sample(&file("a", "x.wav")));
    assert!(!is_sample(&file("a", "x.mp3")));
    assert!(!is_sample(&file("a", "wav")));
}

#[test]
fn test_find_samples_empty_dir() {
    let samples = find_samples(&Vec::new());
    assert!(samples.is_empty());
}

#[test]
fn test_find_samples_no_wav_files() {
    let entries = vec![file("dir", "sample1.mp3"), file("dir", "sample2.aiff")];
    let samples = find_samples(&entries);
    assert!(samples.is_empty());
}

#[test]
fn test_find_samples_basic() {
    let mut subdir = file("dir", "subdir");
    subdir.is_file = false;
    let entries = vec![
        file("dir", "sample1.wav"),
        file("dir", "sample2.mp3"),
        subdir,
        file("dir/subdir", "sample3.wav"),
    ];
    let samples = find_samples(&entries);
    assert_eq!(samples.len(), 2);
    assert!(samples.contains(&"dir/sample1.wav".to_string()));
    assert!(samples.contains(&"dir/subdir/sample3.wav".to_string()));
    assert!(!samples.contains(&"dir/sample2.mp3".to_string()));
}

#[test]
fn test_find_samples_nested_dirs() {
    let entries = vec![
        file("dir/a", "sample_a.wav"),
        file("dir/a/b", "sample_b.wav"),
        file("dir/a/b/c", "sample_c.wav"),
    ];
    let samples = find_samples(&entries);
    assert_eq!(samples.len(), 3);
    assert!(samples.contains(&"dir/a/sample_a.wav".to_string()));
    assert!(samples.contains(&"dir/a/b/sample_b.wav".to_string()));
    assert!(samples.contains(&"dir/a/b/c/sample_c.wav".to_string()));
}

#[test]
fn report_of_an_empty_scan_is_empty() {
    assert_eq!(discover_patterns(&Vec::new()), "");
}

#[test]
fn folder_without_reported_groups_has_header_and_blank_line() {
    assert_eq!(render_folder("some/dir", &Vec::new()), "some/dir\n\n");
}

#[test]
fn decimal_string_writes_digits() {
    assert_eq!(decimal_string(0), "0");
    assert_eq!(decimal_string(7), "7");
    assert_eq!(decimal_string(10), "10");
    assert_eq!(decimal_string(1234567890), "1234567890");
    assert_eq!(decimal_string(usize::MAX), usize::MAX.to_string());
}

#[test]
fn folders_are_kept_apart() {
    let entries = vec![
        file("x", "kick_1.wav"),
        file("y", "kick_2.wav"),
        file("x", "kick_3.wav"),
    ];
    assert_eq!(
        discover_patterns(&entries),
        "x\n- pattern like 'kick_*': 2 files\n\n\
         y\n- pattern like 'kick_2*': 1 files\n\n"
    );
}
