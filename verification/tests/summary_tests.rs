use sample_organizer::summary::{
    count_categories, render_counts, render_tally, tally, text_order, CategoryCount,
};

fn some(name: &str) -> Option<String> {
    Some(name.to_string())
}

fn chars(text: &str) -> Vec<char> {
    text.chars().collect()
}

fn counts_of(categories: &[Option<String>]) -> Vec<(String, usize)> {
    count_categories(&categories.to_vec())
        .into_iter()
        .map(|c| (c.category, c.count))
        .collect()
}

#[test]
fn categories_are_counted_in_the_order_of_their_names() {
    let categories = [
        some("synth"),
        None,
        some("drums"),
        some("synth"),
        some("bass"),
        some("synth"),
        None,
        some("drums"),
    ];
    assert_eq!(
        counts_of(&categories),
        vec![
            ("bass".to_string(), 1),
            ("drums".to_string(), 2),
            ("synth".to_string(), 3),
        ]
    );
    assert_eq!(counts_of(&[]), vec![]);
    assert_eq!(counts_of(&[None, None]), vec![]);
}

#[test]
fn category_names_are_ordered_as_strings_are() {
    let names = ["b", "", "a", "Z", "ab", "a", "é", "z", "aa", "B"];
    let categories: Vec<Option<String>> = names.iter().map(|n| some(n)).collect();
    let counted: Vec<String> = counts_of(&categories).into_iter().map(|c| c.0).collect();
    let mut expected: Vec<String> = names.iter().map(|n| n.to_string()).collect();
    expected.sort();
    expected.dedup();
    assert_eq!(counted, expected);
}

#[test]
fn text_order_is_by_code_point() {
    assert_eq!(text_order(&chars("abc"), &chars("abd")), -1);
    assert_eq!(text_order(&chars("abd"), &chars("abc")), 1);
    assert_eq!(text_order(&chars("abc"), &chars("abc")), 0);
    assert_eq!(text_order(&chars("ab"), &chars("abc")), -1);
    assert_eq!(text_order(&chars("abc"), &chars("ab")), 1);
    assert_eq!(text_order(&chars(""), &chars("")), 0);
    assert_eq!(text_order(&chars(""), &chars("a")), -1);
    assert_eq!(text_order(&chars("Z"), &chars("a")), -1);
    assert_eq!(text_order(&chars("z"), &chars("é")), -1);
}

#[test]
fn tally_counts_both_kinds() {
    let counts = tally(&vec![some("a"), None, some("b"), some("a"), None]);
    assert_eq!(counts.categorized, 3);
    assert_eq!(counts.uncategorized, 2);
    let counts = tally(&Vec::new());
    assert_eq!(counts.categorized, 0);
    assert_eq!(counts.uncategorized, 0);
    assert_eq!(
        render_tally(&tally(&vec![some("a"), None, some("b")])),
        "-\nOrganization complete.\nCopied 2 files.\n1 files were not categorized.\n"
    );
}

#[test]
fn counts_are_listed_or_said_to_be_none() {
    assert_eq!(render_counts(&Vec::new()), "No matching samples found.\n");
    let counts = vec![
        CategoryCount {
            category: "drums".to_string(),
            count: 12,
        },
        CategoryCount {
            category: "synth".to_string(),
            count: 1,
        },
    ];
    assert_eq!(
        render_counts(&counts),
        "Matched sample categories:\n- drums: 12\n- synth: 1\n"
    );
}
