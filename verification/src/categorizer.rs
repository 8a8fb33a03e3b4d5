//! The categorizer: the category of a sample, by the regular expressions of
//! the pattern table.

use crate::config::Config;
use crate::letters::{lowercase, to_lowercase};
use regex::Regex;
use vstd::prelude::*;

verus! {

/// What the `regex` crate makes of `pattern` and `text`: nothing when it
/// does not take `pattern` for a regular expression, else whether the
/// expression matches somewhere in `text`.
pub uninterp spec fn regex_match(pattern: Seq<char>, text: Seq<char>) -> Option<bool>;

/// Trusted: `Regex::new` on `pattern`, then `Regex::is_match` on `text`.
/// Compiling reads the pattern alone, and fails with an error for one that is
/// invalid or too big; matching reads the compiled expression and the text
/// alone. So the outcome is a function of the two texts: `regex_match` of
/// them. Nothing is claimed of which patterns compile or match.
#[verifier::external_body]
fn match_regex(pattern: &str, text: &str) -> (outcome: Option<bool>)
    ensures
        outcome == regex_match(pattern@, text@),
{
    match Regex::new(pattern) {
        Ok(regex) => Some(regex.is_match(text)),
        Err(_) => None,
    }
}

/// One of the outcomes says that a pattern matched.
pub open spec fn any_match(outcomes: Seq<Option<bool>>) -> bool {
    exists|p: int| 0 <= p < outcomes.len() && #[trigger] outcomes[p] == Some(true)
}

/// Row `c` is the first row with a match.
pub open spec fn first_match_at(outcomes: Seq<Seq<Option<bool>>>, c: int) -> bool {
    &&& 0 <= c < outcomes.len()
    &&& any_match(outcomes[c])
    &&& forall|b: int| 0 <= b < c ==> !any_match(#[trigger] outcomes[b])
}

/// `found` is the first row with a match, or nothing where no row has one.
pub open spec fn is_first_match(outcomes: Seq<Seq<Option<bool>>>, found: Option<usize>) -> bool {
    match found {
        Some(c) => first_match_at(outcomes, c as int),
        None => forall|c: int| 0 <= c < outcomes.len() ==> !any_match(#[trigger] outcomes[c]),
    }
}

/// `category` is what the table makes of the file name `name`: the first
/// category with a pattern that matches it, or nothing where no pattern
/// does.
pub open spec fn is_category_of(config: Config, name: Seq<char>, category: Option<String>) -> bool {
    match category {
        Some(found) => exists|c: int|
            #[trigger] first_match_at(outcomes_of(config, name), c) && found@
                == config.patterns[c].category@,
        None => forall|c: int|
            0 <= c < config.patterns@.len() ==> !any_match(#[trigger] outcomes_of(config, name)[c]),
    }
}

/// The outcomes of the patterns of each category on a file name.
pub open spec fn outcomes_of(config: Config, name: Seq<char>) -> Seq<Seq<Option<bool>>> {
    Seq::new(
        config.patterns@.len(),
        |c: int|
            Seq::new(
                config.patterns[c].patterns@.len(),
                |p: int| regex_match(config.patterns[c].patterns[p]@, name),
            ),
    )
}

/// The outcomes of a list, as the specifications read them.
pub open spec fn outcome_rows(outcomes: Seq<Vec<Option<bool>>>) -> Seq<Seq<Option<bool>>> {
    Seq::new(outcomes.len(), |c: int| outcomes[c]@)
}

/// Whether one of the outcomes says that a pattern matched.
fn has_match(outcomes: &Vec<Option<bool>>) -> (found: bool)
    ensures
        found == any_match(outcomes@),
{
    let mut p: usize = 0;
    while p < outcomes.len()
        invariant
            p <= outcomes.len(),
            forall|q: int| 0 <= q < p ==> #[trigger] outcomes[q] != Some(true),
        decreases outcomes.len() - p,
    {
        match outcomes[p] {
            Some(true) => {
                return true;
            },
            _ => {},
        }
        p += 1;
    }
    false
}

/// The first category with a pattern that matched, given the outcome of each
/// pattern of each category. A pattern that did not compile counts as one
/// that did not match.
pub fn first_match(outcomes: &Vec<Vec<Option<bool>>>) -> (found: Option<usize>)
    ensures
        is_first_match(outcome_rows(outcomes@), found),
{
    let mut c: usize = 0;
    while c < outcomes.len()
        invariant
            c <= outcomes.len(),
            forall|b: int| 0 <= b < c ==> !any_match(#[trigger] outcome_rows(outcomes@)[b]),
        decreases outcomes.len() - c,
    {
        if has_match(&outcomes[c]) {
            return Some(c);
        }
        c += 1;
    }
    None
}

/// The category of a sample with the file name `file_name`: that of the
/// first category of the table with a pattern that matches the name in lower
/// case. There is none for a sample without a file name, and none when no
/// pattern matches.
pub fn categorize_sample(file_name: Option<&str>, config: &Config) -> (category: Option<String>)
    ensures
        file_name is None ==> category is None,
        file_name matches Some(name) ==> is_category_of(*config, lowercase(name@), category),
{
    let name = match file_name {
        Some(name) => to_lowercase(name),
        None => {
            return None;
        },
    };
    let mut outcomes: Vec<Vec<Option<bool>>> = Vec::new();
    let mut c: usize = 0;
    while c < config.patterns.len()
        invariant
            c <= config.patterns.len(),
            outcomes.len() == c,
            forall|b: int|
                0 <= b < c ==> (#[trigger] outcomes[b])@ == outcomes_of(*config, name@)[b],
        decreases config.patterns.len() - c,
    {
        let patterns = &config.patterns[c].patterns;
        let mut row: Vec<Option<bool>> = Vec::new();
        let mut p: usize = 0;
        while p < patterns.len()
            invariant
                p <= patterns.len(),
                row.len() == p,
                forall|q: int| 0 <= q < p ==> #[trigger] row[q] == regex_match(patterns[q]@, name@),
            decreases patterns.len() - p,
        {
            row.push(match_regex(patterns[p].as_str(), name.as_str()));
            p += 1;
        }
        outcomes.push(row);
        c += 1;
    }
    assert(outcome_rows(outcomes@) =~= outcomes_of(*config, name@));
    match first_match(&outcomes) {
        Some(c) => {
            Some(config.patterns[c].category.clone())
        },
        None => None,
    }
}

} // verus!
