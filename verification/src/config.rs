//! The pattern table that sorts samples into categories.

use vstd::prelude::*;

verus! {

/// A category and the regular expressions that put a sample into it.
pub struct CategoryPatterns {
    pub category: String,
    pub patterns: Vec<String>,
}

/// The pattern table: the categories in the order in which they are tried.
pub struct Config {
    pub patterns: Vec<CategoryPatterns>,
}

} // verus!
