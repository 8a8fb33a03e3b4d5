//! A sample organizer: it finds the naming patterns that the audio samples
//! of each folder share, sorts samples into categories by their file names,
//! and prints directory trees.
//!
//! The library computes on plain values and touches no file. A caller walks
//! the directories, hands over what it found, and writes out what comes back.
//!
//! - [`sample_finder`]: which entries of a walk are samples, and the stems
//!   that each folder holds.
//! - [`prefix`]: the longest prefix that strings have in common.
//! - [`grouping`]: the groups of rows that share a long enough prefix.
//! - [`patterns`]: the groups of a folder's stems, and those that are
//!   reported.
//! - [`natural`]: ranking in natural order.
//! - [`report`] and [`discoverer`]: the text of a report.
//! - [`config`] and [`categorizer`]: the pattern table, and the category of
//!   a sample.
//! - [`copier`]: the steps of copying a sample into its category's folder.
//! - [`tree_printer`]: a directory as an indented tree.
//! - [`summary`]: counts of a run.
//! - [`letters`]: letter case.

pub mod categorizer;
pub mod config;
pub mod copier;
pub mod discoverer;
pub mod grouping;
pub mod letters;
pub mod natural;
pub mod patterns;
pub mod prefix;
pub mod report;
pub mod sample_finder;
pub mod summary;
pub mod tree_printer;
