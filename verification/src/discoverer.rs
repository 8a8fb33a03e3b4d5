//! Pattern discovery: from the entries of a directory walk to the report of
//! the naming patterns in each folder.

use crate::letters::texts;
use crate::natural::{natural_rank, natural_ranking, ranking_view};
use crate::patterns::{folder_patterns, pattern_lines};
use crate::report::{folder_text, render_folder};
use crate::sample_finder::{collect_folders, folder_views, folders_of, FolderView, ScannedEntry};
use vstd::prelude::*;
use vstd::string::StringExecFns;

verus! {

/// The path of each folder.
pub open spec fn folder_paths(folders: Seq<FolderView>) -> Seq<Seq<char>> {
    Seq::new(folders.len(), |i: int| folders[i].path)
}

/// The report of one folder: its path, then the patterns of its stems.
pub open spec fn folder_report(folder: FolderView) -> Seq<char> {
    folder_text(folder.path, pattern_lines(folder.stems))
}

/// The reports of the first `n` folders of a ranking, one after the other.
pub open spec fn reports(folders: Seq<FolderView>, ranking: Seq<int>, n: nat) -> Seq<char>
    decreases n,
{
    if n == 0 {
        Seq::empty()
    } else {
        reports(folders, ranking, (n - 1) as nat) + folder_report(folders[ranking[n - 1]])
    }
}

/// The report of a scan: the report of each folder that holds a sample, the
/// folders in the natural order of their paths.
pub open spec fn discovery(entries: Seq<ScannedEntry>) -> Seq<char> {
    let folders = folders_of(entries);
    let ranking = natural_ranking(folder_paths(folders), folders.len());
    reports(folders, ranking, folders.len())
}

/// Writes the pattern report of a scan. The samples are sorted by folder;
/// the folders are taken in the natural order of their paths; the stems of
/// each are grouped by the prefixes they share, and each group that is
/// reported gives a line under the folder's path.
pub fn discover_patterns(entries: &Vec<ScannedEntry>) -> (report: String)
    ensures
        report@ == discovery(entries@),
{
    let folders = collect_folders(entries);
    let ghost views = folder_views(folders@);
    let mut paths: Vec<String> = Vec::new();
    let mut i: usize = 0;
    while i < folders.len()
        invariant
            i <= folders.len(),
            paths.len() == i,
            forall|j: int| 0 <= j < i ==> (#[trigger] paths[j])@ == folders[j].path@,
        decreases folders.len() - i,
    {
        paths.push(folders[i].path.clone());
        i += 1;
    }
    assert(texts(paths@) =~= folder_paths(views));
    let ranking = natural_rank(&paths);
    let ghost ranks = ranking_view(ranking@);
    let mut report = String::new();
    let mut n: usize = 0;
    while n < ranking.len()
        invariant
            views == folder_views(folders@),
            ranks == ranking_view(ranking@),
            ranking.len() == folders.len(),
            forall|j: int| 0 <= j < ranking.len() ==> #[trigger] ranking[j] < folders.len(),
            n <= ranking.len(),
            report@ == reports(views, ranks, n as nat),
        decreases ranking.len() - n,
    {
        let folder = &folders[ranking[n]];
        let lines = folder_patterns(&folder.stems);
        let text = render_folder(folder.path.as_str(), &lines);
        report.append(text.as_str());
        n += 1;
    }
    report
}

} // verus!
