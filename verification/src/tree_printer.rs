//! The tree printer: the contents of a directory as an indented tree.

use crate::letters::texts;
use crate::natural::{natural_rank, natural_ranking, ranking_view};
use vstd::prelude::*;
use vstd::string::StringExecFns;

verus! {

/// An entry of a directory: a file, or a folder with its own entries.
pub struct TreeEntry {
    /// The path of the entry, by which the entries of a directory are ranked.
    pub path: String,
    /// The file name of the entry, which is printed.
    pub name: String,
    /// Whether the entry is a folder.
    pub is_dir: bool,
    /// The entries of the folder; none for a file.
    pub children: Vec<TreeEntry>,
}

/// The path of each entry.
pub open spec fn entry_paths(entries: Seq<TreeEntry>) -> Seq<Seq<char>> {
    Seq::new(entries.len(), |i: int| entries[i].path@)
}

/// What stands before the name of an entry: one branch for the last entry
/// of its directory, another for the others.
pub open spec fn branch(is_last: bool) -> Seq<char> {
    if is_last {
        "└── "@
    } else {
        "├── "@
    }
}

/// What the indent of a folder's entries adds to the folder's own.
pub open spec fn padding(is_last: bool) -> Seq<char> {
    if is_last {
        "    "@
    } else {
        "│   "@
    }
}

/// The tree of the entries of a directory: a line for each entry, in the
/// natural order of their paths, and under each folder the tree of its
/// entries. With `folders_only`, files have no line.
pub open spec fn tree_text(entries: Seq<TreeEntry>, indent: Seq<char>, folders_only: bool) -> Seq<
    char,
>
    decreases entries, 1nat, 0nat,
{
    let ranking = natural_ranking(entry_paths(entries), entries.len());
    rows_text(entries, ranking, entries.len(), indent, folders_only)
}

/// The lines of the first `n` entries of a ranking, with what is under them.
pub open spec fn rows_text(
    entries: Seq<TreeEntry>,
    ranking: Seq<int>,
    n: nat,
    indent: Seq<char>,
    folders_only: bool,
) -> Seq<char>
    decreases entries, 0nat, n,
{
    if n == 0 {
        Seq::empty()
    } else {
        let k = ranking[n - 1];
        let before = rows_text(entries, ranking, (n - 1) as nat, indent, folders_only);
        if 0 <= k < entries.len() {
            before + entry_text(entries[k], n == entries.len(), indent, folders_only)
        } else {
            before
        }
    }
}

/// The line of an entry and, for a folder, the tree of its entries. The last
/// entry of a directory has a branch of its own, and what is under it is
/// indented without a rule.
pub open spec fn entry_text(
    entry: TreeEntry,
    is_last: bool,
    indent: Seq<char>,
    folders_only: bool,
) -> Seq<char>
    decreases entry, 0nat, 0nat,
{
    if folders_only && !entry.is_dir {
        Seq::empty()
    } else if entry.is_dir {
        indent + branch(is_last) + entry.name@ + "\n"@ + tree_text(
            entry.children@,
            indent + padding(is_last),
            folders_only,
        )
    } else {
        indent + branch(is_last) + entry.name@ + "\n"@
    }
}

/// Writes the tree of the entries of a directory, each line behind `indent`.
pub fn print_tree(entries: &Vec<TreeEntry>, indent: &str, folders_only: bool) -> (text: String)
    ensures
        text@ == tree_text(entries@, indent@, folders_only),
    decreases entries,
{
    let mut paths: Vec<String> = Vec::new();
    let mut i: usize = 0;
    while i < entries.len()
        invariant
            i <= entries.len(),
            paths.len() == i,
            forall|j: int| 0 <= j < i ==> (#[trigger] paths[j])@ == entries[j].path@,
        decreases entries.len() - i,
    {
        paths.push(entries[i].path.clone());
        i += 1;
    }
    assert(texts(paths@) =~= entry_paths(entries@));
    let ranking = natural_rank(&paths);
    let ghost ranks = ranking_view(ranking@);
    let mut text = String::new();
    let mut n: usize = 0;
    while n < ranking.len()
        invariant
            ranks == ranking_view(ranking@),
            ranking.len() == entries.len(),
            forall|j: int| 0 <= j < ranking.len() ==> #[trigger] ranking[j] < entries.len(),
            n <= ranking.len(),
            text@ == rows_text(entries@, ranks, n as nat, indent@, folders_only),
        decreases ranking.len() - n,
    {
        let entry = &entries[ranking[n]];
        let is_last = n + 1 == ranking.len();
        let ghost before = text@;
        if !folders_only || entry.is_dir {
            text.append(indent);
            text.append(if is_last { "└── " } else { "├── " });
            text.append(entry.name.as_str());
            text.append("\n");
            if entry.is_dir {
                let mut deeper = indent.to_owned();
                deeper.append(if is_last { "    " } else { "│   " });
                let under = print_tree(&entry.children, deeper.as_str(), folders_only);
                text.append(under.as_str());
            }
        }
        assert(text@ =~= before + entry_text(*entry, is_last, indent@, folders_only));
        n += 1;
    }
    text
}

} // verus!
