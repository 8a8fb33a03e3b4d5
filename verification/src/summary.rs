//! Summaries of a run: how many samples each category got, and how many got
//! none.

use crate::letters::chars_of;
use crate::report::{decimal, decimal_string};
use vstd::prelude::*;
use vstd::string::StringExecFns;

verus! {

/// A category and the number of samples that it got.
pub struct CategoryCount {
    pub category: String,
    pub count: usize,
}

/// How many samples got a category, and how many got none.
pub struct Tally {
    pub categorized: usize,
    pub uncategorized: usize,
}

/// `a` stands before `b` in the order of texts: character by character, by
/// code point, a text before those that it begins.
pub open spec fn stands_before(a: Seq<char>, b: Seq<char>) -> bool
    decreases a.len(),
{
    if b.len() == 0 {
        false
    } else if a.len() == 0 {
        true
    } else if a[0] != b[0] {
        a[0] < b[0]
    } else {
        stands_before(a.drop_first(), b.drop_first())
    }
}

/// Sample `k` got the category `name`.
pub open spec fn got(categories: Seq<Option<String>>, k: int, name: Seq<char>) -> bool {
    categories[k] matches Some(category) && category@ == name
}

/// How many of the first `n` samples got the category `name`.
pub open spec fn occurrences(categories: Seq<Option<String>>, n: nat, name: Seq<char>) -> nat
    decreases n,
{
    if n == 0 {
        0
    } else if got(categories, n - 1, name) {
        occurrences(categories, (n - 1) as nat, name) + 1
    } else {
        occurrences(categories, (n - 1) as nat, name)
    }
}

/// The counts list their categories in the order of texts, each once.
pub open spec fn in_order(counts: Seq<CategoryCount>) -> bool {
    forall|i: int, j: int|
        0 <= i < j < counts.len() ==> stands_before(
            (#[trigger] counts[i]).category@,
            (#[trigger] counts[j]).category@,
        )
}

/// The counts are those of the first `n` samples: each category that a
/// sample got has its count, and no other has one.
pub open spec fn counts_all(counts: Seq<CategoryCount>, categories: Seq<Option<String>>, n: nat) -> bool {
    &&& forall|i: int|
        0 <= i < counts.len() ==> (#[trigger] counts[i]).count > 0 && counts[i].count
            == occurrences(categories, n, counts[i].category@)
    &&& forall|k: int|
        0 <= k < n && categories[k] is Some ==> exists|i: int|
            0 <= i < counts.len() && #[trigger] got(categories, k, counts[i].category@)
}

/// How many of the first `n` samples got a category.
pub open spec fn categorized(categories: Seq<Option<String>>, n: nat) -> nat
    decreases n,
{
    if n == 0 {
        0
    } else if categories[n - 1] is Some {
        categorized(categories, (n - 1) as nat) + 1
    } else {
        categorized(categories, (n - 1) as nat)
    }
}

/// Of two different texts, one stands before the other.
pub proof fn lemma_one_stands_before(a: Seq<char>, b: Seq<char>)
    ensures
        a == b || stands_before(a, b) || stands_before(b, a),
        !(stands_before(a, b) && stands_before(b, a)),
        !stands_before(a, a),
    decreases a.len(),
{
    if a.len() > 0 && b.len() > 0 && a[0] == b[0] {
        lemma_one_stands_before(a.drop_first(), b.drop_first());
        if a.drop_first() == b.drop_first() {
            assert(a =~= b) by {
                assert forall|i: int| 0 <= i < a.len() implies a[i] == b[i] by {
                    if i > 0 {
                        assert(b[i] == b.drop_first()[i - 1]);
                    }
                }
            }
        }
    }
    if a.len() > 0 {
        lemma_never_before_itself(a);
    }
}

proof fn lemma_never_before_itself(a: Seq<char>)
    ensures
        !stands_before(a, a),
    decreases a.len(),
{
    if a.len() > 0 {
        lemma_never_before_itself(a.drop_first());
    }
}

/// What stands before a text stands before all that the text stands before.
pub proof fn lemma_stands_before_chain(a: Seq<char>, b: Seq<char>, c: Seq<char>)
    requires
        stands_before(a, b),
        stands_before(b, c),
    ensures
        stands_before(a, c),
    decreases a.len(),
{
    if a.len() > 0 && a[0] == b[0] && b[0] == c[0] {
        lemma_stands_before_chain(a.drop_first(), b.drop_first(), c.drop_first());
    }
}

/// Whether `a` stands before `b`, or is `b`, or stands after it: `-1`, `0`
/// or `1`.
pub fn text_order(a: &Vec<char>, b: &Vec<char>) -> (order: i8)
    ensures
        -1 <= order <= 1,
        order == -1 <==> stands_before(a@, b@),
        order == 0 <==> a@ == b@,
        order == 1 <==> stands_before(b@, a@),
{
    let mut i: usize = 0;
    assert(a@.skip(0) =~= a@);
    assert(b@.skip(0) =~= b@);
    while i < a.len() && i < b.len() && a[i] == b[i]
        invariant
            i <= a.len(),
            i <= b.len(),
            stands_before(a@, b@) == stands_before(a@.skip(i as int), b@.skip(i as int)),
            stands_before(b@, a@) == stands_before(b@.skip(i as int), a@.skip(i as int)),
            a@ == b@ <==> a@.skip(i as int) == b@.skip(i as int),
        decreases a.len() - i,
    {
        proof {
            let x = a@.skip(i as int);
            let y = b@.skip(i as int);
            assert(x.drop_first() =~= a@.skip(i + 1));
            assert(y.drop_first() =~= b@.skip(i + 1));
            if x.drop_first() == y.drop_first() {
                assert(x =~= seq![x[0]] + x.drop_first());
                assert(y =~= seq![y[0]] + y.drop_first());
            }
        }
        i += 1;
    }
    proof {
        let x = a@.skip(i as int);
        let y = b@.skip(i as int);
        lemma_one_stands_before(x, y);
    }
    if i == a.len() {
        if i == b.len() {
            0
        } else {
            -1
        }
    } else if i == b.len() {
        1
    } else if a[i] < b[i] {
        -1
    } else {
        1
    }
}

/// What is said at the end of a run that sorted samples into folders.
pub open spec fn tally_text(categorized: nat, uncategorized: nat) -> Seq<char> {
    "-\nOrganization complete.\nCopied "@ + decimal(categorized) + " files.\n"@ + decimal(
        uncategorized,
    ) + " files were not categorized.\n"@
}

/// The line of a category and its count.
pub open spec fn count_line(category: Seq<char>, count: nat) -> Seq<char> {
    "- "@ + category + ": "@ + decimal(count) + "\n"@
}

/// The lines of the first `n` counts.
pub open spec fn count_lines(counts: Seq<CategoryCount>, n: nat) -> Seq<char>
    decreases n,
{
    if n == 0 {
        Seq::empty()
    } else {
        count_lines(counts, (n - 1) as nat) + count_line(
            counts[n - 1].category@,
            counts[n - 1].count as nat,
        )
    }
}

/// The list of the categories that samples got, or the word that none did.
pub open spec fn counts_text(counts: Seq<CategoryCount>) -> Seq<char> {
    if counts.len() == 0 {
        "No matching samples found.\n"@
    } else {
        "Matched sample categories:\n"@ + count_lines(counts, counts.len())
    }
}

/// A category is counted as often as samples got it: never more often than
/// there are samples, and once or more only if a sample got it.
pub proof fn lemma_occurrences(categories: Seq<Option<String>>, n: nat, name: Seq<char>)
    ensures
        occurrences(categories, n, name) <= n,
        occurrences(categories, n, name) > 0 ==> exists|k: int|
            0 <= k < n && #[trigger] got(categories, k, name),
    decreases n,
{
    if n > 0 {
        lemma_occurrences(categories, (n - 1) as nat, name);
    }
}

/// Counts the samples of each category. The categories stand in the order
/// of texts, each once, with the number of samples that got it; a sample
/// without a category is not counted.
pub fn count_categories(categories: &Vec<Option<String>>) -> (counts: Vec<CategoryCount>)
    ensures
        in_order(counts@),
        counts_all(counts@, categories@, categories@.len()),
{
    let mut counts: Vec<CategoryCount> = Vec::new();
    let mut n: usize = 0;
    while n < categories.len()
        invariant
            n <= categories.len(),
            in_order(counts@),
            counts_all(counts@, categories@, n as nat),
        decreases categories.len() - n,
    {
        let ghost before = counts@;
        match &categories[n] {
            None => {},
            Some(name) => {
                let chars = chars_of(name.as_str());
                let mut p: usize = 0;
                let mut found = false;
                while p < counts.len()
                    invariant_except_break
                        !found,
                    invariant
                        p <= counts.len(),
                        chars@ == name@,
                        forall|i: int|
                            0 <= i < p ==> stands_before((#[trigger] counts[i]).category@, name@),
                    ensures
                        p <= counts.len(),
                        chars@ == name@,
                        forall|i: int|
                            0 <= i < p ==> stands_before((#[trigger] counts[i]).category@, name@),
                        found ==> p < counts.len() && counts[p as int].category@ == name@,
                        !found && p < counts.len() ==> stands_before(
                            name@,
                            counts[p as int].category@,
                        ),
                    decreases counts.len() - p,
                {
                    let order = text_order(&chars_of(counts[p].category.as_str()), &chars);
                    if order != -1 {
                        found = order == 0;
                        break;
                    }
                    p += 1;
                }
                proof {
                    lemma_occurrences(categories@, n as nat, name@);
                    assert forall|i: int| 0 <= i < before.len() && i != p implies (
                    #[trigger] before[i]).category@ != name@ by {
                        lemma_one_stands_before(before[i].category@, name@);
                        if i > p {
                            if !found {
                                lemma_stands_before_chain(
                                    name@,
                                    before[p as int].category@,
                                    before[i].category@,
                                );
                            }
                        }
                    }
                }
                if found {
                    let mut entry = counts.remove(p);
                    entry.count += 1;
                    counts.insert(p, entry);
                    proof {
                        assert forall|i: int| 0 <= i < counts.len() implies (#[trigger] counts[i]).category@
                            == before[i].category@ by {}
                        assert forall|k: int|
                            0 <= k < n + 1 && categories@[k] is Some implies exists|i: int|
                            0 <= i < counts.len() && #[trigger] got(
                                categories@,
                                k,
                                counts[i].category@,
                            ) by {
                            if k < n {
                                let i = choose|i: int|
                                    0 <= i < before.len() && #[trigger] got(
                                        categories@,
                                        k,
                                        before[i].category@,
                                    );
                                assert(got(categories@, k, counts[i].category@));
                            } else {
                                assert(got(categories@, k, counts[p as int].category@));
                            }
                        }
                    }
                } else {
                    proof {
                        if occurrences(categories@, n as nat, name@) > 0 {
                            let k = choose|k: int| 0 <= k < n && #[trigger] got(categories@, k, name@);
                            let i = choose|i: int|
                                0 <= i < before.len() && #[trigger] got(
                                    categories@,
                                    k,
                                    before[i].category@,
                                );
                            if i == p {
                                lemma_one_stands_before(name@, name@);
                            }
                        }
                    }
                    counts.insert(p, CategoryCount { category: name.clone(), count: 1 });
                    proof {
                        assert forall|i: int, j: int| 0 <= i < j < counts.len() implies stands_before(
                            (#[trigger] counts[i]).category@,
                            (#[trigger] counts[j]).category@,
                        ) by {
                            if i == p && j > p + 1 {
                                lemma_stands_before_chain(
                                    name@,
                                    before[p as int].category@,
                                    before[j - 1].category@,
                                );
                            }
                        }
                        assert forall|i: int| 0 <= i < counts.len() implies (#[trigger] counts[i]).count
                            > 0 && counts[i].count == occurrences(
                            categories@,
                            (n + 1) as nat,
                            counts[i].category@,
                        ) by {
                        }
                        assert forall|k: int|
                            0 <= k < n + 1 && categories@[k] is Some implies exists|i: int|
                            0 <= i < counts.len() && #[trigger] got(
                                categories@,
                                k,
                                counts[i].category@,
                            ) by {
                            if k < n {
                                let i = choose|i: int|
                                    0 <= i < before.len() && #[trigger] got(
                                        categories@,
                                        k,
                                        before[i].category@,
                                    );
                                let ni = if i < p { i } else { i + 1 };
                                assert(got(categories@, k, counts[ni].category@));
                            } else {
                                assert(got(categories@, k, counts[p as int].category@));
                            }
                        }
                    }
                }
            },
        }
        n += 1;
    }
    counts
}

/// Counts the samples that got a category and those that got none.
pub fn tally(categories: &Vec<Option<String>>) -> (counts: Tally)
    ensures
        counts.categorized == categorized(categories@, categories@.len()),
        counts.categorized + counts.uncategorized == categories@.len(),
{
    let mut counts = Tally { categorized: 0, uncategorized: 0 };
    let mut n: usize = 0;
    while n < categories.len()
        invariant
            n <= categories.len(),
            counts.categorized == categorized(categories@, n as nat),
            counts.categorized + counts.uncategorized == n,
        decreases categories.len() - n,
    {
        match &categories[n] {
            Some(_) => {
                counts.categorized += 1;
            },
            None => {
                counts.uncategorized += 1;
            },
        }
        n += 1;
    }
    counts
}

/// Writes what is said at the end of a run that sorted samples into
/// folders: every sample with a category counts as copied.
pub fn render_tally(counts: &Tally) -> (text: String)
    ensures
        text@ == tally_text(counts.categorized as nat, counts.uncategorized as nat),
{
    let mut text = "-\nOrganization complete.\nCopied ".to_owned();
    text.append(decimal_string(counts.categorized).as_str());
    text.append(" files.\n");
    text.append(decimal_string(counts.uncategorized).as_str());
    text.append(" files were not categorized.\n");
    text
}

/// Writes the list of the categories that samples got.
pub fn render_counts(counts: &Vec<CategoryCount>) -> (text: String)
    ensures
        text@ == counts_text(counts@),
{
    if counts.len() == 0 {
        return "No matching samples found.\n".to_owned();
    }
    let mut text = "Matched sample categories:\n".to_owned();
    let mut n: usize = 0;
    while n < counts.len()
        invariant
            n <= counts.len(),
            text@ == "Matched sample categories:\n"@ + count_lines(counts@, n as nat),
        decreases counts.len() - n,
    {
        text.append("- ");
        text.append(counts[n].category.as_str());
        text.append(": ");
        text.append(decimal_string(counts[n].count).as_str());
        text.append("\n");
        n += 1;
    }
    text
}

} // verus!
