//! The patterns of one folder: its stems in groups, each with the prefix
//! that its members share, and the groups that are reported.

use crate::grouping::{
    group_rows, grouping, index_list, index_lists, indices, lemma_groups_in_range,
    lemma_groups_rearrange, lemma_groups_share, lemma_threshold, picked, MIN_SHARED,
};
use crate::letters::{key_rows, letter_keys, letter_keys_of, lowercase, texts, to_lowercase};
use crate::prefix::{common_prefix, common_prefix_len, longest_common_prefix};
use vstd::prelude::*;

verus! {

/// A group of stems that were judged to share a pattern, in scan order, and
/// the prefix that they have in common.
pub struct PatternGroup {
    pub prefix: String,
    pub stems: Vec<String>,
}

/// A line of the report: the prefix of a group and the number of its stems.
pub struct PatternLine {
    pub prefix: String,
    pub count: usize,
}

impl PatternGroup {
    /// The group is sound: it has a stem, and its prefix is what its stems
    /// have in common.
    pub open spec fn wf(&self) -> bool {
        self.stems@.len() > 0 && self.prefix@ == common_prefix(texts(self.stems@))
    }
}

/// A line of the report, as the specifications read it.
pub struct PatternLineView {
    pub prefix: Seq<char>,
    pub count: nat,
}

impl View for PatternLine {
    type V = PatternLineView;

    open spec fn view(&self) -> PatternLineView {
        PatternLineView { prefix: self.prefix@, count: self.count as nat }
    }
}

/// The groups formed of a folder's stems, in the order in which they were
/// formed, each with its members in scan order.
pub open spec fn stem_groups(stems: Seq<Seq<char>>) -> Seq<Seq<Seq<char>>> {
    let groups = grouping(key_rows(stems));
    Seq::new(groups.len(), |g: int| picked(stems, groups[g]))
}

/// The members of each group of a list.
pub open spec fn members(groups: Seq<PatternGroup>) -> Seq<Seq<Seq<char>>> {
    Seq::new(groups.len(), |g: int| texts(groups[g].stems@))
}

/// The prefix of each group of a list.
pub open spec fn prefixes(groups: Seq<PatternGroup>) -> Seq<Seq<char>> {
    Seq::new(groups.len(), |g: int| groups[g].prefix@)
}

/// The common prefix of each group of texts.
pub open spec fn common_prefixes(groups: Seq<Seq<Seq<char>>>) -> Seq<Seq<char>> {
    Seq::new(groups.len(), |g: int| common_prefix(groups[g]))
}

/// A group before `g` has a prefix that is not empty and has the lower-case
/// form `key`.
pub open spec fn seen_before(prefixes: Seq<Seq<char>>, g: int, key: Seq<char>) -> bool {
    exists|k: int| 0 <= k < g && #[trigger] prefixes[k].len() > 0 && lowercase(prefixes[k]) == key
}

/// Group `g` is reported: its prefix is not empty, and no earlier group has
/// that prefix, letter case aside.
pub open spec fn is_reported(prefixes: Seq<Seq<char>>, g: int) -> bool {
    prefixes[g].len() > 0 && !seen_before(prefixes, g, lowercase(prefixes[g]))
}

/// The groups among the first `n` that are reported, by index and in order.
pub open spec fn reported(prefixes: Seq<Seq<char>>, n: nat) -> Seq<int>
    decreases n,
{
    if n == 0 {
        Seq::empty()
    } else if is_reported(prefixes, n - 1) {
        reported(prefixes, (n - 1) as nat).push(n - 1)
    } else {
        reported(prefixes, (n - 1) as nat)
    }
}

/// The lines of the groups that are reported: of each its prefix and the
/// number of its members.
pub open spec fn lines_of(prefixes: Seq<Seq<char>>, sizes: Seq<nat>) -> Seq<PatternLineView> {
    let kept = reported(prefixes, prefixes.len());
    Seq::new(kept.len(), |a: int| PatternLineView { prefix: prefixes[kept[a]], count: sizes[kept[a]] })
}

/// The number of members of each group.
pub open spec fn sizes(groups: Seq<Seq<Seq<char>>>) -> Seq<nat> {
    Seq::new(groups.len(), |g: int| groups[g].len())
}

/// The report lines of a folder's stems.
pub open spec fn pattern_lines(stems: Seq<Seq<char>>) -> Seq<PatternLineView> {
    let groups = stem_groups(stems);
    lines_of(common_prefixes(groups), sizes(groups))
}

/// The lines of a list, as the specifications read them.
pub open spec fn line_views(lines: Seq<PatternLine>) -> Seq<PatternLineView> {
    Seq::new(lines.len(), |a: int| lines[a]@)
}

/// Every stem is in one group, and in one only: the groups of a folder, put
/// end to end, are a rearrangement of its stems, and no group is empty.
pub proof fn lemma_every_stem_in_one_group(stems: Seq<Seq<char>>)
    ensures
        stem_groups(stems).flatten().to_multiset() == stems.to_multiset(),
        stem_groups(stems).flatten().len() == stems.len(),
        forall|g: int|
            0 <= g < stem_groups(stems).len() ==> (#[trigger] stem_groups(stems)[g]).len() > 0,
{
    let rows = key_rows(stems);
    let by_index = grouping(rows);
    let stem = |i: int| stems[i];
    lemma_groups_rearrange(rows, indices(rows.len()), stem);
    lemma_picked_flat(stems, by_index);
    assert(picked(stems, by_index.flatten()) =~= by_index.flatten().map_values(stem));
    assert(indices(rows.len()).map_values(stem) =~= stems);
    stem_groups(stems).flatten().to_multiset_ensures();
    stems.to_multiset_ensures();
}

/// To pick the texts group by group and put them end to end is to pick the
/// texts of the groups put end to end.
proof fn lemma_picked_flat(stems: Seq<Seq<char>>, groups: Seq<Seq<int>>)
    ensures
        Seq::new(groups.len(), |g: int| picked(stems, groups[g])).flatten() == picked(
            stems,
            groups.flatten(),
        ),
    decreases groups.len(),
{
    let texts = Seq::new(groups.len(), |g: int| picked(stems, groups[g]));
    if groups.len() > 0 {
        let later = groups.drop_first();
        lemma_picked_flat(stems, later);
        assert(texts.drop_first() =~= Seq::new(later.len(), |g: int| picked(stems, later[g])));
    }
}

/// The threshold is a hard cutoff. Of two stems, the second joins the group
/// of the first when they share `MIN_SHARED` leading characters or more,
/// letter case aside; when they share fewer, each is a group of its own.
pub proof fn lemma_stem_threshold(a: Seq<char>, b: Seq<char>)
    ensures
        common_prefix_len(seq![a, b]) >= MIN_SHARED ==> stem_groups(seq![a, b]) == seq![seq![a, b]],
        common_prefix_len(seq![a, b]) < MIN_SHARED ==> stem_groups(seq![a, b]) == seq![
            seq![a],
            seq![b],
        ],
{
    let stems = seq![a, b];
    assert(key_rows(stems) =~= seq![letter_keys(a), letter_keys(b)]);
    lemma_threshold(letter_keys(a), letter_keys(b));
    if common_prefix_len(stems) >= MIN_SHARED {
        assert(picked(stems, seq![0int, 1]) =~= seq![a, b]);
    } else {
        assert(picked(stems, seq![0int]) =~= seq![a]);
        assert(picked(stems, seq![1int]) =~= seq![b]);
    }
}

/// The stems of a group share `MIN_SHARED` leading characters or more,
/// letter case aside, unless the group has a single stem: two stems that
/// share fewer are never in one group.
pub proof fn lemma_grouped_stems_share(stems: Seq<Seq<char>>)
    ensures
        forall|g: int|
            0 <= g < stem_groups(stems).len() && (#[trigger] stem_groups(stems)[g]).len() >= 2
                ==> common_prefix_len(stem_groups(stems)[g]) >= MIN_SHARED,
{
    let rows = key_rows(stems);
    let by_index = grouping(rows);
    lemma_groups_share(rows, indices(rows.len()));
    lemma_groups_in_range(rows, indices(rows.len()), rows.len());
    assert forall|g: int|
        0 <= g < stem_groups(stems).len() && (#[trigger] stem_groups(stems)[g]).len()
            >= 2 implies common_prefix_len(stem_groups(stems)[g]) >= MIN_SHARED by {
        let group = by_index[g];
        assert(key_rows(picked(stems, group)) =~= picked(rows, group));
    }
}

/// The reported groups are groups among the first `n`, in their order, and
/// they are all those of them that `is_reported` holds of: the report
/// passes groups over, and makes none up.
pub proof fn lemma_reported_are_groups(prefixes: Seq<Seq<char>>, n: nat)
    ensures
        forall|a: int|
            0 <= a < reported(prefixes, n).len() ==> 0 <= #[trigger] reported(prefixes, n)[a] < n
                && is_reported(prefixes, reported(prefixes, n)[a]),
        forall|a: int, b: int|
            0 <= a < b < reported(prefixes, n).len() ==> #[trigger] reported(prefixes, n)[a]
                < #[trigger] reported(prefixes, n)[b],
        forall|g: int|
            0 <= g < n && is_reported(prefixes, g) ==> #[trigger] reported(prefixes, n).contains(g),
    decreases n,
{
    if n > 0 {
        let before = reported(prefixes, (n - 1) as nat);
        let now = reported(prefixes, n);
        lemma_reported_are_groups(prefixes, (n - 1) as nat);
        assert forall|g: int| 0 <= g < n && is_reported(prefixes, g) implies #[trigger] now.contains(
            g,
        ) by {
            if g < n - 1 {
                assert(before.contains(g));
                let a = choose|a: int| 0 <= a < before.len() && before[a] == g;
                assert(now[a] == g);
            } else {
                assert(now[now.len() - 1] == g);
            }
        }
    }
}

/// No prefix is reported twice, letter case aside: two lines of a report
/// have prefixes with different lower-case forms, and no line has an empty
/// prefix.
pub proof fn lemma_reported_once(prefixes: Seq<Seq<char>>, sizes: Seq<nat>)
    ensures
        forall|a: int, b: int|
            0 <= a < b < lines_of(prefixes, sizes).len() ==> lowercase(
                (#[trigger] lines_of(prefixes, sizes)[a]).prefix,
            ) != lowercase((#[trigger] lines_of(prefixes, sizes)[b]).prefix),
        forall|a: int|
            0 <= a < lines_of(prefixes, sizes).len() ==> (#[trigger] lines_of(
                prefixes,
                sizes,
            )[a]).prefix.len() > 0,
{
    lemma_reported_are_groups(prefixes, prefixes.len());
}

/// Forms the groups of a folder's stems and finds the prefix of each. Every
/// stem is in one group; no group is left out, whatever its prefix.
pub fn group_stems(stems: &Vec<String>) -> (groups: Vec<PatternGroup>)
    ensures
        members(groups@) == stem_groups(texts(stems@)),
        prefixes(groups@) == common_prefixes(stem_groups(texts(stems@))),
        forall|g: int| 0 <= g < groups.len() ==> (#[trigger] groups[g]).wf(),
{
    let ghost all = texts(stems@);
    let mut rows: Vec<Vec<String>> = Vec::new();
    let mut j: usize = 0;
    while j < stems.len()
        invariant
            j <= stems.len(),
            rows.len() == j,
            forall|k: int|
                0 <= k < j ==> (#[trigger] rows[k]).deep_view() == letter_keys(stems[k]@),
        decreases stems.len() - j,
    {
        rows.push(letter_keys_of(stems[j].as_str()));
        j += 1;
    }
    assert(rows.deep_view() =~= key_rows(all));
    let by_index = group_rows(&rows);
    let ghost wanted = stem_groups(all);
    let mut groups: Vec<PatternGroup> = Vec::new();
    let mut g: usize = 0;
    while g < by_index.len()
        invariant
            all == texts(stems@),
            wanted == stem_groups(all),
            index_lists(by_index@) == grouping(key_rows(all)),
            forall|g: int, p: int|
                0 <= g < by_index.len() && 0 <= p < by_index[g].len() ==> #[trigger] by_index[g][p]
                    < stems.len(),
            g <= by_index.len(),
            groups.len() == g,
            forall|h: int| 0 <= h < by_index.len() ==> (#[trigger] by_index[h]).len() > 0,
            forall|h: int| 0 <= h < g ==> (#[trigger] groups[h]).wf(),
            forall|h: int| 0 <= h < g ==> texts((#[trigger] groups[h]).stems@) == wanted[h],
            forall|h: int| 0 <= h < g ==> (#[trigger] groups[h]).prefix@ == common_prefix(wanted[h]),
        decreases by_index.len() - g,
    {
        let group = &by_index[g];
        let ghost chosen = index_list(group@);
        let mut group_stems: Vec<String> = Vec::new();
        let mut p: usize = 0;
        while p < group.len()
            invariant
                forall|q: int| 0 <= q < group.len() ==> #[trigger] group[q] < stems.len(),
                p <= group.len(),
                group_stems.len() == p,
                forall|q: int| 0 <= q < p ==> (#[trigger] group_stems[q])@ == stems[group[q] as int]@,
            decreases group.len() - p,
        {
            group_stems.push(stems[group[p]].clone());
            p += 1;
        }
        assert(texts(group_stems@) =~= picked(all, chosen));
        let prefix = longest_common_prefix(group_stems.as_slice());
        groups.push(PatternGroup { prefix, stems: group_stems });
        g += 1;
    }
    groups
}

/// The number of stems of each group of a list.
pub open spec fn stem_counts(groups: Seq<PatternGroup>) -> Seq<nat> {
    Seq::new(groups.len(), |g: int| groups[g].stems@.len())
}

/// `list` holds a string whose text is `key`.
pub open spec fn has_key(list: Seq<String>, key: Seq<char>) -> bool {
    exists|s: int| 0 <= s < list.len() && (#[trigger] list[s])@ == key
}

/// Whether `list` holds `key`.
fn holds_key(list: &Vec<String>, key: &String) -> (found: bool)
    ensures
        found == has_key(list@, key@),
{
    let mut s: usize = 0;
    while s < list.len()
        invariant
            s <= list.len(),
            forall|t: int| 0 <= t < s ==> (#[trigger] list[t])@ != key@,
        decreases list.len() - s,
    {
        if list[s] == *key {
            return true;
        }
        s += 1;
    }
    false
}

/// Picks the groups that are reported and gives the line of each, in the
/// order of the groups. A group with an empty prefix is passed over, and so
/// is one whose prefix, in lower case, is that of an earlier group which was
/// not passed over: each prefix is reported once.
pub fn select_patterns(groups: &Vec<PatternGroup>) -> (lines: Vec<PatternLine>)
    ensures
        line_views(lines@) == lines_of(prefixes(groups@), stem_counts(groups@)),
{
    let ghost all = prefixes(groups@);
    let ghost counts = stem_counts(groups@);
    let mut seen: Vec<String> = Vec::new();
    let mut lines: Vec<PatternLine> = Vec::new();
    let mut g: usize = 0;
    while g < groups.len()
        invariant
            all == prefixes(groups@),
            counts == stem_counts(groups@),
            g <= groups.len(),
            forall|key: Seq<char>| #[trigger] has_key(seen@, key) <==> seen_before(all, g as int, key),
            lines.len() == reported(all, g as nat).len(),
            forall|a: int|
                0 <= a < lines.len() ==> (#[trigger] lines[a])@ == (PatternLineView {
                    prefix: all[reported(all, g as nat)[a]],
                    count: counts[reported(all, g as nat)[a]],
                }),
        decreases groups.len() - g,
    {
        let group = &groups[g];
        let ghost before = seen@;
        let ghost own = lowercase(all[g as int]);
        assert(all[g as int] == group.prefix@);
        let mut fresh = false;
        if !group.prefix.as_str().is_empty() {
            let key = to_lowercase(group.prefix.as_str());
            if !holds_key(&seen, &key) {
                fresh = true;
                seen.push(key);
                assert(seen@[before.len() as int]@ == own);
                lines.push(PatternLine { prefix: group.prefix.clone(), count: group.stems.len() });
            }
        }
        proof {
            assert(fresh == is_reported(all, g as int));
            assert forall|key: Seq<char>| #[trigger]
                has_key(seen@, key) <==> seen_before(all, g + 1, key) by {
                if has_key(seen@, key) {
                    let s = choose|s: int| 0 <= s < seen@.len() && (#[trigger] seen@[s])@ == key;
                    if s < before.len() {
                        assert(before[s]@ == key);
                        assert(has_key(before, key));
                        let k = choose|k: int|
                            0 <= k < g && #[trigger] all[k].len() > 0 && lowercase(all[k]) == key;
                        assert(0 <= k < g + 1 && all[k].len() > 0 && lowercase(all[k]) == key);
                    } else {
                        assert(all[g as int].len() > 0 && lowercase(all[g as int]) == key);
                    }
                }
                if seen_before(all, g + 1, key) {
                    let k = choose|k: int|
                        0 <= k < g + 1 && #[trigger] all[k].len() > 0 && lowercase(all[k]) == key;
                    if k < g {
                        assert(seen_before(all, g as int, key));
                        assert(has_key(before, key));
                        let s = choose|s: int| 0 <= s < before.len() && (#[trigger] before[s])@ == key;
                        assert(seen@[s]@ == key);
                    } else if fresh {
                        assert(seen@[before.len() as int]@ == key);
                    } else {
                        assert(has_key(before, own));
                        let s = choose|s: int| 0 <= s < before.len() && (#[trigger] before[s])@ == own;
                        assert(seen@[s]@ == key);
                    }
                }
            }
        }
        g += 1;
    }
    assert(line_views(lines@) =~= lines_of(all, counts));
    lines
}

/// The report lines of a folder's stems: the stems are grouped, and the
/// groups that are reported give a line each.
pub fn folder_patterns(stems: &Vec<String>) -> (lines: Vec<PatternLine>)
    ensures
        line_views(lines@) == pattern_lines(texts(stems@)),
{
    let groups = group_stems(stems);
    assert(stem_counts(groups@) =~= sizes(members(groups@)));
    select_patterns(&groups)
}

} // verus!
