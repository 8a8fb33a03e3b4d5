//! The prefix grouper: it sorts a folder's stems into groups that share a
//! long enough prefix, greedily and in scan order.

use crate::prefix::{
    common_len, lemma_common_len_absorbs, lemma_common_len_of_one, lemma_common_len_shared,
    lemma_common_len_unique, shared_at_most, shared_by_all,
};
use vstd::prelude::*;

verus! {

/// A stem joins a group when it shares this many leading characters with the
/// group's running prefix.
pub const MIN_SHARED: usize = 4;

/// What the first `m` items of the seed's row, the running prefix of its
/// group, share with a candidate's row.
pub open spec fn joint_len<K>(seed: Seq<K>, m: nat, candidate: Seq<K>) -> nat {
    common_len(seq![seed.take(m as int), candidate])
}

/// The candidates of `rest` that join the group of `seed`, in order. The
/// running prefix is first `m` items long and shrinks to what it shares with
/// each candidate that joins.
pub open spec fn joined<K>(rows: Seq<Seq<K>>, seed: int, m: nat, rest: Seq<int>) -> Seq<int>
    decreases rest.len(),
{
    if rest.len() == 0 {
        Seq::empty()
    } else {
        let k = joint_len(rows[seed], m, rows[rest[0]]);
        if k >= MIN_SHARED {
            seq![rest[0]] + joined(rows, seed, k, rest.drop_first())
        } else {
            joined(rows, seed, m, rest.drop_first())
        }
    }
}

/// The candidates of `rest` that do not join the group of `seed`, in order.
pub open spec fn left_over<K>(rows: Seq<Seq<K>>, seed: int, m: nat, rest: Seq<int>) -> Seq<int>
    decreases rest.len(),
{
    if rest.len() == 0 {
        Seq::empty()
    } else {
        let k = joint_len(rows[seed], m, rows[rest[0]]);
        if k >= MIN_SHARED {
            left_over(rows, seed, k, rest.drop_first())
        } else {
            seq![rest[0]] + left_over(rows, seed, m, rest.drop_first())
        }
    }
}

/// The length of the running prefix when all of `rest` have been tried.
pub open spec fn running_len<K>(rows: Seq<Seq<K>>, seed: int, m: nat, rest: Seq<int>) -> nat
    decreases rest.len(),
{
    if rest.len() == 0 {
        m
    } else {
        let k = joint_len(rows[seed], m, rows[rest[0]]);
        if k >= MIN_SHARED {
            running_len(rows, seed, k, rest.drop_first())
        } else {
            running_len(rows, seed, m, rest.drop_first())
        }
    }
}

/// The rows that a group of indices picks.
pub open spec fn picked<K>(rows: Seq<Seq<K>>, group: Seq<int>) -> Seq<Seq<K>> {
    Seq::new(group.len(), |p: int| rows[group[p]])
}

/// The group that the first of `ungrouped` seeds: itself, then the others
/// that join it.
pub open spec fn first_group<K>(rows: Seq<Seq<K>>, ungrouped: Seq<int>) -> Seq<int> {
    let seed = ungrouped[0];
    seq![seed] + joined(rows, seed, rows[seed].len(), ungrouped.drop_first())
}

/// What the first group leaves of `ungrouped`.
pub open spec fn after_first_group<K>(rows: Seq<Seq<K>>, ungrouped: Seq<int>) -> Seq<int> {
    let seed = ungrouped[0];
    left_over(rows, seed, rows[seed].len(), ungrouped.drop_first())
}

/// The groups formed of the rows that `ungrouped` lists by index: the first
/// one seeds a group, and what that group leaves is grouped in the same way.
pub open spec fn groups_of<K>(rows: Seq<Seq<K>>, ungrouped: Seq<int>) -> Seq<Seq<int>>
    decreases ungrouped.len(),
{
    if ungrouped.len() == 0 {
        Seq::empty()
    } else {
        proof {
            let seed = ungrouped[0];
            lemma_left_over_len(rows, seed, rows[seed].len(), ungrouped.drop_first());
        }
        seq![first_group(rows, ungrouped)] + groups_of(rows, after_first_group(rows, ungrouped))
    }
}

/// The indices `0, 1, .., n - 1`.
pub open spec fn indices(n: nat) -> Seq<int> {
    Seq::new(n, |i: int| i)
}

/// The groups formed of all rows, each group a list of row indices.
pub open spec fn grouping<K>(rows: Seq<Seq<K>>) -> Seq<Seq<int>> {
    groups_of(rows, indices(rows.len()))
}

/// A sweep leaves no more candidates than it was given.
pub proof fn lemma_left_over_len<K>(rows: Seq<Seq<K>>, seed: int, m: nat, rest: Seq<int>)
    ensures
        left_over(rows, seed, m, rest).len() + joined(rows, seed, m, rest).len() == rest.len(),
    decreases rest.len(),
{
    if rest.len() > 0 {
        let k = joint_len(rows[seed], m, rows[rest[0]]);
        if k >= MIN_SHARED {
            lemma_left_over_len(rows, seed, k, rest.drop_first());
        } else {
            lemma_left_over_len(rows, seed, m, rest.drop_first());
        }
    }
}

/// A sweep splits the candidates between the group and what is left: each
/// candidate goes to one of the two, once. `f` says what an index stands for.
pub proof fn lemma_sweep_splits<K, A>(
    rows: Seq<Seq<K>>,
    seed: int,
    m: nat,
    rest: Seq<int>,
    f: spec_fn(int) -> A,
)
    ensures
        joined(rows, seed, m, rest).map_values(f).to_multiset().add(
            left_over(rows, seed, m, rest).map_values(f).to_multiset(),
        ) == rest.map_values(f).to_multiset(),
    decreases rest.len(),
{
    broadcast use {vstd::seq_lib::lemma_multiset_commutative, vstd::multiset::group_multiset_axioms};

    let join = joined(rows, seed, m, rest);
    let left = left_over(rows, seed, m, rest);
    if rest.len() == 0 {
        let none = rest.map_values(f);
        none.to_multiset_ensures();
        assert(left.map_values(f) =~= none);
    } else {
        let k = joint_len(rows[seed], m, rows[rest[0]]);
        let tail = rest.drop_first();
        let head = seq![f(rest[0])];
        assert(rest.map_values(f) =~= head + tail.map_values(f));
        if k >= MIN_SHARED {
            lemma_sweep_splits(rows, seed, k, tail, f);
            assert(join.map_values(f) =~= head + joined(rows, seed, k, tail).map_values(f));
        } else {
            lemma_sweep_splits(rows, seed, m, tail, f);
            assert(left.map_values(f) =~= head + left_over(rows, seed, m, tail).map_values(f));
        }
    }
}

/// The groups formed of `ungrouped` hold each of its entries once: put end
/// to end, they are a rearrangement of `ungrouped`. No group is empty. `f`
/// says what an index stands for.
pub proof fn lemma_groups_rearrange<K, A>(
    rows: Seq<Seq<K>>,
    ungrouped: Seq<int>,
    f: spec_fn(int) -> A,
)
    ensures
        groups_of(rows, ungrouped).flatten().map_values(f).to_multiset() == ungrouped.map_values(
            f,
        ).to_multiset(),
        forall|g: int|
            0 <= g < groups_of(rows, ungrouped).len() ==> (#[trigger] groups_of(
                rows,
                ungrouped,
            )[g]).len() > 0,
    decreases ungrouped.len(),
{
    broadcast use {vstd::seq_lib::lemma_multiset_commutative, vstd::multiset::group_multiset_axioms};

    let groups = groups_of(rows, ungrouped);
    if ungrouped.len() == 0 {
        assert(groups.flatten() =~= ungrouped);
    } else {
        let seed = ungrouped[0];
        let rest = ungrouped.drop_first();
        let whole = rows[seed].len();
        let first = first_group(rows, ungrouped);
        let join = joined(rows, seed, whole, rest);
        let left = after_first_group(rows, ungrouped);
        let later = groups_of(rows, left).flatten();
        lemma_left_over_len(rows, seed, whole, rest);
        lemma_sweep_splits(rows, seed, whole, rest, f);
        lemma_groups_rearrange(rows, left, f);
        vstd::seq_lib::lemma_flatten_concat(seq![first], groups_of(rows, left));
        seq![first].lemma_flatten_one_element();
        assert(groups.flatten().map_values(f) =~= first.map_values(f) + later.map_values(f));
        assert(first.map_values(f) =~= seq![f(seed)] + join.map_values(f));
        assert(ungrouped.map_values(f) =~= seq![f(seed)] + rest.map_values(f));
    }
}

/// Every row is in one group, and in one only: the groups of all rows, put
/// end to end, are a rearrangement of the row indices, and none is empty.
pub proof fn lemma_grouping_partitions<K>(rows: Seq<Seq<K>>)
    ensures
        grouping(rows).flatten().to_multiset() == indices(rows.len()).to_multiset(),
        grouping(rows).flatten().len() == rows.len(),
        forall|g: int| 0 <= g < grouping(rows).len() ==> (#[trigger] grouping(rows)[g]).len() > 0,
{
    let same = |i: int| i;
    lemma_groups_rearrange(rows, indices(rows.len()), same);
    assert(grouping(rows).flatten().map_values(same) =~= grouping(rows).flatten());
    assert(indices(rows.len()).map_values(same) =~= indices(rows.len()));
    grouping(rows).flatten().to_multiset_ensures();
    indices(rows.len()).to_multiset_ensures();
}

/// What a group has in common when a sweep is over is its running prefix:
/// the prefix that was kept up while candidates joined is what all members
/// share. It is `MIN_SHARED` items long or longer if a candidate joined.
pub proof fn lemma_running_prefix<K>(rows: Seq<Seq<K>>, seed: int, m: nat, rest: Seq<int>)
    requires
        m <= rows[seed].len(),
    ensures
        common_len(seq![rows[seed].take(m as int)] + picked(rows, joined(rows, seed, m, rest)))
            == running_len(rows, seed, m, rest),
        running_len(rows, seed, m, rest) <= m,
        m >= MIN_SHARED || joined(rows, seed, m, rest).len() > 0 ==> running_len(rows, seed, m, rest)
            >= MIN_SHARED,
    decreases rest.len(),
{
    let prefix = rows[seed].take(m as int);
    let join = joined(rows, seed, m, rest);
    if rest.len() == 0 {
        lemma_common_len_of_one(prefix);
    } else {
        let k = joint_len(rows[seed], m, rows[rest[0]]);
        let tail = rest.drop_first();
        if k >= MIN_SHARED {
            let later = joined(rows, seed, k, tail);
            lemma_common_len_shared(seq![prefix, rows[rest[0]]]);
            lemma_running_prefix(rows, seed, k, tail);
            lemma_common_len_absorbs(prefix, rows[rest[0]], picked(rows, later));
            assert(prefix.take(k as int) =~= rows[seed].take(k as int));
            assert(seq![prefix] + picked(rows, join) =~= seq![prefix, rows[rest[0]]] + picked(
                rows,
                later,
            ));
        } else {
            lemma_running_prefix(rows, seed, m, tail);
        }
    }
}

/// The members of a group share `MIN_SHARED` leading items or more, unless
/// the group has a single member: no two rows that share fewer are ever in
/// one group.
pub proof fn lemma_groups_share<K>(rows: Seq<Seq<K>>, ungrouped: Seq<int>)
    ensures
        forall|g: int|
            0 <= g < groups_of(rows, ungrouped).len() && (#[trigger] groups_of(
                rows,
                ungrouped,
            )[g]).len() >= 2 ==> common_len(picked(rows, groups_of(rows, ungrouped)[g]))
                >= MIN_SHARED,
    decreases ungrouped.len(),
{
    let groups = groups_of(rows, ungrouped);
    if ungrouped.len() > 0 {
        let seed = ungrouped[0];
        let rest = ungrouped.drop_first();
        let whole = rows[seed].len();
        let join = joined(rows, seed, whole, rest);
        let left = after_first_group(rows, ungrouped);
        lemma_left_over_len(rows, seed, whole, rest);
        lemma_groups_share(rows, left);
        lemma_running_prefix(rows, seed, whole, rest);
        assert(rows[seed].take(whole as int) =~= rows[seed]);
        assert(picked(rows, first_group(rows, ungrouped)) =~= seq![rows[seed]] + picked(rows, join));
        assert forall|g: int| 0 <= g < groups.len() && (#[trigger] groups[g]).len() >= 2 implies common_len(
            picked(rows, groups[g]),
        ) >= MIN_SHARED by {
            if g > 0 {
                assert(groups[g] == groups_of(rows, left)[g - 1]);
            }
        }
    }
}

/// A sweep hands on the candidates that it was given, and no others.
pub proof fn lemma_sweep_in_range<K>(rows: Seq<Seq<K>>, seed: int, m: nat, rest: Seq<int>, n: nat)
    requires
        forall|q: int| 0 <= q < rest.len() ==> 0 <= #[trigger] rest[q] < n,
    ensures
        forall|p: int|
            0 <= p < joined(rows, seed, m, rest).len() ==> 0 <= #[trigger] joined(
                rows,
                seed,
                m,
                rest,
            )[p] < n,
        forall|p: int|
            0 <= p < left_over(rows, seed, m, rest).len() ==> 0 <= #[trigger] left_over(
                rows,
                seed,
                m,
                rest,
            )[p] < n,
    decreases rest.len(),
{
    if rest.len() > 0 {
        let k = joint_len(rows[seed], m, rows[rest[0]]);
        let tail = rest.drop_first();
        let join = joined(rows, seed, m, rest);
        let left = left_over(rows, seed, m, rest);
        if k >= MIN_SHARED {
            lemma_sweep_in_range(rows, seed, k, tail, n);
            assert(left == left_over(rows, seed, k, tail));
            assert forall|p: int| 0 <= p < join.len() implies 0 <= #[trigger] join[p] < n by {
                if p > 0 {
                    assert(join[p] == joined(rows, seed, k, tail)[p - 1]);
                }
            }
        } else {
            assert(join == joined(rows, seed, m, tail));
            lemma_sweep_in_range(rows, seed, m, tail, n);
            assert forall|p: int| 0 <= p < left.len() implies 0 <= #[trigger] left[p] < n by {
                if p > 0 {
                    assert(left[p] == left_over(rows, seed, m, tail)[p - 1]);
                }
            }
        }
    }
}

/// The groups hold the entries of `ungrouped`, and no others.
pub proof fn lemma_groups_in_range<K>(rows: Seq<Seq<K>>, ungrouped: Seq<int>, n: nat)
    requires
        forall|q: int| 0 <= q < ungrouped.len() ==> 0 <= #[trigger] ungrouped[q] < n,
    ensures
        forall|g: int, p: int|
            0 <= g < groups_of(rows, ungrouped).len() && 0 <= p < groups_of(rows, ungrouped)[g].len()
                ==> 0 <= #[trigger] groups_of(rows, ungrouped)[g][p] < n,
    decreases ungrouped.len(),
{
    let groups = groups_of(rows, ungrouped);
    if ungrouped.len() > 0 {
        let seed = ungrouped[0];
        let rest = ungrouped.drop_first();
        let whole = rows[seed].len();
        let left = after_first_group(rows, ungrouped);
        lemma_left_over_len(rows, seed, whole, rest);
        lemma_sweep_in_range(rows, seed, whole, rest, n);
        lemma_groups_in_range(rows, left, n);
        assert forall|g: int, p: int| 0 <= g < groups.len() && 0 <= p < groups[g].len() implies 0
            <= #[trigger] groups[g][p] < n by {
            if g > 0 {
                assert(groups[g] == groups_of(rows, left)[g - 1]);
            }
        }
    }
}

/// The threshold is a hard cutoff. Of two rows, the second joins the group
/// of the first when they share `MIN_SHARED` leading items or more, and
/// stands in a group of its own when they share fewer.
pub proof fn lemma_threshold<K>(a: Seq<K>, b: Seq<K>)
    ensures
        common_len(seq![a, b]) >= MIN_SHARED ==> grouping(seq![a, b]) == seq![seq![0int, 1]],
        common_len(seq![a, b]) < MIN_SHARED ==> grouping(seq![a, b]) == seq![seq![0int], seq![1]],
{
    let rows = seq![a, b];
    let all = indices(2);
    let rest = all.drop_first();
    let none = Seq::<int>::empty();
    assert(rest.drop_first() =~= none);
    assert(a.take(a.len() as int) =~= a);
    let k = common_len(rows);
    assert(joined(rows, 0, k, none) =~= none);
    assert(joined(rows, 0, a.len(), none) =~= none);
    assert(left_over(rows, 0, k, none) =~= none);
    assert(left_over(rows, 0, a.len(), none) =~= none);
    assert(groups_of(rows, none) =~= Seq::<Seq<int>>::empty());
    if k >= MIN_SHARED {
        assert(first_group(rows, all) =~= seq![0int, 1]);
    } else {
        let last = seq![1int];
        assert(groups_of(rows, last) =~= seq![seq![1int]]);
    }
}

/// A list of row indices, as the specifications read it.
pub open spec fn index_list(list: Seq<usize>) -> Seq<int> {
    Seq::new(list.len(), |i: int| list[i] as int)
}

/// A list of groups of row indices, as the specifications read it.
pub open spec fn index_lists(groups: Seq<Vec<usize>>) -> Seq<Seq<int>> {
    Seq::new(groups.len(), |g: int| index_list(groups[g]@))
}

/// What the first `m` keys of `seed` share with `candidate`.
fn joint_length(seed: &Vec<String>, m: usize, candidate: &Vec<String>) -> (k: usize)
    requires
        m <= seed.len(),
    ensures
        k == joint_len(seed.deep_view(), m as nat, candidate.deep_view()),
        k <= m,
{
    let ghost pair = seq![seed.deep_view().take(m as int), candidate.deep_view()];
    let mut k: usize = 0;
    while k < m && k < candidate.len() && seed[k] == candidate[k]
        invariant
            k <= m <= seed.len(),
            k <= candidate.len(),
            forall|i: int| 0 <= i < k ==> (#[trigger] seed[i])@ == candidate[i]@,
        decreases m - k,
    {
        k += 1;
    }
    proof {
        assert forall|j: int| 0 <= j < pair.len() implies k as nat <= (#[trigger] pair[j]).len()
            && pair[j].take(k as int) == pair[0].take(k as int) by {
        }
        if shared_by_all(pair, (k + 1) as nat) {
            assert(pair[0].take(k + 1)[k as int] == seed[k as int]@);
        }
        lemma_common_len_unique(pair, k as nat);
    }
    k
}

/// Forms the groups of `rows`, the letter keys of each stem in scan order.
/// The first stem not yet grouped seeds a group; the others not yet grouped
/// are tried in order, and one joins when it shares `MIN_SHARED` keys or
/// more with the group's running prefix, which then shrinks to what is
/// shared. Each group lists the indices of its rows.
pub fn group_rows(rows: &Vec<Vec<String>>) -> (groups: Vec<Vec<usize>>)
    ensures
        index_lists(groups@) == grouping(rows.deep_view()),
        forall|g: int| 0 <= g < groups.len() ==> (#[trigger] groups[g]).len() > 0,
        forall|g: int, p: int|
            0 <= g < groups.len() && 0 <= p < groups[g].len() ==> #[trigger] groups[g][p]
                < rows.len(),
{
    let ghost keys = rows.deep_view();
    let mut ungrouped: Vec<usize> = Vec::new();
    let mut n: usize = 0;
    while n < rows.len()
        invariant
            n <= rows.len(),
            ungrouped.len() == n,
            forall|i: int| 0 <= i < n ==> #[trigger] ungrouped[i] == i,
        decreases rows.len() - n,
    {
        ungrouped.push(n);
        n += 1;
    }
    assert(index_list(ungrouped@) =~= indices(keys.len()));
    let mut groups: Vec<Vec<usize>> = Vec::new();
    while ungrouped.len() > 0
        invariant
            keys == rows.deep_view(),
            forall|i: int| 0 <= i < ungrouped.len() ==> #[trigger] ungrouped[i] < rows.len(),
            forall|g: int| 0 <= g < groups.len() ==> (#[trigger] groups[g]).len() > 0,
            forall|g: int, p: int|
                0 <= g < groups.len() && 0 <= p < groups[g].len() ==> #[trigger] groups[g][p]
                    < rows.len(),
            index_lists(groups@) + groups_of(keys, index_list(ungrouped@)) == grouping(keys),
        decreases ungrouped.len(),
    {
        let seed = ungrouped[0];
        let ghost rest = index_list(ungrouped@).drop_first();
        let ghost whole = rows[seed as int].len() as nat;
        let mut m = rows[seed].len();
        let mut group: Vec<usize> = Vec::new();
        group.push(seed);
        let mut left: Vec<usize> = Vec::new();
        let mut i: usize = 1;
        assert(rest.skip(0) =~= rest);
        while i < ungrouped.len()
            invariant
                keys == rows.deep_view(),
                seed < rows.len(),
                1 <= i <= ungrouped.len(),
                rest == index_list(ungrouped@).drop_first(),
                forall|i: int| 0 <= i < ungrouped.len() ==> #[trigger] ungrouped[i] < rows.len(),
                forall|i: int| 0 <= i < left.len() ==> #[trigger] left[i] < rows.len(),
                left.len() < i,
                m <= rows[seed as int].len(),
                group.len() >= 1,
                group[0] == seed,
                forall|p: int| 0 <= p < group.len() ==> #[trigger] group[p] < rows.len(),
                joined(keys, seed as int, whole, rest) == index_list(group@).drop_first() + joined(
                    keys,
                    seed as int,
                    m as nat,
                    rest.skip(i - 1),
                ),
                left_over(keys, seed as int, whole, rest) == index_list(left@) + left_over(
                    keys,
                    seed as int,
                    m as nat,
                    rest.skip(i - 1),
                ),
            decreases ungrouped.len() - i,
        {
            let candidate = ungrouped[i];
            let ghost tail = rest.skip(i - 1);
            assert(tail.drop_first() =~= rest.skip(i as int));
            let k = joint_length(&rows[seed], m, &rows[candidate]);
            if k >= MIN_SHARED {
                group.push(candidate);
                m = k;
            } else {
                left.push(candidate);
            }
            i += 1;
        }
        proof {
            let before = index_list(ungrouped@);
            assert(index_list(group@) == first_group(keys, before));
        }
        groups.push(group);
        ungrouped = left;
    }
    groups
}

} // verus!
