//! Natural order: texts ranked as `natord` compares them, runs of digits by
//! their value rather than character by character.

use crate::letters::texts;
use std::cmp::Ordering;
use vstd::prelude::*;

verus! {

/// How `natord::compare` orders `a` and `b`: `-1` when `a` comes first, `0`
/// when neither does, `1` when `b` comes first.
pub uninterp spec fn natural_order(a: Seq<char>, b: Seq<char>) -> i8;

/// Trusted: `natord::compare`, its three outcomes written as `-1`, `0` and
/// `1`. The comparison reads the two texts and nothing else, so its outcome
/// is `natural_order` of them. Nothing is claimed of the order itself.
#[verifier::external_body]
fn natural_compare(a: &str, b: &str) -> (order: i8)
    ensures
        order == natural_order(a@, b@),
{
    match natord::compare(a, b) {
        Ordering::Less => -1,
        Ordering::Equal => 0,
        Ordering::Greater => 1,
    }
}

/// Where a new item goes among the first `n` ranked items, `orders` telling
/// how each of them compares with it: before the last run of items that
/// come after it, and so behind every item that does not.
pub open spec fn place_of(orders: Seq<i8>, n: nat) -> nat
    decreases n,
{
    if n > 0 && orders[n - 1] > 0 {
        place_of(orders, (n - 1) as nat)
    } else {
        n
    }
}

/// How each ranked key compares with `key`.
pub open spec fn orders_against(keys: Seq<Seq<char>>, ranking: Seq<int>, key: Seq<char>) -> Seq<i8> {
    Seq::new(ranking.len(), |j: int| natural_order(keys[ranking[j]], key))
}

/// The first `n` keys ranked in natural order, by index. Each key in turn is
/// put behind the ranked keys that do not come after it, so keys that
/// compare alike keep the order in which they were given.
pub open spec fn natural_ranking(keys: Seq<Seq<char>>, n: nat) -> Seq<int>
    decreases n,
{
    if n == 0 {
        Seq::empty()
    } else {
        let before = natural_ranking(keys, (n - 1) as nat);
        let place = place_of(orders_against(keys, before, keys[n - 1]), before.len());
        before.insert(place as int, n - 1)
    }
}

/// A ranking of `n` keys lists each of them once.
pub proof fn lemma_ranking_lists_each_once(keys: Seq<Seq<char>>, n: nat)
    ensures
        natural_ranking(keys, n).len() == n,
        natural_ranking(keys, n).no_duplicates(),
        forall|j: int| 0 <= j < n ==> 0 <= #[trigger] natural_ranking(keys, n)[j] < n,
        forall|i: int| 0 <= i < n ==> #[trigger] natural_ranking(keys, n).contains(i),
    decreases n,
{
    if n > 0 {
        let before = natural_ranking(keys, (n - 1) as nat);
        let orders = orders_against(keys, before, keys[n - 1]);
        lemma_ranking_lists_each_once(keys, (n - 1) as nat);
        lemma_place_of(orders, before.len());
        let place = place_of(orders, before.len()) as int;
        let now = natural_ranking(keys, n);
        assert forall|i: int| 0 <= i < n implies #[trigger] now.contains(i) by {
            if i < n - 1 {
                assert(before.contains(i));
                let j = choose|j: int| 0 <= j < before.len() && before[j] == i;
                if j < place {
                    assert(now[j] == i);
                } else {
                    assert(now[j + 1] == i);
                }
            } else {
                assert(now[place] == i);
            }
        }
    }
}

/// The comparison is an order on the first `n` keys: where one key comes
/// after another, the other comes before it, and a key that does not come
/// after a second, which does not come after a third, does not come after
/// the third.
pub open spec fn is_ordered_by_comparison(keys: Seq<Seq<char>>, n: nat) -> bool {
    &&& forall|a: int, b: int|
        0 <= a < n && 0 <= b < n && #[trigger] natural_order(keys[a], keys[b]) > 0
            ==> natural_order(keys[b], keys[a]) < 0
    &&& forall|a: int, b: int, c: int|
        0 <= a < n && 0 <= b < n && 0 <= c < n && #[trigger] natural_order(keys[a], keys[b]) <= 0
            && #[trigger] natural_order(keys[b], keys[c]) <= 0 ==> natural_order(keys[a], keys[c])
            <= 0
}

/// Where the comparison is an order on the keys, the ranking is sorted by
/// it: no key comes after one that is ranked behind it.
pub proof fn lemma_ranking_is_sorted(keys: Seq<Seq<char>>, n: nat)
    requires
        is_ordered_by_comparison(keys, n),
    ensures
        forall|i: int, j: int|
            0 <= i < j < natural_ranking(keys, n).len() ==> natural_order(
                keys[#[trigger] natural_ranking(keys, n)[i]],
                keys[#[trigger] natural_ranking(keys, n)[j]],
            ) <= 0,
    decreases n,
{
    if n > 0 {
        let before = natural_ranking(keys, (n - 1) as nat);
        let orders = orders_against(keys, before, keys[n - 1]);
        let place = place_of(orders, before.len()) as int;
        let now = natural_ranking(keys, n);
        lemma_ranking_is_sorted(keys, (n - 1) as nat);
        lemma_ranking_lists_each_once(keys, (n - 1) as nat);
        lemma_place_of(orders, before.len());
        assert forall|i: int, j: int| 0 <= i < j < now.len() implies natural_order(
            keys[#[trigger] now[i]],
            keys[#[trigger] now[j]],
        ) <= 0 by {
            if j == place {
                assert(now[i] == before[i]);
                assert(orders[place - 1] <= 0);
                if i < place - 1 {
                    assert(natural_order(keys[before[i]], keys[before[place - 1]]) <= 0);
                }
            } else if i == place {
                assert(now[j] == before[j - 1]);
                assert(orders[j - 1] > 0);
            } else {
                let old_i = if i < place { i } else { i - 1 };
                let old_j = if j < place { j } else { j - 1 };
                assert(now[i] == before[old_i]);
                assert(now[j] == before[old_j]);
            }
        }
    }
}

/// The place of a new item is behind every ranked item that comes after it
/// and right behind one that does not.
pub proof fn lemma_place_of(orders: Seq<i8>, n: nat)
    ensures
        place_of(orders, n) <= n,
        forall|j: int| place_of(orders, n) <= j < n ==> #[trigger] orders[j] > 0,
        place_of(orders, n) > 0 ==> orders[place_of(orders, n) - 1] <= 0,
    decreases n,
{
    if n > 0 && orders[n - 1] > 0 {
        lemma_place_of(orders, (n - 1) as nat);
    }
}

/// Where a new item goes among ranked items, given how each of them
/// compares with it.
pub fn insertion_place(orders: &Vec<i8>) -> (place: usize)
    ensures
        place == place_of(orders@, orders@.len()),
        place <= orders.len(),
        forall|j: int| place <= j < orders.len() ==> #[trigger] orders[j] > 0,
        place > 0 ==> orders[place - 1] <= 0,
{
    let mut place = orders.len();
    while place > 0 && orders[place - 1] > 0
        invariant
            place <= orders.len(),
            place_of(orders@, orders@.len()) == place_of(orders@, place as nat),
        decreases place,
    {
        place -= 1;
    }
    proof {
        lemma_place_of(orders@, orders@.len());
    }
    place
}

/// A ranking, as the specifications read it.
pub open spec fn ranking_view(ranking: Seq<usize>) -> Seq<int> {
    Seq::new(ranking.len(), |j: int| ranking[j] as int)
}

/// Ranks `keys` in natural order: the result lists the index of each key
/// once, the keys that come first in front.
pub fn natural_rank(keys: &Vec<String>) -> (ranking: Vec<usize>)
    ensures
        ranking_view(ranking@) == natural_ranking(texts(keys@), keys@.len()),
        ranking.len() == keys.len(),
        forall|j: int| 0 <= j < ranking.len() ==> #[trigger] ranking[j] < keys.len(),
{
    let ghost all = texts(keys@);
    let mut ranking: Vec<usize> = Vec::new();
    let mut n: usize = 0;
    while n < keys.len()
        invariant
            all == texts(keys@),
            n <= keys.len(),
            ranking.len() == n,
            ranking_view(ranking@) == natural_ranking(all, n as nat),
            forall|j: int| 0 <= j < ranking.len() ==> #[trigger] ranking[j] < n,
        decreases keys.len() - n,
    {
        let ghost before = ranking_view(ranking@);
        let mut orders: Vec<i8> = Vec::new();
        let mut j: usize = 0;
        while j < ranking.len()
            invariant
                all == texts(keys@),
                n < keys.len(),
                before == ranking_view(ranking@),
                forall|j: int| 0 <= j < ranking.len() ==> #[trigger] ranking[j] < n,
                j <= ranking.len(),
                orders.len() == j,
                forall|k: int|
                    0 <= k < j ==> #[trigger] orders[k] == natural_order(
                        all[before[k]],
                        all[n as int],
                    ),
            decreases ranking.len() - j,
        {
            let order = natural_compare(keys[ranking[j]].as_str(), keys[n].as_str());
            orders.push(order);
            j += 1;
        }
        assert(orders@ =~= orders_against(all, before, all[n as int]));
        let place = insertion_place(&orders);
        ranking.insert(place, n);
        n += 1;
    }
    ranking
}

} // verus!
