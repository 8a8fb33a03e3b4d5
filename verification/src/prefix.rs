//! The longest prefix that a list of strings has in common, letter case aside.

use crate::letters::{char_lowercase, key_rows, letter_keys, letter_keys_of, same_letter, texts};
use vstd::prelude::*;

verus! {

/// Every row has `n` items or more, and starts with the first `n` items of
/// the first row.
pub open spec fn shared_by_all<K>(rows: Seq<Seq<K>>, n: nat) -> bool {
    forall|j: int|
        0 <= j < rows.len() ==> n <= (#[trigger] rows[j]).len() && rows[j].take(n as int)
            == rows[0].take(n as int)
}

/// All rows share their first `n` items, and not one item more.
pub open spec fn shared_at_most<K>(rows: Seq<Seq<K>>, n: nat) -> bool {
    shared_by_all(rows, n) && !shared_by_all(rows, n + 1)
}

/// The number of leading items that all rows share; zero for no rows.
pub open spec fn common_len<K>(rows: Seq<Seq<K>>) -> nat {
    if rows.len() == 0 {
        0
    } else {
        choose|n: nat| shared_at_most(rows, n)
    }
}

/// The number of leading characters that all texts share, two characters
/// being the same when their lower-case mappings are.
pub open spec fn common_prefix_len(texts: Seq<Seq<char>>) -> nat {
    common_len(key_rows(texts))
}

/// The longest common prefix of the texts, in the letter case of the first.
pub open spec fn common_prefix(texts: Seq<Seq<char>>) -> Seq<char> {
    if texts.len() == 0 {
        Seq::empty()
    } else {
        texts[0].take(common_prefix_len(texts) as int)
    }
}

/// What all rows share, they share at every smaller length too.
pub proof fn lemma_shared_shorter<K>(rows: Seq<Seq<K>>, n: nat, m: nat)
    requires
        shared_by_all(rows, n),
        m <= n,
    ensures
        shared_by_all(rows, m),
{
    assert forall|j: int| 0 <= j < rows.len() implies m <= (#[trigger] rows[j]).len()
        && rows[j].take(m as int) == rows[0].take(m as int) by {
    }
}

/// There is only one length that the rows share and cannot exceed, and it is
/// their common length.
pub proof fn lemma_common_len_unique<K>(rows: Seq<Seq<K>>, n: nat)
    requires
        rows.len() > 0,
        shared_at_most(rows, n),
    ensures
        common_len(rows) == n,
{
    let k = common_len(rows);
    if k < n {
        lemma_shared_shorter(rows, n, k + 1);
    }
    if n < k {
        lemma_shared_shorter(rows, k, n + 1);
    }
}

proof fn lemma_shared_limit<K>(rows: Seq<Seq<K>>, n: nat)
    requires
        rows.len() > 0,
        shared_by_all(rows, n),
    ensures
        exists|m: nat| shared_at_most(rows, m),
    decreases rows[0].len() - n,
{
    if shared_by_all(rows, n + 1) {
        lemma_shared_limit(rows, n + 1);
    } else {
        assert(shared_at_most(rows, n));
    }
}

/// The common length of one row or more is shared by all rows, and is the
/// most that they share.
pub proof fn lemma_common_len_shared<K>(rows: Seq<Seq<K>>)
    requires
        rows.len() > 0,
    ensures
        shared_at_most(rows, common_len(rows)),
        forall|j: int| 0 <= j < rows.len() ==> common_len(rows) <= (#[trigger] rows[j]).len(),
{
    assert(shared_by_all(rows, 0)) by {
        assert forall|j: int| 0 <= j < rows.len() implies 0 <= (#[trigger] rows[j]).len()
            && rows[j].take(0) == rows[0].take(0) by {
        }
    }
    lemma_shared_limit(rows, 0);
}

/// The common length of one row is its length.
pub proof fn lemma_common_len_of_one<K>(row: Seq<K>)
    ensures
        common_len(seq![row]) == row.len(),
{
    let rows = seq![row];
    assert(!shared_by_all(rows, row.len() + 1)) by {
        assert(rows[0].len() == row.len());
    }
    lemma_common_len_unique(rows, row.len());
}

/// Two rows can be replaced by what they share: with any other rows, the
/// two have in common what their shared prefix has in common with them.
pub proof fn lemma_common_len_absorbs<K>(a: Seq<K>, b: Seq<K>, others: Seq<Seq<K>>)
    ensures
        common_len(seq![a, b] + others) == common_len(
            seq![a.take(common_len(seq![a, b]) as int)] + others,
        ),
{
    let pair = seq![a, b];
    let k = common_len(pair);
    let all = pair + others;
    let fewer = seq![a.take(k as int)] + others;
    let n = common_len(fewer);
    lemma_common_len_shared(pair);
    lemma_common_len_shared(fewer);
    lemma_shared_shorter(pair, k, n);
    assert(shared_by_all(all, n)) by {
        assert forall|j: int| 0 <= j < all.len() implies n <= (#[trigger] all[j]).len() && all[j].take(
            n as int,
        ) == all[0].take(n as int) by {
            if j >= 2 {
                assert(fewer[j - 1].take(n as int) == fewer[0].take(n as int));
            }
        }
    }
    let up: int = n as int + 1;
    if shared_by_all(all, up as nat) {
        assert(shared_by_all(pair, up as nat)) by {
            assert forall|j: int| 0 <= j < pair.len() implies up <= (#[trigger] pair[j]).len()
                && pair[j].take(up) == pair[0].take(up) by {
                assert(all[j].take(up) == all[0].take(up));
            }
        }
        if k < up {
            lemma_shared_shorter(pair, up as nat, k + 1);
        }
        assert(shared_by_all(fewer, up as nat)) by {
            assert forall|j: int| 0 <= j < fewer.len() implies up <= (#[trigger] fewer[j]).len()
                && fewer[j].take(up) == fewer[0].take(up) by {
                if j > 0 {
                    assert(all[j + 1].take(up) == all[0].take(up));
                }
            }
        }
    }
    lemma_common_len_unique(all, n);
}

/// No texts have the empty prefix in common.
pub proof fn lemma_common_prefix_of_none()
    ensures
        common_prefix(Seq::<Seq<char>>::empty()) == Seq::<char>::empty(),
{
}

/// The common prefix of a single text is that text.
pub proof fn lemma_common_prefix_of_one(text: Seq<char>)
    ensures
        common_prefix(seq![text]) == text,
{
    let rows = key_rows(seq![text]);
    assert(rows[0].len() == text.len());
    lemma_common_len_unique(rows, text.len());
}

/// The common prefix is cut from the first text, whose letter case it keeps,
/// and no text is shorter than it.
pub proof fn lemma_common_prefix_keeps_case(texts: Seq<Seq<char>>)
    requires
        texts.len() > 0,
    ensures
        common_prefix(texts) == texts[0].take(common_prefix(texts).len() as int),
        common_prefix(texts).len() == common_prefix_len(texts),
        forall|j: int| 0 <= j < texts.len() ==> common_prefix_len(texts) <= (#[trigger] texts[j]).len(),
{
    let rows = key_rows(texts);
    lemma_common_len_shared(rows);
    assert forall|j: int| 0 <= j < texts.len() implies common_prefix_len(texts) <= (
    #[trigger] texts[j]).len() by {
        assert(rows[j].len() == texts[j].len());
    }
}

/// The comparison ignores letter case: texts that are, one by one and
/// position by position, the same letters as the texts of another list share
/// a prefix of the same length.
pub proof fn lemma_common_prefix_ignores_case(a: Seq<Seq<char>>, b: Seq<Seq<char>>)
    requires
        a.len() == b.len(),
        forall|j: int| 0 <= j < a.len() ==> (#[trigger] a[j]).len() == b[j].len(),
        forall|j: int, i: int|
            0 <= j < a.len() && 0 <= i < a[j].len() ==> same_letter(
                #[trigger] a[j][i],
                #[trigger] b[j][i],
            ),
    ensures
        common_prefix_len(a) == common_prefix_len(b),
{
    assert(key_rows(a) =~= key_rows(b)) by {
        assert forall|j: int| 0 <= j < a.len() implies letter_keys(a[j]) == letter_keys(b[j]) by {
        }
    }
}

/// The number of leading keys that all rows share.
pub fn shared_length(rows: &Vec<Vec<String>>) -> (n: usize)
    ensures
        n == common_len(rows.deep_view()),
{
    if rows.len() == 0 {
        return 0;
    }
    let ghost keys = rows.deep_view();
    let mut n: usize = 0;
    proof {
        assert forall|j: int| 0 <= j < keys.len() implies 0 <= (#[trigger] keys[j]).len()
            && keys[j].take(0) == keys[0].take(0) by {
        }
    }
    loop
        invariant
            keys == rows.deep_view(),
            rows.len() > 0,
            n <= rows[0].len(),
            shared_by_all(keys, n as nat),
        ensures
            shared_at_most(keys, n as nat),
        decreases rows[0].len() - n,
    {
        if n >= rows[0].len() {
            assert(!((n + 1) as nat <= keys[0].len()));
            break;
        }
        let mut j: usize = 1;
        while j < rows.len()
            invariant
                keys == rows.deep_view(),
                1 <= j <= rows.len(),
                n < rows[0].len(),
                shared_by_all(keys, n as nat),
                forall|k: int|
                    0 <= k < j ==> n < (#[trigger] keys[k]).len() && keys[k][n as int]
                        == keys[0][n as int],
            ensures
                j <= rows.len(),
                j < rows.len() ==> !(n < keys[j as int].len() && keys[j as int][n as int]
                    == keys[0][n as int]),
                forall|k: int|
                    0 <= k < j ==> n < (#[trigger] keys[k]).len() && keys[k][n as int]
                        == keys[0][n as int],
            decreases rows.len() - j,
        {
            if n >= rows[j].len() || rows[j][n] != rows[0][n] {
                break;
            }
            j += 1;
        }
        if j < rows.len() {
            proof {
                let row = keys[j as int];
                if (n + 1) as nat <= row.len() {
                    assert(keys[0].take(n + 1)[n as int] == keys[0][n as int]);
                }
            }
            break;
        }
        proof {
            assert forall|k: int| 0 <= k < keys.len() implies (n + 1) as nat <= (
            #[trigger] keys[k]).len() && keys[k].take(n + 1) == keys[0].take(n + 1) by {
            }
        }
        n += 1;
    }
    proof {
        lemma_common_len_unique(keys, n as nat);
    }
    n
}

/// The longest common prefix of `strings`. Characters are compared by their
/// lower-case mappings; the result keeps the letter case of the first
/// string. An empty list gives the empty string.
pub fn longest_common_prefix(strings: &[String]) -> (prefix: String)
    ensures
        prefix@ == common_prefix(texts(strings@)),
        strings@.len() == 0 ==> prefix@ == Seq::<char>::empty(),
        strings@.len() == 1 ==> prefix@ == strings[0]@,
        strings@.len() > 0 ==> prefix@ == strings[0]@.take(prefix@.len() as int),
{
    if strings.len() == 0 {
        return String::new();
    }
    proof {
        lemma_common_prefix_keeps_case(texts(strings@));
        if strings@.len() == 1 {
            lemma_common_prefix_of_one(strings[0]@);
        }
    }
    let mut rows: Vec<Vec<String>> = Vec::new();
    let mut j: usize = 0;
    while j < strings.len()
        invariant
            j <= strings.len(),
            rows.len() == j,
            forall|k: int| 0 <= k < j ==> (#[trigger] rows[k]).deep_view() == letter_keys(strings[k]@),
        decreases strings.len() - j,
    {
        rows.push(letter_keys_of(strings[j].as_str()));
        j += 1;
    }
    assert(rows.deep_view() =~= key_rows(texts(strings@)));
    let n = shared_length(&rows);
    proof {
        lemma_common_len_shared(rows.deep_view());
    }
    strings[0].as_str().substring_char(0, n).to_owned()
}

} // verus!
