//! Lists in descending order of a rank.
use crate::str_map::keys_distinct;
use vstd::prelude::*;

verus! {

/// No rank is followed by a higher one.
pub open spec fn is_descending(ranks: Seq<usize>) -> bool {
    forall|i: int, j: int| 0 <= i <= j < ranks.len() ==> ranks[i] >= ranks[j]
}

/// Puts an item behind the items of its own rank or a higher one, and before
/// the others. `ranks` holds the ranks of `items`.
pub fn insert_ranked<T>(items: &mut Vec<T>, ranks: &mut Vec<usize>, item: T, rank: usize) -> (pos:
    usize)
    requires
        old(items)@.len() == old(ranks)@.len(),
        is_descending(old(ranks)@),
    ensures
        pos <= old(items)@.len(),
        final(items)@ == old(items)@.insert(pos as int, item),
        final(ranks)@ == old(ranks)@.insert(pos as int, rank),
        is_descending(final(ranks)@),
        forall|i: int| 0 <= i < pos ==> old(ranks)@[i] >= rank,
        forall|i: int| pos <= i < old(ranks)@.len() ==> old(ranks)@[i] < rank,
{
    let mut pos: usize = ranks.len();
    while pos > 0 && ranks[pos - 1] < rank
        invariant
            pos <= ranks@.len(),
            forall|i: int| pos <= i < ranks@.len() ==> ranks@[i] < rank,
        decreases pos,
    {
        pos -= 1;
    }
    items.insert(pos, item);
    ranks.insert(pos, rank);
    assert forall|i: int, j: int| 0 <= i <= j < ranks@.len() implies ranks@[i] >= ranks@[j] by {
        let before = old(ranks)@;
        if pos > 0 {
            assert(before[pos - 1] >= rank);
        }
        assert(forall|k: int| 0 <= k < pos ==> before[k] >= rank);
    }
    pos
}

/// `s` lists the first `n` entries of `all` in some order.
#[verifier::opaque]
pub open spec fn lists_entries<T>(
    s: Seq<(Seq<char>, T)>,
    all: Seq<(Seq<char>, T)>,
    n: int,
) -> bool {
    &&& keys_distinct(s)
    &&& forall|k: int|
        0 <= k < s.len() ==> exists|j: int| 0 <= j < n && all[j] == #[trigger] s[k]
    &&& forall|j: int|
        0 <= j < n ==> exists|k: int| 0 <= k < s.len() && s[k] == #[trigger] all[j]
}

/// The empty list lists no entries.
pub proof fn lemma_list_nothing<T>(s: Seq<(Seq<char>, T)>, all: Seq<(Seq<char>, T)>)
    requires
        s.len() == 0,
    ensures
        lists_entries(s, all, 0),
{
    reveal(lists_entries);
}

/// One more entry can be put at any place of the list.
pub proof fn lemma_list_one_more<T>(
    s: Seq<(Seq<char>, T)>,
    all: Seq<(Seq<char>, T)>,
    n: int,
    pos: int,
)
    requires
        lists_entries(s, all, n),
        keys_distinct(all),
        0 <= n < all.len(),
        0 <= pos <= s.len(),
    ensures
        lists_entries(s.insert(pos, all[n]), all, n + 1),
{
    reveal(lists_entries);
    let t = s.insert(pos, all[n]);
    assert forall|k: int| 0 <= k < s.len() implies (#[trigger] s[k]).0 != all[n].0 by {
        let j = choose|j: int| 0 <= j < n && all[j] == s[k];
        assert(all[j].0 != all[n].0);
    }
    assert forall|i: int, j: int| 0 <= i < j < t.len() implies (#[trigger] t[i]).0 != (
    #[trigger] t[j]).0 by {
        let a = if i < pos {
            i
        } else {
            i - 1
        };
        let b = if j < pos {
            j
        } else {
            j - 1
        };
        if i != pos && j != pos {
            assert(t[i] == s[a] && t[j] == s[b]);
            assert(s[a].0 != s[b].0);
        } else if i == pos {
            assert(t[j] == s[b]);
        } else {
            assert(t[i] == s[a]);
        }
    }
    assert forall|k: int| 0 <= k < t.len() implies exists|j: int|
        0 <= j < n + 1 && all[j] == #[trigger] t[k] by {
        if k != pos {
            let a = if k < pos {
                k
            } else {
                k - 1
            };
            assert(t[k] == s[a]);
            let j = choose|j: int| 0 <= j < n && all[j] == s[a];
            assert(all[j] == t[k]);
        } else {
            assert(all[n] == t[k]);
        }
    }
    assert forall|j: int| 0 <= j < n + 1 implies exists|k: int|
        0 <= k < t.len() && t[k] == #[trigger] all[j] by {
        if j < n {
            let k = choose|k: int| 0 <= k < s.len() && s[k] == all[j];
            let a = if k < pos {
                k
            } else {
                k + 1
            };
            assert(t[a] == all[j]);
        } else {
            assert(t[pos] == all[j]);
        }
    }
}

} // verus!
