//! The order of rows by their totals.

use vstd::prelude::*;

verus! {

/// Whether the row `a` comes before the row `b`: it has the greater total,
/// or the same total and the earlier place.
pub open spec fn comes_before(keys: Seq<u128>, a: int, b: int) -> bool {
    keys[a] > keys[b] || (keys[a] == keys[b] && a < b)
}

/// Whether `order` lists the places of `keys` by falling key, equal keys in
/// the order of their places: every place once, each before those that it
/// comes before.
pub open spec fn is_ranking(keys: Seq<u128>, order: Seq<usize>) -> bool {
    &&& order.len() == keys.len()
    &&& forall|i: int| 0 <= i < order.len() ==> 0 <= #[trigger] order[i] < keys.len()
    &&& forall|k: usize| k < keys.len() ==> #[trigger] order.contains(k)
    &&& forall|i: int, j: int|
        0 <= i < j < order.len() ==> comes_before(
            keys,
            #[trigger] order[i] as int,
            #[trigger] order[j] as int,
        )
}

/// The ranking of `keys`.
pub open spec fn ranking_of(keys: Seq<u128>) -> Seq<usize> {
    choose|order: Seq<usize>| is_ranking(keys, order)
}

/// Two rankings of the same keys agree on their first `n` places.
proof fn lemma_rankings_agree(keys: Seq<u128>, a: Seq<usize>, b: Seq<usize>, n: int)
    requires
        is_ranking(keys, a),
        is_ranking(keys, b),
        0 <= n <= keys.len(),
    ensures
        forall|i: int| 0 <= i < n ==> a[i] == b[i],
    decreases n,
{
    if n > 0 {
        lemma_rankings_agree(keys, a, b, n - 1);
        let at = n - 1;
        let x = a[at];
        let y = b[at];
        if x != y {
            assert(b.contains(x));
            let j = choose|j: int| 0 <= j < b.len() && b[j] == x;
            assert(a.contains(y));
            let k = choose|k: int| 0 <= k < a.len() && a[k] == y;
            if j < at {
                assert(a[j] == b[j]);
                assert(comes_before(keys, a[j] as int, a[at] as int));
            } else if k < at {
                assert(a[k] == b[k]);
                assert(comes_before(keys, b[k] as int, b[at] as int));
            } else {
                assert(comes_before(keys, b[at] as int, b[j] as int));
                assert(comes_before(keys, a[at] as int, a[k] as int));
            }
        }
    }
}

/// Keys have one ranking only.
pub proof fn lemma_ranking_unique(keys: Seq<u128>, a: Seq<usize>, b: Seq<usize>)
    requires
        is_ranking(keys, a),
        is_ranking(keys, b),
    ensures
        a == b,
{
    lemma_rankings_agree(keys, a, b, keys.len() as int);
    assert(a =~= b);
}

/// The places of `keys` by falling key, equal keys in the order of their
/// places.
pub fn ranking(keys: &Vec<u128>) -> (order: Vec<usize>)
    ensures
        is_ranking(keys@, order@),
        order@ == ranking_of(keys@),
{
    let mut order: Vec<usize> = Vec::new();
    let mut k: usize = 0;
    while k < keys.len()
        invariant
            k <= keys@.len(),
            order@.len() == k,
            forall|i: int| 0 <= i < order@.len() ==> 0 <= #[trigger] order@[i] < k,
            forall|m: usize| m < k ==> #[trigger] order@.contains(m),
            forall|i: int, j: int|
                0 <= i < j < order@.len() ==> comes_before(
                    keys@,
                    #[trigger] order@[i] as int,
                    #[trigger] order@[j] as int,
                ),
        decreases keys@.len() - k,
    {
        let key = keys[k];
        let mut p: usize = 0;
        while p < order.len() && keys[order[p]] >= key
            invariant
                p <= order@.len(),
                k < keys@.len(),
                key == keys@[k as int],
                forall|i: int| 0 <= i < order@.len() ==> 0 <= #[trigger] order@[i] < k,
                forall|i: int| 0 <= i < p ==> keys@[#[trigger] order@[i] as int] >= key,
            decreases order@.len() - p,
        {
            p = p + 1;
        }
        let ghost before = order@;
        order.insert(p, k);
        proof {
            let after = order@;
            assert forall|i: int| 0 <= i < after.len() implies 0 <= #[trigger] after[i] < k
                + 1 by {
                if i < p {
                    assert(after[i] == before[i]);
                } else if i > p {
                    assert(after[i] == before[i - 1]);
                }
            }
            assert forall|m: usize| m < k + 1 implies #[trigger] after.contains(m) by {
                if m < k {
                    assert(before.contains(m));
                    let i = choose|i: int| 0 <= i < before.len() && before[i] == m;
                    if i < p {
                        assert(after[i] == m);
                    } else {
                        assert(after[i + 1] == m);
                    }
                } else {
                    assert(after[p as int] == m);
                }
            }
            assert forall|i: int, j: int| 0 <= i < j < after.len() implies comes_before(
                keys@,
                #[trigger] after[i] as int,
                #[trigger] after[j] as int,
            ) by {
                if j < p {
                    assert(after[i] == before[i] && after[j] == before[j]);
                } else if j == p {
                    assert(after[i] == before[i]);
                    assert(keys@[before[i] as int] >= key);
                } else if i < p {
                    assert(after[i] == before[i] && after[j] == before[j - 1]);
                } else if i == p {
                    assert(after[j] == before[j - 1]);
                    assert(keys@[before[p as int] as int] < key);
                    if j - 1 > p {
                        assert(comes_before(keys@, before[p as int] as int, before[j - 1] as int));
                    }
                } else {
                    assert(after[i] == before[i - 1] && after[j] == before[j - 1]);
                }
            }
        }
        k = k + 1;
    }
    proof {
        lemma_ranking_unique(keys@, order@, ranking_of(keys@));
    }
    order
}

} // verus!
