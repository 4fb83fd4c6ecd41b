//! The order in which initiative outcomes are ranked: by comparison key,
//! highest first, and by position in the input where keys are equal.

use vstd::prelude::*;

verus! {

/// How one comparison key stands to another.
#[derive(Clone, Copy, Debug, PartialEq, Eq, Structural)]
pub enum KeyOrder {
    Lower,
    Same,
    Higher,
}

/// The keys of all participants as plain sequences.
pub open spec fn key_views(keys: Seq<Vec<i64>>) -> Seq<Seq<i64>> {
    Seq::new(keys.len(), |i: int| keys[i]@)
}

/// Both keys have at least `k` entries and agree on the first `k`.
pub open spec fn same_prefix(a: Seq<i64>, b: Seq<i64>, k: int) -> bool {
    &&& k <= a.len()
    &&& k <= b.len()
    &&& forall|p: int| 0 <= p < k ==> a[p] == b[p]
}

/// `a` and `b` agree on their first `k` entries, and right after them `a`
/// either ends while `b` goes on, or holds the smaller entry.
pub open spec fn lower_from(a: Seq<i64>, b: Seq<i64>, k: int) -> bool {
    &&& 0 <= k
    &&& same_prefix(a, b, k)
    &&& k < b.len()
    &&& k < a.len() ==> a[k] < b[k]
}

/// `a` comes before `b` in the lexicographic order of sequences: at the
/// first place where they differ `a` holds the smaller entry, or `a` is a
/// proper prefix of `b`.
pub open spec fn key_less(a: Seq<i64>, b: Seq<i64>) -> bool {
    exists|k: int| #[trigger] lower_from(a, b, k)
}

/// The participant `i` is ranked before the participant `j`: its key is the
/// higher one, or the keys are equal and it came first in the input.
pub open spec fn ranks_before(keys: Seq<Seq<i64>>, i: int, j: int) -> bool {
    key_less(keys[j], keys[i]) || (keys[i] == keys[j] && i < j)
}

/// No key is lower than itself, and of two keys at most one is the lower.
pub proof fn lemma_key_less_asymmetric(a: Seq<i64>, b: Seq<i64>)
    ensures
        !(key_less(a, b) && key_less(b, a)),
        !key_less(a, a),
{
    if key_less(a, b) && key_less(b, a) {
        let k1 = choose|k: int| #[trigger] lower_from(a, b, k);
        let k2 = choose|k: int| #[trigger] lower_from(b, a, k);
        if k1 < k2 {
            assert(b[k1] == a[k1]);
        } else if k2 < k1 {
            assert(a[k2] == b[k2]);
        }
    }
    if key_less(a, a) {
        let k = choose|k: int| #[trigger] lower_from(a, a, k);
    }
}

/// The lexicographic order is transitive.
pub proof fn lemma_key_less_transitive(a: Seq<i64>, b: Seq<i64>, c: Seq<i64>)
    requires
        key_less(a, b),
        key_less(b, c),
    ensures
        key_less(a, c),
{
    let k1 = choose|k: int| #[trigger] lower_from(a, b, k);
    let k2 = choose|k: int| #[trigger] lower_from(b, c, k);
    if k1 <= k2 {
        assert(forall|p: int| 0 <= p < k1 ==> a[p] == b[p] && b[p] == c[p]);
        assert(lower_from(a, c, k1));
    } else {
        assert(forall|p: int| 0 <= p < k2 ==> a[p] == b[p] && b[p] == c[p]);
        assert(a[k2] == b[k2]);
        assert(lower_from(a, c, k2));
    }
}

/// Ranking is transitive.
pub proof fn lemma_ranks_before_transitive(keys: Seq<Seq<i64>>, i: int, j: int, l: int)
    requires
        ranks_before(keys, i, j),
        ranks_before(keys, j, l),
    ensures
        ranks_before(keys, i, l),
{
    if key_less(keys[j], keys[i]) && key_less(keys[l], keys[j]) {
        lemma_key_less_transitive(keys[l], keys[j], keys[i]);
    }
}

/// Of two participants at most one is ranked before the other, and none
/// before itself.
pub proof fn lemma_ranks_before_asymmetric(keys: Seq<Seq<i64>>, i: int, j: int)
    ensures
        !(ranks_before(keys, i, j) && ranks_before(keys, j, i)),
{
    lemma_key_less_asymmetric(keys[i], keys[j]);
    lemma_key_less_asymmetric(keys[j], keys[i]);
}

/// Compares two keys lexicographically.
pub fn compare_keys(a: &Vec<i64>, b: &Vec<i64>) -> (order: KeyOrder)
    ensures
        order == KeyOrder::Lower <==> key_less(a@, b@),
        order == KeyOrder::Same <==> a@ == b@,
        order == KeyOrder::Higher <==> key_less(b@, a@),
{
    let mut p: usize = 0;
    while p < a.len() && p < b.len()
        invariant
            p <= a@.len(),
            p <= b@.len(),
            same_prefix(a@, b@, p as int),
        decreases a@.len() - p,
    {
        if a[p] < b[p] {
            proof {
                assert(lower_from(a@, b@, p as int));
                lemma_key_less_asymmetric(a@, b@);
            }
            return KeyOrder::Lower;
        }
        if a[p] > b[p] {
            proof {
                assert(same_prefix(b@, a@, p as int));
                assert(lower_from(b@, a@, p as int));
                lemma_key_less_asymmetric(a@, b@);
            }
            return KeyOrder::Higher;
        }
        p = p + 1;
    }
    proof {
        lemma_key_less_asymmetric(a@, b@);
        assert(same_prefix(b@, a@, p as int));
    }
    if p < b.len() {
        proof {
            assert(lower_from(a@, b@, p as int));
        }
        KeyOrder::Lower
    } else if p < a.len() {
        proof {
            assert(lower_from(b@, a@, p as int));
        }
        KeyOrder::Higher
    } else {
        proof {
            assert(a@ =~= b@);
        }
        KeyOrder::Same
    }
}

/// Tells whether participant `i` is ranked before participant `j`.
pub fn is_ranked_before(keys: &Vec<Vec<i64>>, i: usize, j: usize) -> (before: bool)
    requires
        i < keys@.len(),
        j < keys@.len(),
    ensures
        before == ranks_before(key_views(keys@), i as int, j as int),
        i != j ==> before || ranks_before(key_views(keys@), j as int, i as int),
{
    match compare_keys(&keys[j], &keys[i]) {
        KeyOrder::Lower => true,
        KeyOrder::Same => i < j,
        KeyOrder::Higher => {
            proof {
                lemma_key_less_asymmetric(keys@[i as int]@, keys@[j as int]@);
            }
            false
        },
    }
}

/// Among keys of one length that agree on all but their last entry, the
/// ranking goes by the last entry.
pub proof fn lemma_same_prefix_rank(keys: Seq<Seq<i64>>, i: int, j: int, depth: int)
    requires
        depth >= 1,
        keys[i].len() == depth,
        keys[j].len() == depth,
        same_prefix(keys[i], keys[j], depth - 1),
        ranks_before(keys, i, j),
    ensures
        keys[i][depth - 1] >= keys[j][depth - 1],
{
    if key_less(keys[j], keys[i]) {
        let k = choose|k: int| #[trigger] lower_from(keys[j], keys[i], k);
        if k < depth - 1 {
            assert(keys[i][k] == keys[j][k]);
        }
    }
}

/// Every entry of `order` is below `n`, and none occurs twice.
pub open spec fn distinct_indices(order: Seq<usize>, n: int) -> bool {
    &&& forall|p: int| 0 <= p < order.len() ==> #[trigger] order[p] < n
    &&& forall|p: int, q: int| 0 <= p < q < order.len() ==> order[p] != order[q]
}

/// The two sequences are of one length and hold the same entries.
pub open spec fn same_entries(a: Seq<usize>, b: Seq<usize>) -> bool {
    &&& a.len() == b.len()
    &&& forall|x: usize| a.contains(x) <==> b.contains(x)
}

/// Every participant listed in `order` is ranked before all that follow it.
pub open spec fn ranked(order: Seq<usize>, keys: Seq<Seq<i64>>) -> bool {
    forall|p: int, q: int|
        0 <= p < q < order.len() ==> ranks_before(keys, #[trigger] order[p] as int, #[trigger] order[q] as int)
}

/// Puts the participants `members` in ranking order: highest key first, and
/// the earlier participant first among equal keys.
pub fn sort_by_rank(members: &Vec<usize>, keys: &Vec<Vec<i64>>) -> (sorted: Vec<usize>)
    requires
        distinct_indices(members@, keys@.len() as int),
    ensures
        distinct_indices(sorted@, keys@.len() as int),
        same_entries(members@, sorted@),
        ranked(sorted@, key_views(keys@)),
{
    let ghost views = key_views(keys@);
    let mut sorted: Vec<usize> = Vec::new();
    let mut m: usize = 0;
    while m < members.len()
        invariant
            m <= members@.len(),
            views == key_views(keys@),
            distinct_indices(members@, keys@.len() as int),
            distinct_indices(sorted@, keys@.len() as int),
            sorted@.len() == m,
            forall|x: usize|
                sorted@.contains(x) <==> exists|r: int| 0 <= r < m && #[trigger] members@[r] == x,
            ranked(sorted@, views),
        decreases members@.len() - m,
    {
        let x = members[m];
        let mut p: usize = 0;
        while p < sorted.len() && !is_ranked_before(keys, x, sorted[p])
            invariant
                p <= sorted@.len(),
                views == key_views(keys@),
                x < keys@.len(),
                distinct_indices(sorted@, keys@.len() as int),
                !sorted@.contains(x),
                forall|q: int| 0 <= q < p ==> ranks_before(views, #[trigger] sorted@[q] as int, x as int),
            decreases sorted@.len() - p,
        {
            assert(sorted@.contains(sorted@[p as int]));
            p = p + 1;
        }
        let ghost before = sorted@;
        sorted.insert(p, x);
        proof {
            before.insert_ensures(p as int, x);
            let after = sorted@;
            assert forall|a: int, b: int| 0 <= a < b < after.len() implies ranks_before(
                views,
                #[trigger] after[a] as int,
                #[trigger] after[b] as int,
            ) && after[a] != after[b] by {
                if b < p {
                } else if b == p {
                } else if a < p {
                    assert(after[b] == before[b - 1]);
                    if p < before.len() {
                        assert(before.contains(before[b - 1]));
                        if b - 1 > p {
                            lemma_ranks_before_transitive(
                                views,
                                before[a] as int,
                                x as int,
                                before[p as int] as int,
                            );
                            lemma_ranks_before_transitive(
                                views,
                                before[a] as int,
                                before[p as int] as int,
                                before[b - 1] as int,
                            );
                        }
                    }
                } else if a == p {
                    assert(after[b] == before[b - 1]);
                    assert(before.contains(before[b - 1]));
                    if b - 1 > p {
                        lemma_ranks_before_transitive(
                            views,
                            x as int,
                            before[p as int] as int,
                            before[b - 1] as int,
                        );
                    }
                } else {
                    assert(after[a] == before[a - 1]);
                    assert(after[b] == before[b - 1]);
                }
            }
            assert forall|a: int| 0 <= a < after.len() implies #[trigger] after[a] < keys@.len() by {
                if a < p {
                } else if a > p {
                    assert(after[a] == before[a - 1]);
                }
            }
            assert forall|y: usize| after.contains(y) <==> exists|r: int|
                0 <= r < m + 1 && #[trigger] members@[r] == y by {
                if after.contains(y) {
                    let a = choose|a: int| 0 <= a < after.len() && after[a] == y;
                    if a == p {
                        assert(members@[m as int] == y);
                    } else {
                        if a < p {
                            assert(before[a] == y);
                        } else {
                            assert(before[a - 1] == y);
                        }
                        assert(before.contains(y));
                        let r = choose|r: int| 0 <= r < m && #[trigger] members@[r] == y;
                        assert(members@[r] == y);
                    }
                }
                if exists|r: int| 0 <= r < m + 1 && #[trigger] members@[r] == y {
                    let r = choose|r: int| 0 <= r < m + 1 && #[trigger] members@[r] == y;
                    if r == m {
                        assert(after[p as int] == y);
                    } else {
                        assert(before.contains(y));
                        let a = choose|a: int| 0 <= a < before.len() && before[a] == y;
                        if a < p {
                            assert(after[a] == y);
                        } else {
                            assert(after[a + 1] == before[a]);
                        }
                    }
                }
            }
        }
        m = m + 1;
    }
    proof {
        assert forall|x: usize| members@.contains(x) <==> sorted@.contains(x) by {
            if members@.contains(x) {
                let r = choose|r: int| 0 <= r < members@.len() && members@[r] == x;
                assert(members@[r] == x);
            }
        }
    }
    sorted
}

} // verus!
