//! The order in which options are shown on the results page.
//!
//! Each option comes with a key, a sequence of numbers of the same length for
//! every option (its statistics, mapped to integers that order as they do).
//! Options are compared position by position, the first differing position
//! deciding; the smaller key comes first, and of two options with equal keys
//! the one given first comes first.
use vstd::prelude::*;

verus! {

/// The order of two keys: -1 when `a` comes first, 1 when `b` does, 0 when
/// neither does (they agree on every position that both have).
pub open spec fn key_order(a: Seq<i64>, b: Seq<i64>) -> int
    decreases a.len(),
{
    if a.len() == 0 || b.len() == 0 {
        0
    } else if a[0] < b[0] {
        -1
    } else if a[0] > b[0] {
        1
    } else {
        key_order(a.drop_first(), b.drop_first())
    }
}

/// The keys as the logic sees them.
pub open spec fn keys_view(keys: Seq<Vec<i64>>) -> Seq<Seq<i64>> {
    keys.map_values(|k: Vec<i64>| k@)
}

/// Every key has as many positions as every other.
pub open spec fn same_width(keys: Seq<Seq<i64>>) -> bool {
    forall|i: int, j: int|
        0 <= i < keys.len() && 0 <= j < keys.len() ==> (#[trigger] keys[i]).len() == (
        #[trigger] keys[j]).len()
}

/// Option `i` comes before option `j`: a smaller key, or an equal key and
/// given earlier.
pub open spec fn ranks_before(keys: Seq<Seq<i64>>, i: int, j: int) -> bool {
    key_order(keys[i], keys[j]) < 0 || (key_order(keys[i], keys[j]) == 0 && i < j)
}

/// `r` lists every option exactly once, in ranking order.
pub open spec fn is_ranking(keys: Seq<Seq<i64>>, r: Seq<usize>) -> bool {
    &&& r.len() == keys.len()
    &&& forall|p: int| 0 <= p < r.len() ==> #[trigger] r[p] < keys.len()
    &&& forall|i: int| 0 <= i < keys.len() ==> #[trigger] r.contains(i as usize)
    &&& forall|p: int, q: int|
        0 <= p < q < r.len() ==> ranks_before(keys, #[trigger] r[p] as int, #[trigger] r[q] as int)
}

pub proof fn lemma_key_order_antisymmetric(a: Seq<i64>, b: Seq<i64>)
    ensures
        key_order(a, b) == -key_order(b, a),
    decreases a.len(),
{
    if a.len() > 0 && b.len() > 0 && a[0] == b[0] {
        lemma_key_order_antisymmetric(a.drop_first(), b.drop_first());
    }
}

pub proof fn lemma_key_order_reflexive(a: Seq<i64>)
    ensures
        key_order(a, a) == 0,
    decreases a.len(),
{
    if a.len() > 0 {
        lemma_key_order_reflexive(a.drop_first());
    }
}

pub proof fn lemma_key_order_transitive(a: Seq<i64>, b: Seq<i64>, c: Seq<i64>)
    requires
        a.len() == b.len(),
        b.len() == c.len(),
        key_order(a, b) <= 0,
        key_order(b, c) <= 0,
    ensures
        key_order(a, c) <= 0,
        key_order(a, b) < 0 || key_order(b, c) < 0 ==> key_order(a, c) < 0,
    decreases a.len(),
{
    if a.len() > 0 && a[0] == b[0] && b[0] == c[0] {
        lemma_key_order_transitive(a.drop_first(), b.drop_first(), c.drop_first());
    }
}

proof fn lemma_key_order_skip(a: Seq<i64>, b: Seq<i64>, i: int)
    requires
        0 <= i < a.len(),
        i < b.len(),
        a[i] == b[i],
    ensures
        key_order(a.skip(i), b.skip(i)) == key_order(a.skip(i + 1), b.skip(i + 1)),
{
    assert(a.skip(i).drop_first() =~= a.skip(i + 1));
    assert(b.skip(i).drop_first() =~= b.skip(i + 1));
}

/// Compares two keys: -1, 0 or 1 as `key_order` says.
pub fn compare_keys(a: &Vec<i64>, b: &Vec<i64>) -> (o: i8)
    ensures
        o as int == key_order(a@, b@),
{
    let mut i: usize = 0;
    assert(a@.skip(0) =~= a@);
    assert(b@.skip(0) =~= b@);
    while i < a.len() && i < b.len()
        invariant
            0 <= i <= a.len(),
            i <= b.len(),
            key_order(a@, b@) == key_order(a@.skip(i as int), b@.skip(i as int)),
        decreases a.len() - i,
    {
        if a[i] < b[i] {
            return -1;
        }
        if a[i] > b[i] {
            return 1;
        }
        proof {
            lemma_key_order_skip(a@, b@, i as int);
        }
        i = i + 1;
    }
    0
}

/// Ranks options by their keys: the positions of `keys`, smallest key first,
/// options with equal keys in the order given. Each option in turn is put
/// just before the first option already placed whose key is greater, or at
/// the end.
pub fn rank_by_keys(keys: &Vec<Vec<i64>>) -> (r: Vec<usize>)
    requires
        same_width(keys_view(keys@)),
    ensures
        is_ranking(keys_view(keys@), r@),
{
    let ghost ks = keys_view(keys@);
    let mut ordered: Vec<usize> = Vec::new();
    let mut new: usize = 0;
    while new < keys.len()
        invariant
            0 <= new <= keys.len(),
            ks == keys_view(keys@),
            same_width(ks),
            ordered@.len() == new,
            forall|p: int| 0 <= p < ordered@.len() ==> #[trigger] ordered@[p] < new,
            forall|j: int| 0 <= j < new ==> #[trigger] ordered@.contains(j as usize),
            forall|p: int, q: int|
                0 <= p < q < ordered@.len() ==> ranks_before(
                    ks,
                    #[trigger] ordered@[p] as int,
                    #[trigger] ordered@[q] as int,
                ),
        decreases keys.len() - new,
    {
        let mut i: usize = 0;
        while i < ordered.len()
            invariant
                0 <= i <= ordered.len(),
                new < keys.len(),
                ks == keys_view(keys@),
                forall|p: int| 0 <= p < ordered@.len() ==> #[trigger] ordered@[p] < new,
                forall|p: int|
                    0 <= p < i ==> key_order(ks[new as int], ks[#[trigger] ordered@[p] as int]) >= 0,
            ensures
                0 <= i <= ordered.len(),
                forall|p: int|
                    0 <= p < i ==> key_order(ks[new as int], ks[#[trigger] ordered@[p] as int]) >= 0,
                i < ordered.len() ==> key_order(ks[new as int], ks[ordered@[i as int] as int]) < 0,
            decreases ordered.len() - i,
        {
            let o = compare_keys(&keys[new], &keys[ordered[i]]);
            if o < 0 {
                break;
            }
            i = i + 1;
        }
        let ghost before = ordered@;
        proof {
            lemma_place(ks, before, new, i as int);
        }
        if i < ordered.len() {
            ordered.insert(i, new);
        } else {
            ordered.push(new);
            assert(before.push(new) =~= before.insert(i as int, new));
        }
        new = new + 1;
    }
    ordered
}

/// Putting `new` at `i` keeps a ranking of the options before it a ranking.
proof fn lemma_place(ks: Seq<Seq<i64>>, before: Seq<usize>, new: usize, i: int)
    requires
        same_width(ks),
        0 <= new < ks.len(),
        before.len() == new,
        0 <= i <= before.len(),
        forall|p: int| 0 <= p < before.len() ==> #[trigger] before[p] < new,
        forall|j: int| 0 <= j < new ==> #[trigger] before.contains(j as usize),
        forall|p: int, q: int|
            0 <= p < q < before.len() ==> ranks_before(
                ks,
                #[trigger] before[p] as int,
                #[trigger] before[q] as int,
            ),
        forall|p: int| 0 <= p < i ==> key_order(ks[new as int], ks[#[trigger] before[p] as int]) >= 0,
        i < before.len() ==> key_order(ks[new as int], ks[before[i] as int]) < 0,
    ensures
        ({
            let after = before.insert(i, new);
            &&& after.len() == new + 1
            &&& forall|p: int| 0 <= p < after.len() ==> #[trigger] after[p] < new + 1
            &&& forall|j: int| 0 <= j < new + 1 ==> #[trigger] after.contains(j as usize)
            &&& forall|p: int, q: int|
                0 <= p < q < after.len() ==> ranks_before(
                    ks,
                    #[trigger] after[p] as int,
                    #[trigger] after[q] as int,
                )
        }),
{
    let after = before.insert(i, new);
    assert forall|j: int| 0 <= j < new + 1 implies #[trigger] after.contains(j as usize) by {
        if j == new {
            assert(after[i] == new as usize);
        } else {
            assert(before.contains(j as usize));
            let k = choose|k: int| 0 <= k < before.len() && before[k] == j as usize;
            if k < i {
                assert(after[k] == j as usize);
            } else {
                assert(after[k + 1] == j as usize);
            }
        }
    }
    assert forall|p: int, q: int| 0 <= p < q < after.len() implies ranks_before(
        ks,
        #[trigger] after[p] as int,
        #[trigger] after[q] as int,
    ) by {
        let a = after[p] as int;
        let b = after[q] as int;
        if q < i {
            assert(ranks_before(ks, before[p] as int, before[q] as int));
            assert(ranks_before(ks, a, b));
        } else if q == i {
            // `a` was placed earlier and does not come after `new`
            assert(key_order(ks[new as int], ks[before[p] as int]) >= 0);
            lemma_key_order_antisymmetric(ks[new as int], ks[a]);
            assert(a < new);
            assert(b == new);
            assert(ranks_before(ks, a, b));
        } else if p < i {
            assert(ranks_before(ks, before[p] as int, before[q - 1] as int));
            assert(ranks_before(ks, a, b));
        } else if p == i {
            // `new` goes before the first greater key, hence before all after it
            assert(key_order(ks[new as int], ks[before[i] as int]) < 0);
            if q - 1 > i {
                assert(ranks_before(ks, before[i] as int, before[q - 1] as int));
                lemma_key_order_antisymmetric(ks[before[i] as int], ks[b]);
                assert(ks[new as int].len() == ks[before[i] as int].len());
                assert(ks[b].len() == ks[before[i] as int].len());
                lemma_key_order_transitive(ks[new as int], ks[before[i] as int], ks[b]);
            }
            assert(ranks_before(ks, a, b));
        } else {
            assert(ranks_before(ks, before[p - 1] as int, before[q - 1] as int));
            assert(ranks_before(ks, a, b));
        }
    }
}

/// Two rankings of the same keys are the same list: the ranking is determined
/// by the keys and the order in which the options were given.
pub proof fn lemma_ranking_unique(keys: Seq<Seq<i64>>, r1: Seq<usize>, r2: Seq<usize>)
    requires
        is_ranking(keys, r1),
        is_ranking(keys, r2),
    ensures
        r1 == r2,
{
    if r1.len() > 0 {
        lemma_ranking_prefix(keys, r1, r2, r1.len() - 1);
    }
    assert(r1 =~= r2);
}

proof fn lemma_not_before_itself(keys: Seq<Seq<i64>>, a: int)
    ensures
        !ranks_before(keys, a, a),
{
    lemma_key_order_reflexive(keys[a]);
}

proof fn lemma_ranking_prefix(keys: Seq<Seq<i64>>, r1: Seq<usize>, r2: Seq<usize>, p: int)
    requires
        is_ranking(keys, r1),
        is_ranking(keys, r2),
        0 <= p < r1.len(),
    ensures
        forall|j: int| 0 <= j <= p ==> r1[j] == r2[j],
    decreases p,
{
    if p > 0 {
        lemma_ranking_prefix(keys, r1, r2, p - 1);
    }
    let x = r1[p];
    let y = r2[p];
    if x != y {
        // where `y` stands in the first ranking, and `x` in the second
        let yi = y as int;
        let xi = x as int;
        assert(yi < keys.len() && xi < keys.len());
        assert(r1.contains(yi as usize));
        let k = choose|k: int| 0 <= k < r1.len() && r1[k] == y;
        assert(r2.contains(xi as usize));
        let m = choose|m: int| 0 <= m < r2.len() && r2[m] == x;
        if k < p {
            assert(r2[k] == y);
            assert(ranks_before(keys, r2[k] as int, r2[p] as int));
            lemma_not_before_itself(keys, y as int);
        }
        if m < p {
            assert(r1[m] == x);
            assert(ranks_before(keys, r1[m] as int, r1[p] as int));
            lemma_not_before_itself(keys, x as int);
        }
        assert(k > p && m > p);
        assert(ranks_before(keys, r1[p] as int, r1[k] as int));
        assert(ranks_before(keys, r2[p] as int, r2[m] as int));
        lemma_key_order_antisymmetric(keys[x as int], keys[y as int]);
    }
}

/// `a` and `b` agree on every position before `k`.
pub open spec fn agree_before(a: Seq<i64>, b: Seq<i64>, k: int) -> bool {
    forall|j: int| 0 <= j < k ==> #[trigger] a[j] == b[j]
}

/// Keys are compared as integers, position by position: the first position
/// at which they differ decides, the smaller value coming first; keys that
/// agree on every position both have are tied.
pub proof fn law_key_order_is_lexicographic(a: Seq<i64>, b: Seq<i64>)
    ensures
        key_order(a, b) == -1 <==> exists|k: int|
            0 <= k < a.len() && k < b.len() && #[trigger] a[k] < b[k] && agree_before(a, b, k),
        key_order(a, b) == 1 <==> exists|k: int|
            0 <= k < a.len() && k < b.len() && #[trigger] a[k] > b[k] && agree_before(a, b, k),
        key_order(a, b) == 0 <==> forall|j: int|
            0 <= j < a.len() && j < b.len() ==> #[trigger] a[j] == b[j],
    decreases a.len(),
{
    if a.len() == 0 || b.len() == 0 {
    } else if a[0] < b[0] {
        assert(agree_before(a, b, 0));
        assert forall|k: int|
            0 <= k < a.len() && k < b.len() && #[trigger] a[k] > b[k] implies !agree_before(
            a,
            b,
            k,
        ) by {
            if k > 0 {
                assert(a[0] != b[0]);
            }
        }
    } else if a[0] > b[0] {
        assert(agree_before(a, b, 0));
        assert forall|k: int|
            0 <= k < a.len() && k < b.len() && #[trigger] a[k] < b[k] implies !agree_before(
            a,
            b,
            k,
        ) by {
            if k > 0 {
                assert(a[0] != b[0]);
            }
        }
    } else {
        let a1 = a.drop_first();
        let b1 = b.drop_first();
        law_key_order_is_lexicographic(a1, b1);
        assert(key_order(a, b) == key_order(a1, b1));
        // a position of the tails is one more in the keys
        assert forall|k: int|
            0 <= k < a.len() && k < b.len() && agree_before(a, b, k) && k > 0 implies agree_before(
            a1,
            b1,
            k - 1,
        ) by {
            assert forall|j: int| 0 <= j < k - 1 implies #[trigger] a1[j] == b1[j] by {
                assert(a[j + 1] == b[j + 1]);
            }
        }
        assert forall|k: int|
            0 <= k < a1.len() && k < b1.len() && agree_before(a1, b1, k) implies agree_before(
            a,
            b,
            k + 1,
        ) by {
            assert forall|j: int| 0 <= j < k + 1 implies #[trigger] a[j] == b[j] by {
                if j > 0 {
                    assert(a1[j - 1] == b1[j - 1]);
                }
            }
        }
        if key_order(a, b) == -1 {
            let k = choose|k: int|
                0 <= k < a1.len() && k < b1.len() && #[trigger] a1[k] < b1[k] && agree_before(
                    a1,
                    b1,
                    k,
                );
            assert(a[k + 1] < b[k + 1]);
        } else {
            assert forall|k: int|
                0 <= k < a.len() && k < b.len() && #[trigger] a[k] < b[k] implies !agree_before(
                a,
                b,
                k,
            ) by {
                if k > 0 && agree_before(a, b, k) {
                    assert(agree_before(a1, b1, k - 1));
                    assert(a1[k - 1] < b1[k - 1]);
                }
            }
        }
        if key_order(a, b) == 1 {
            let k = choose|k: int|
                0 <= k < a1.len() && k < b1.len() && #[trigger] a1[k] > b1[k] && agree_before(
                    a1,
                    b1,
                    k,
                );
            assert(a[k + 1] > b[k + 1]);
        } else {
            assert forall|k: int|
                0 <= k < a.len() && k < b.len() && #[trigger] a[k] > b[k] implies !agree_before(
                a,
                b,
                k,
            ) by {
                if k > 0 && agree_before(a, b, k) {
                    assert(agree_before(a1, b1, k - 1));
                    assert(a1[k - 1] > b1[k - 1]);
                }
            }
        }
        if key_order(a, b) == 0 {
            assert forall|j: int| 0 <= j < a.len() && j < b.len() implies #[trigger] a[j] == b[j] by {
                if j > 0 {
                    assert(a1[j - 1] == b1[j - 1]);
                }
            }
        } else {
            if forall|j: int| 0 <= j < a.len() && j < b.len() ==> #[trigger] a[j] == b[j] {
                assert forall|j: int| 0 <= j < a1.len() && j < b1.len() implies #[trigger] a1[j]
                    == b1[j] by {
                    assert(a[j + 1] == b[j + 1]);
                }
            }
        }
    }
}

} // verus!
