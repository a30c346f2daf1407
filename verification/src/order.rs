//! Stable sorting: the order in which elements come by their keys.

use vstd::prelude::*;

verus! {

/// Whether element `a` comes before element `b`: by a smaller key, or by an
/// equal key and an earlier place.
pub open spec fn before(keys: Seq<i128>, a: usize, b: usize) -> bool {
    keys[a as int] < keys[b as int] || (keys[a as int] == keys[b as int] && a < b)
}

/// Whether every place of `p` comes before those behind it.
pub open spec fn is_sorted(keys: Seq<i128>, p: Seq<usize>) -> bool {
    forall|i: int, j: int| 0 <= i < j < p.len() ==> before(keys, #[trigger] p[i], #[trigger] p[j])
}

/// Whether `p` lists the places of all elements in the stable order of their
/// keys.
pub open spec fn is_order(keys: Seq<i128>, p: Seq<usize>) -> bool {
    &&& p.len() == keys.len()
    &&& forall|i: int| 0 <= i < p.len() ==> (#[trigger] p[i]) < keys.len()
    &&& is_sorted(keys, p)
}

/// Whether `p` lists places below its length, each once.
pub open spec fn is_permutation(p: Seq<usize>) -> bool {
    &&& forall|i: int| 0 <= i < p.len() ==> (#[trigger] p[i]) < p.len()
    &&& forall|i: int, j: int| 0 <= i < j < p.len() ==> #[trigger] p[i] != #[trigger] p[j]
}

/// A stable order lists every place.
pub proof fn law_order_is_complete(keys: Seq<i128>, p: Seq<usize>, place: usize)
    requires
        is_order(keys, p),
        place < keys.len(),
    ensures
        p.contains(place),
{
    lemma_order_is_permutation(keys, p);
    law_permutation_is_complete(p, place);
}

/// A stable order lists places, each once.
pub proof fn lemma_order_is_permutation(keys: Seq<i128>, p: Seq<usize>)
    requires
        is_order(keys, p),
    ensures
        is_permutation(p),
{
    assert forall|i: int, j: int| 0 <= i < j < p.len() implies #[trigger] p[i] != #[trigger] p[j] by {
        assert(before(keys, p[i], p[j]));
    }
}

/// A list of places below its length, each once, lists every place.
pub proof fn law_permutation_is_complete(p: Seq<usize>, place: usize)
    requires
        is_permutation(p),
        place < p.len(),
    ensures
        p.contains(place),
        0 <= p.index_of(place) < p.len(),
        p[p.index_of(place)] == place,
{
    let ints = p.map_values(|x: usize| x as int);
    let all = vstd::set_lib::set_int_range(0, p.len() as int);
    vstd::set_lib::lemma_int_range(0, p.len() as int);
    assert(ints.no_duplicates()) by {
        assert forall|i: int, j: int| 0 <= i < ints.len() && 0 <= j < ints.len() && i != j implies
            ints[i] != ints[j] by {
            if i < j {
                assert(p[i] != p[j]);
            } else {
                assert(p[j] != p[i]);
            }
        }
    }
    ints.unique_seq_to_set();
    assert(ints.to_set().subset_of(all)) by {
        assert forall|x: int| ints.to_set().contains(x) implies all.contains(x) by {
            let i = choose|i: int| 0 <= i < ints.len() && ints[i] == x;
            assert(p[i] < p.len());
        }
    }
    vstd::set_lib::lemma_subset_equality(ints.to_set(), all);
    assert(ints.to_set().contains(place as int));
    let i = choose|i: int| 0 <= i < ints.len() && ints[i] == place as int;
    assert(p[i] == place);
}

/// Whether a list of places holds each place once.
pub fn lists_each_once(p: &[usize]) -> (r: bool)
    ensures
        r == is_permutation(p@),
{
    let n: usize = p.len();
    let mut seen: Vec<bool> = Vec::new();
    let mut k: usize = 0;
    while k < n
        invariant
            k <= n,
            seen@.len() == k,
            forall|x: int| 0 <= x < k ==> !(#[trigger] seen@[x]),
        decreases n - k,
    {
        seen.push(false);
        k += 1;
    }
    let mut i: usize = 0;
    while i < n
        invariant
            i <= n,
            n == p@.len(),
            seen@.len() == n,
            forall|a: int| 0 <= a < i ==> (#[trigger] p@[a]) < n && seen@[p@[a] as int],
            forall|a: int, b: int| 0 <= a < b < i ==> #[trigger] p@[a] != #[trigger] p@[b],
            forall|x: int|
                0 <= x < n && #[trigger] seen@[x] ==> exists|a: int|
                    0 <= a < i && #[trigger] p@[a] == x,
        decreases n - i,
    {
        let at: usize = p[i];
        if at >= n || seen[at] {
            proof {
                if at < n {
                    let a = choose|a: int| 0 <= a < i && #[trigger] p@[a] == at;
                    assert(p@[a] == p@[i as int]);
                }
            }
            return false;
        }
        let ghost before = seen@;
        seen.set(at, true);
        i += 1;
        assert forall|x: int| 0 <= x < n && #[trigger] seen@[x] implies exists|a: int|
            0 <= a < i && #[trigger] p@[a] == x by {
            if x == at {
                assert(p@[i - 1] == x);
            } else {
                assert(before[x]);
            }
        }
    }
    true
}

/// Where each place stands in a list of places.
pub fn inverse(p: &[usize]) -> (r: Vec<usize>)
    requires
        is_permutation(p@),
    ensures
        r@.len() == p@.len(),
        is_permutation(r@),
        forall|x: int|
            0 <= x < r@.len() ==> (#[trigger] r@[x]) == p@.index_of(x as usize) && r@[x] < p@.len()
                && p@[r@[x] as int] == x,
        forall|j: int| 0 <= j < p@.len() ==> r@[(#[trigger] p@[j]) as int] == j,
{
    let n: usize = p.len();
    let mut r: Vec<usize> = Vec::new();
    let mut k: usize = 0;
    while k < n
        invariant
            k <= n,
            r@.len() == k,
        decreases n - k,
    {
        r.push(0);
        k += 1;
    }
    let mut q: usize = 0;
    while q < n
        invariant
            q <= n,
            n == p@.len(),
            r@.len() == n,
            is_permutation(p@),
            forall|j: int| 0 <= j < q ==> r@[(#[trigger] p@[j]) as int] == j,
        decreases n - q,
    {
        let at: usize = p[q];
        let ghost before = r@;
        assert(at < n);
        r.set(at, q);
        q += 1;
        assert forall|j: int| 0 <= j < q implies r@[(#[trigger] p@[j]) as int] == j by {
            if j < q - 1 {
                assert(p@[j] != p@[q - 1]);
                assert(before[p@[j] as int] == j);
            }
        }
    }
    proof {
        assert forall|x: int| 0 <= x < r@.len() implies (#[trigger] r@[x]) == p@.index_of(
            x as usize,
        ) && r@[x] < p@.len() && p@[r@[x] as int] == x by {
            law_permutation_is_complete(p@, x as usize);
            let j = p@.index_of(x as usize);
            assert(r@[p@[j] as int] == j);
        }
        assert forall|x: int, y: int| 0 <= x < y < r@.len() implies #[trigger] r@[x]
            != #[trigger] r@[y] by {
            assert(p@[r@[x] as int] == x && p@[r@[y] as int] == y);
        }
    }
    r
}

/// There is only one stable order.
pub proof fn law_order_is_unique(keys: Seq<i128>, p: Seq<usize>, q: Seq<usize>)
    requires
        is_order(keys, p),
        is_order(keys, q),
    ensures
        p == q,
{
    assert forall|x: usize| #[trigger] p.contains(x) <==> q.contains(x) by {
        if p.contains(x) {
            law_order_is_complete(keys, q, x);
        }
        if q.contains(x) {
            law_order_is_complete(keys, p, x);
        }
    }
    lemma_sorted_unique(keys, p, q);
}

/// Two sorted lists with the same places are the same.
proof fn lemma_sorted_unique(keys: Seq<i128>, p: Seq<usize>, q: Seq<usize>)
    requires
        is_sorted(keys, p),
        is_sorted(keys, q),
        forall|x: usize| #[trigger] p.contains(x) <==> q.contains(x),
    ensures
        p == q,
    decreases p.len(),
{
    if p.len() == 0 {
        if q.len() > 0 {
            assert(q.contains(q[0]));
            assert(p.contains(q[0]));
        }
        assert(p =~= q);
    } else {
        assert(p.contains(p[0]));
        assert(q.contains(p[0]));
        let j = choose|j: int| 0 <= j < q.len() && q[j] == p[0];
        assert(q.contains(q[0]));
        assert(p.contains(q[0]));
        let i = choose|i: int| 0 <= i < p.len() && p[i] == q[0];
        if j > 0 && i > 0 {
            assert(before(keys, q[0], q[j]));
            assert(before(keys, p[0], p[i]));
        }
        assert(p[0] == q[0]);
        let tp = p.drop_first();
        let tq = q.drop_first();
        assert forall|x: usize| #[trigger] tp.contains(x) implies tq.contains(x) by {
            let k = choose|k: int| 0 <= k < tp.len() && tp[k] == x;
            assert(p[k + 1] == x);
            assert(before(keys, p[0], p[k + 1]));
            assert(p.contains(x));
            let m = choose|m: int| 0 <= m < q.len() && q[m] == x;
            assert(tq[m - 1] == x);
        }
        assert forall|x: usize| #[trigger] tq.contains(x) implies tp.contains(x) by {
            let k = choose|k: int| 0 <= k < tq.len() && tq[k] == x;
            assert(q[k + 1] == x);
            assert(before(keys, q[0], q[k + 1]));
            assert(q.contains(x));
            assert(p.contains(x));
            let m = choose|m: int| 0 <= m < p.len() && p[m] == x;
            assert(tp[m - 1] == x);
        }
        assert(is_sorted(keys, tp)) by {
            assert forall|a: int, b: int| 0 <= a < b < tp.len() implies before(
                keys,
                #[trigger] tp[a],
                #[trigger] tp[b],
            ) by {
                assert(tp[a] == p[a + 1] && tp[b] == p[b + 1]);
            }
        }
        assert(is_sorted(keys, tq)) by {
            assert forall|a: int, b: int| 0 <= a < b < tq.len() implies before(
                keys,
                #[trigger] tq[a],
                #[trigger] tq[b],
            ) by {
                assert(tq[a] == q[a + 1] && tq[b] == q[b + 1]);
            }
        }
        lemma_sorted_unique(keys, tp, tq);
        assert(p =~= seq![p[0]] + tp);
        assert(q =~= seq![q[0]] + tq);
    }
}

/// Merge two sorted lists, the first of earlier places than the second.
fn merge(keys: &[i128], a: &[usize], b: &[usize], Ghost(mid): Ghost<int>) -> (r: Vec<usize>)
    requires
        is_sorted(keys@, a@),
        is_sorted(keys@, b@),
        forall|i: int| 0 <= i < a@.len() ==> (#[trigger] a@[i]) < mid,
        forall|i: int| 0 <= i < b@.len() ==> mid <= (#[trigger] b@[i]) < keys@.len(),
        mid <= keys@.len(),
        a@.len() + b@.len() <= usize::MAX,
    ensures
        r@.len() == a@.len() + b@.len(),
        is_sorted(keys@, r@),
        forall|i: int| 0 <= i < r@.len() ==> a@.contains(#[trigger] r@[i]) || b@.contains(r@[i]),
{
    let mut r: Vec<usize> = Vec::new();
    let mut i: usize = 0;
    let mut j: usize = 0;
    while i < a.len() || j < b.len()
        invariant
            i <= a.len(),
            j <= b.len(),
            a@.len() + b@.len() <= usize::MAX,
            mid <= keys@.len(),
            is_sorted(keys@, a@),
            is_sorted(keys@, b@),
            forall|k: int| 0 <= k < a@.len() ==> (#[trigger] a@[k]) < mid,
            forall|k: int| 0 <= k < b@.len() ==> mid <= (#[trigger] b@[k]) < keys@.len(),
            r@.len() == i + j,
            is_sorted(keys@, r@),
            forall|k: int|
                0 <= k < r@.len() ==> a@.contains(#[trigger] r@[k]) || b@.contains(r@[k]),
            forall|k: int, x: int|
                0 <= k < r@.len() && i <= x < a@.len() ==> before(
                    keys@,
                    #[trigger] r@[k],
                    #[trigger] a@[x],
                ),
            forall|k: int, x: int|
                0 <= k < r@.len() && j <= x < b@.len() ==> before(
                    keys@,
                    #[trigger] r@[k],
                    #[trigger] b@[x],
                ),
        decreases a.len() - i + b.len() - j,
    {
        let ghost old_r = r@;
        let first = j >= b.len() || (i < a.len() && keys[a[i]] <= keys[b[j]]);
        if first {
            r.push(a[i]);
            i += 1;
            proof {
                assert(a@.contains(a@[i - 1]));
                assert forall|k: int, x: int| 0 <= k < r@.len() && j <= x < b@.len() implies before(
                    keys@,
                    #[trigger] r@[k],
                    #[trigger] b@[x],
                ) by {
                    if k == old_r.len() {
                        if x > j {
                            assert(before(keys@, b@[j as int], b@[x]));
                        }
                        assert(a@[i - 1] < mid <= b@[x]);
                    } else {
                        assert(r@[k] == old_r[k]);
                    }
                }
                assert forall|k: int, x: int| 0 <= k < r@.len() && i <= x < a@.len() implies before(
                    keys@,
                    #[trigger] r@[k],
                    #[trigger] a@[x],
                ) by {
                    if k == old_r.len() {
                        assert(before(keys@, a@[i - 1], a@[x]));
                    } else {
                        assert(r@[k] == old_r[k]);
                    }
                }
            }
        } else {
            r.push(b[j]);
            j += 1;
            proof {
                assert(b@.contains(b@[j - 1]));
                assert forall|k: int, x: int| 0 <= k < r@.len() && i <= x < a@.len() implies before(
                    keys@,
                    #[trigger] r@[k],
                    #[trigger] a@[x],
                ) by {
                    if k == old_r.len() {
                        if x > i {
                            assert(before(keys@, a@[i as int], a@[x]));
                        }
                    } else {
                        assert(r@[k] == old_r[k]);
                    }
                }
                assert forall|k: int, x: int| 0 <= k < r@.len() && j <= x < b@.len() implies before(
                    keys@,
                    #[trigger] r@[k],
                    #[trigger] b@[x],
                ) by {
                    if k == old_r.len() {
                        assert(before(keys@, b@[j - 1], b@[x]));
                    } else {
                        assert(r@[k] == old_r[k]);
                    }
                }
            }
        }
        assert forall|k: int| 0 <= k < r@.len() implies a@.contains(#[trigger] r@[k])
            || b@.contains(r@[k]) by {
            if k < old_r.len() {
                assert(r@[k] == old_r[k]);
            }
        }
        assert(is_sorted(keys@, r@)) by {
            assert forall|x: int, y: int| 0 <= x < y < r@.len() implies before(
                keys@,
                #[trigger] r@[x],
                #[trigger] r@[y],
            ) by {
                assert(r@[x] == old_r[x]);
                if y < old_r.len() {
                    assert(r@[y] == old_r[y]);
                }
            }
        }
    }
    r
}

/// The places from `low` up to `high` in the stable order of their keys.
fn order_within(keys: &[i128], low: usize, high: usize) -> (r: Vec<usize>)
    requires
        low <= high <= keys@.len(),
    ensures
        r@.len() == high - low,
        is_sorted(keys@, r@),
        forall|i: int| 0 <= i < r@.len() ==> low <= (#[trigger] r@[i]) < high,
    decreases high - low,
{
    if high - low <= 1 {
        let mut r: Vec<usize> = Vec::new();
        if low < high {
            r.push(low);
        }
        return r;
    }
    let mid: usize = low + (high - low) / 2;
    let a = order_within(keys, low, mid);
    let b = order_within(keys, mid, high);
    let total: usize = keys.len();
    assert(a@.len() + b@.len() <= total);
    let r = merge(keys, &a, &b, Ghost(mid as int));
    proof {
        assert forall|i: int| 0 <= i < r@.len() implies low <= (#[trigger] r@[i]) < high by {
            if a@.contains(r@[i]) {
                let k = choose|k: int| 0 <= k < a@.len() && a@[k] == r@[i];
            } else {
                let k = choose|k: int| 0 <= k < b@.len() && b@[k] == r@[i];
            }
        }
    }
    r
}

/// The places of all elements in the stable order of their keys.
pub fn stable_order(keys: &[i128]) -> (p: Vec<usize>)
    ensures
        is_order(keys@, p@),
{
    order_within(keys, 0, keys.len())
}

/// In a stable order keys ascend, and of two equal keys the one that was first stays
/// first.
pub proof fn law_order_is_stable(keys: Seq<i128>, p: Seq<usize>, i: int, j: int)
    requires
        is_order(keys, p),
        0 <= i < j < p.len(),
    ensures
        keys[p[i] as int] <= keys[p[j] as int],
        keys[p[i] as int] == keys[p[j] as int] ==> p[i] < p[j],
        p.len() == keys.len() && p[i] < keys.len() && p[j] < keys.len(),
{
    assert(before(keys, p[i], p[j]));
}

/// There are no more different places than there are places.
pub proof fn law_places_are_few(places: Seq<usize>, n: int)
    requires
        forall|i: int| 0 <= i < places.len() ==> (#[trigger] places[i]) < n,
        forall|i: int, j: int|
            0 <= i < j < places.len() ==> #[trigger] places[i] != #[trigger] places[j],
        0 <= n,
    ensures
        places.len() <= n,
{
    let ints = places.map_values(|x: usize| x as int);
    let all = vstd::set_lib::set_int_range(0, n);
    vstd::set_lib::lemma_int_range(0, n);
    assert(ints.no_duplicates()) by {
        assert forall|i: int, j: int| 0 <= i < ints.len() && 0 <= j < ints.len() && i != j implies
            ints[i] != ints[j] by {
            if i < j {
                assert(places[i] != places[j]);
            } else {
                assert(places[j] != places[i]);
            }
        }
    }
    ints.unique_seq_to_set();
    assert(ints.to_set().subset_of(all)) by {
        assert forall|x: int| ints.to_set().contains(x) implies all.contains(x) by {
            let i = choose|i: int| 0 <= i < ints.len() && ints[i] == x;
            assert(places[i] < n);
        }
    }
    vstd::set_lib::lemma_len_subset(ints.to_set(), all);
}

} // verus!
