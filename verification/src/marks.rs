//! Marked messages: entry indices with their labels, live in a hash map and
//! saved in an ordered one.

use std::collections::{BTreeMap, HashMap};

use vstd::prelude::*;
use crate::text;

verus! {

broadcast use {
    vstd::std_specs::hash::group_hash_axioms,
    vstd::std_specs::btree::group_btree_axioms,
};

/// The labels of marks.
pub open spec fn labels(m: Map<usize, String>) -> Map<usize, Seq<char>> {
    m.map_values(|s: String| s@)
}

/// The marks of entries below `limit`.
pub open spec fn below(m: Map<usize, Seq<char>>, limit: int) -> Map<usize, Seq<char>> {
    m.restrict(Set::new(|i: usize| i < limit))
}

/// The marks in an ordered map.
pub fn ordered(m: &HashMap<usize, String>) -> (r: BTreeMap<usize, String>)
    ensures
        labels(r@) == labels(m@),
{
    let mut r: BTreeMap<usize, String> = BTreeMap::new();
    let ghost mut done: Seq<usize> = seq![];
    let ghost all = vstd::std_specs::iter::IteratorSpec::remaining(
        &vstd::std_specs::hash::spec_hash_map_iter(m),
    );
    for (k, v) in it: m.iter()
        invariant
            it.seq() == all,
            done.len() == it.index(),
            forall|i: int| 0 <= i < done.len() ==> done[i] == *(#[trigger] all[i]).0,
            forall|i: int|
                0 <= i < all.len() ==> m@.contains_key(*(#[trigger] all[i]).0) && m@[*all[i].0]
                    == *all[i].1,
            forall|x: usize| #[trigger] r@.contains_key(x) <==> done.contains(x),
            forall|x: usize| #[trigger]
                r@.contains_key(x) ==> m@.contains_key(x) && r@[x]@ == m@[x]@,
    {
        r.insert(*k, v.clone());
        proof {
            lemma_seen(done, *k);
            done = done.push(*k);
        }
    }
    assert(labels(r@) =~= labels(m@)) by {
        assert forall|x: usize| m@.contains_key(x) implies r@.contains_key(x) by {
            assert(all.contains((&x, &m@[x])));
            let i = choose|i: int| 0 <= i < all.len() && all[i] == (&x, &m@[x]);
            assert(done[i] == x);
        }
    }
    r
}

/// Adding one key to the keys seen so far.
pub proof fn lemma_seen(done: Seq<usize>, k: usize)
    ensures
        forall|x: usize| #[trigger] done.push(k).contains(x) <==> done.contains(x) || x == k,
{
    let now = done.push(k);
    assert forall|x: usize| #[trigger] now.contains(x) <==> done.contains(x) || x == k by {
        if done.contains(x) {
            let i = choose|i: int| 0 <= i < done.len() && done[i] == x;
            assert(now[i] == x);
        }
        if now.contains(x) && x != k {
            let i = choose|i: int| 0 <= i < now.len() && now[i] == x;
            assert(done[i] == x);
        }
        assert(now[now.len() - 1] == k);
    }
}

/// The saved marks of entries below `limit`, in a hash map.
pub fn restored(m: &BTreeMap<usize, String>, limit: usize) -> (r: HashMap<usize, String>)
    ensures
        labels(r@) == below(labels(m@), limit as int),
{
    let mut r: HashMap<usize, String> = HashMap::new();
    let ghost mut done: Seq<usize> = seq![];
    let ghost all = vstd::std_specs::iter::IteratorSpec::remaining(
        &vstd::std_specs::btree::spec_btree_map_iter(m),
    );
    for (k, v) in it: m.iter()
        invariant
            it.seq() == all,
            done.len() == it.index(),
            forall|i: int| 0 <= i < done.len() ==> done[i] == *(#[trigger] all[i]).0,
            forall|i: int|
                0 <= i < all.len() ==> m@.contains_key(*(#[trigger] all[i]).0) && m@[*all[i].0]
                    == *all[i].1,
            forall|x: usize| #[trigger]
                r@.contains_key(x) <==> done.contains(x) && x < limit,
            forall|x: usize| #[trigger]
                r@.contains_key(x) ==> m@.contains_key(x) && r@[x]@ == m@[x]@,
    {
        proof {
            lemma_seen(done, *k);
            done = done.push(*k);
        }
        if *k < limit {
            r.insert(*k, v.clone());
        }
    }
    assert(labels(r@) =~= below(labels(m@), limit as int)) by {
        assert forall|x: usize| m@.contains_key(x) && x < limit implies r@.contains_key(x) by {
            assert(all.contains((&x, &m@[x])));
            let i = choose|i: int| 0 <= i < all.len() && all[i] == (&x, &m@[x]);
            assert(done[i] == x);
        }
    }
    r
}

/// Whether every mark of `a` is in `b` with the same label.
fn all_in(a: &BTreeMap<usize, String>, b: &BTreeMap<usize, String>) -> (r: bool)
    ensures
        r <==> forall|x: usize| #[trigger]
            labels(a@).contains_key(x) ==> labels(b@).contains_key(x) && labels(a@)[x] == labels(
                b@,
            )[x],
{
    let ghost mut done: Seq<usize> = seq![];
    let ghost all = vstd::std_specs::iter::IteratorSpec::remaining(
        &vstd::std_specs::btree::spec_btree_map_iter(a),
    );
    for (k, v) in it: a.iter()
        invariant
            it.seq() == all,
            done.len() == it.index(),
            forall|i: int| 0 <= i < done.len() ==> done[i] == *(#[trigger] all[i]).0,
            forall|i: int|
                0 <= i < all.len() ==> a@.contains_key(*(#[trigger] all[i]).0) && a@[*all[i].0]
                    == *all[i].1,
            forall|x: usize| #[trigger]
                done.contains(x) ==> labels(b@).contains_key(x) && labels(a@)[x] == labels(b@)[x],
    {
        proof {
            lemma_seen(done, *k);
            done = done.push(*k);
            assert(labels(a@).contains_key(*k));
        }
        match b.get(k) {
            Some(w) => {
                if !text::same_str(v.as_str(), w.as_str()) {
                    return false;
                }
                assert(labels(b@)[*k] == w@);
            },
            None => {
                assert(!labels(b@).contains_key(*k));
                return false;
            },
        }
    }
    assert forall|x: usize| #[trigger] labels(a@).contains_key(x) implies labels(b@).contains_key(x)
        && labels(a@)[x] == labels(b@)[x] by {
        assert(a@.contains_key(x));
        assert(all.contains((&x, &a@[x])));
        let i = choose|i: int| 0 <= i < all.len() && all[i] == (&x, &a@[x]);
        assert(done[i] == x);
        assert(done.contains(x));
    }
    true
}

/// Whether two sets of saved marks are the same.
pub fn same(a: &BTreeMap<usize, String>, b: &BTreeMap<usize, String>) -> (r: bool)
    ensures
        r == (labels(a@) == labels(b@)),
{
    let r = all_in(a, b) && all_in(b, a);
    proof {
        if r {
            assert(labels(a@) =~= labels(b@));
        }
    }
    r
}

/// A copy of saved marks.
pub fn copied(m: &BTreeMap<usize, String>) -> (r: BTreeMap<usize, String>)
    ensures
        labels(r@) == labels(m@),
{
    let mut r: BTreeMap<usize, String> = BTreeMap::new();
    let ghost mut done: Seq<usize> = seq![];
    let ghost all = vstd::std_specs::iter::IteratorSpec::remaining(
        &vstd::std_specs::btree::spec_btree_map_iter(m),
    );
    for (k, v) in it: m.iter()
        invariant
            it.seq() == all,
            done.len() == it.index(),
            forall|i: int| 0 <= i < done.len() ==> done[i] == *(#[trigger] all[i]).0,
            forall|i: int|
                0 <= i < all.len() ==> m@.contains_key(*(#[trigger] all[i]).0) && m@[*all[i].0]
                    == *all[i].1,
            forall|x: usize| #[trigger] r@.contains_key(x) <==> done.contains(x),
            forall|x: usize| #[trigger]
                r@.contains_key(x) ==> m@.contains_key(x) && r@[x]@ == m@[x]@,
    {
        proof {
            lemma_seen(done, *k);
            done = done.push(*k);
        }
        r.insert(*k, v.clone());
    }
    assert(labels(r@) =~= labels(m@)) by {
        assert forall|x: usize| m@.contains_key(x) implies r@.contains_key(x) by {
            assert(all.contains((&x, &m@[x])));
            let i = choose|i: int| 0 <= i < all.len() && all[i] == (&x, &m@[x]);
            assert(done[i] == x);
        }
    }
    r
}

/// Marks as a list of entry indices and labels.
pub open spec fn pairs(list: Seq<(usize, String)>) -> Seq<(usize, Seq<char>)> {
    list.map_values(|p: (usize, String)| (p.0, p.1@))
}

/// Whether entry indices ascend.
pub open spec fn keys_ascend(list: Seq<(usize, Seq<char>)>) -> bool {
    forall|i: int, j: int|
        0 <= i < j < list.len() ==> (#[trigger] list[i]).0 < (#[trigger] list[j]).0
}

/// Whether an entry index is in a list.
pub open spec fn has_key(list: Seq<(usize, Seq<char>)>, k: usize) -> bool {
    exists|i: int| 0 <= i < list.len() && (#[trigger] list[i]).0 == k
}

/// Whether a list holds exactly the given marks, in file order.
pub open spec fn lists(list: Seq<(usize, Seq<char>)>, m: Map<usize, Seq<char>>) -> bool {
    &&& keys_ascend(list)
    &&& forall|k: usize| #[trigger] m.contains_key(k) ==> has_key(list, k)
    &&& forall|i: int|
        0 <= i < list.len() ==> m.contains_key((#[trigger] list[i]).0) && m[list[i].0] == list[i].1
}

/// Put a mark into its place in a list.
fn insert_mark(list: &mut Vec<(usize, String)>, k: usize, label: String)
    requires
        keys_ascend(pairs(old(list)@)),
        !has_key(pairs(old(list)@), k),
    ensures
        keys_ascend(pairs(final(list)@)),
        exists|at: int|
            0 <= at <= old(list)@.len() && pairs(final(list)@) == #[trigger] pairs(
                old(list)@,
            ).insert(at, (k, label@)),
{
    let ghost before = pairs(list@);
    let mut i: usize = 0;
    while i < list.len() && list[i].0 < k
        invariant
            i <= list.len(),
            before == pairs(list@),
            keys_ascend(before),
            forall|a: int| 0 <= a < i ==> (#[trigger] before[a]).0 < k,
        decreases list.len() - i,
    {
        assert(before[i as int].0 == list@[i as int].0);
        i += 1;
    }
    list.insert(i, (k, label));
    proof {
        let now = pairs(list@);
        assert(now =~= before.insert(i as int, (k, label@)));
        assert forall|a: int| i <= a < before.len() implies (#[trigger] before[a]).0 > k by {
            if a > i {
                assert(before[i as int].0 < before[a].0);
            }
        }
        assert forall|a: int, b: int| 0 <= a < b < now.len() implies (#[trigger] now[a]).0 < (
        #[trigger] now[b]).0 by {
            if b < i {
                assert(now[a] == before[a] && now[b] == before[b]);
            } else if b == i {
                assert(now[a] == before[a]);
            } else if a < i {
                assert(now[a] == before[a] && now[b] == before[b - 1]);
            } else if a == i {
                assert(now[b] == before[b - 1]);
            } else {
                assert(now[a] == before[a - 1] && now[b] == before[b - 1]);
            }
        }
    }
}

/// All marks in file order.
pub fn listed(m: &HashMap<usize, String>) -> (r: Vec<(usize, String)>)
    ensures
        lists(pairs(r@), labels(m@)),
{
    let mut r: Vec<(usize, String)> = Vec::new();
    let ghost mut done: Seq<usize> = seq![];
    let ghost all = vstd::std_specs::iter::IteratorSpec::remaining(
        &vstd::std_specs::hash::spec_hash_map_iter(m),
    );
    assert(pairs(r@) =~= seq![]);
    for (k, v) in it: m.iter()
        invariant
            it.seq() == all,
            done.len() == it.index(),
            all.no_duplicates(),
            forall|i: int| 0 <= i < done.len() ==> done[i] == *(#[trigger] all[i]).0,
            forall|i: int|
                0 <= i < all.len() ==> m@.contains_key(*(#[trigger] all[i]).0) && m@[*all[i].0]
                    == *all[i].1,
            keys_ascend(pairs(r@)),
            forall|x: usize| #[trigger] has_key(pairs(r@), x) <==> done.contains(x),
            forall|i: int|
                0 <= i < pairs(r@).len() ==> labels(m@).contains_key((#[trigger] pairs(r@)[i]).0)
                    && labels(m@)[pairs(r@)[i].0] == pairs(r@)[i].1,
    {
        let ghost before = pairs(r@);
        let ghost n = done.len() as int;
        assert(all[n] == (k, v));
        assert(!done.contains(*k)) by {
            if done.contains(*k) {
                let i = choose|i: int| 0 <= i < done.len() && done[i] == *k;
                assert(*all[i].0 == *k);
                assert(*all[i].1 == m@[*k] && *all[n].1 == m@[*k]);
                assert(all[i] == all[n]);
            }
        }
        insert_mark(&mut r, *k, v.clone());
        proof {
            let now = pairs(r@);
            let x = (*k, v@);
            let at = choose|at: int|
                0 <= at <= before.len() && now == #[trigger] before.insert(at, x);
            lemma_inserted(before, at, x);
            lemma_seen(done, *k);
            done = done.push(*k);
            assert forall|i: int| 0 <= i < now.len() implies labels(m@).contains_key(
                (#[trigger] now[i]).0,
            ) && labels(m@)[now[i].0] == now[i].1 by {
                if i < at {
                    assert(now[i] == before[i]);
                } else if i > at {
                    assert(now[i] == before[i - 1]);
                }
            }
        }
    }
    assert forall|x: usize| #[trigger] labels(m@).contains_key(x) implies has_key(pairs(r@), x) by {
        assert(m@.contains_key(x));
        assert(all.contains((&x, &m@[x])));
        let i = choose|i: int| 0 <= i < all.len() && all[i] == (&x, &m@[x]);
        assert(done[i] == x);
    }
    r
}

/// Inserting a mark adds one entry index.
proof fn lemma_inserted(list: Seq<(usize, Seq<char>)>, at: int, x: (usize, Seq<char>))
    requires
        0 <= at <= list.len(),
    ensures
        forall|k: usize| #[trigger]
            has_key(list.insert(at, x), k) <==> has_key(list, k) || k == x.0,
{
    let now = list.insert(at, x);
    assert forall|k: usize| #[trigger] has_key(now, k) <==> has_key(list, k) || k == x.0 by {
        if has_key(list, k) {
            let i = choose|i: int| 0 <= i < list.len() && (#[trigger] list[i]).0 == k;
            if i < at {
                assert(now[i] == list[i]);
            } else {
                assert(now[i + 1] == list[i]);
            }
        }
        if has_key(now, k) && k != x.0 {
            let i = choose|i: int| 0 <= i < now.len() && (#[trigger] now[i]).0 == k;
            if i < at {
                assert(now[i] == list[i]);
            } else {
                assert(now[i] == list[i - 1]);
            }
        }
        assert(now[at] == x);
    }
}

/// The marks below a limit are those of entries before it, with their labels.
pub proof fn law_marks_below(m: Map<usize, Seq<char>>, limit: int, i: usize)
    ensures
        below(m, limit).contains_key(i) <==> m.contains_key(i) && i < limit,
        m.contains_key(i) && i < limit ==> below(m, limit)[i] == m[i],
{
}

} // verus!
