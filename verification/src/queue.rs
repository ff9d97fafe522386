//! The download queue: the selected models sorted by size in ascending
//! order (unknown sizes last, ties broken by file name, otherwise in the
//! order of selection). The download worker takes models from the end of
//! this list, so the largest known size is fetched first and models of
//! unknown size before all others.

use vstd::prelude::*;
use crate::cache::SizeCache;
use crate::model::Model;
use crate::text::{chars_lt, chars_of, lemma_text_lt_irreflexive, lemma_text_lt_total, lemma_text_lt_transitive, text_lt};

verus! {

/// The size remembered for a URL, or 0.
pub open spec fn remembered(cache: Map<Seq<char>, u64>, url: Seq<char>) -> u64 {
    match cache.get(url) {
        Some(s) => s,
        None => 0,
    }
}

/// Sorting size of a model: its catalogue size when known, else the size
/// remembered for its URL, with an unknown size (0) counted as the largest.
pub open spec fn sort_size(m: Model, cache: Map<Seq<char>, u64>) -> u64 {
    let s = if m.size_bytes > 0 {
        m.size_bytes
    } else {
        remembered(cache, m.url@)
    };
    if s == 0 {
        u64::MAX
    } else {
        s
    }
}

/// Queue size of a model: the larger of its catalogue size and the size
/// remembered for its URL, with an unknown size (0) counted as the largest.
pub open spec fn queue_size(m: Model, cache: Map<Seq<char>, u64>) -> u64 {
    let c = remembered(cache, m.url@);
    let l = if m.size_bytes >= c {
        m.size_bytes
    } else {
        c
    };
    if l == 0 {
        u64::MAX
    } else {
        l
    }
}

/// The sorting size of a model (`sort_size`).
pub fn model_sort_size(model: &Model, cache: &SizeCache) -> (r: u64)
    ensures
        r == sort_size(*model, cache.sizes@),
{
    let s = if model.size_bytes > 0 {
        model.size_bytes
    } else {
        match cache.get_size(model.url.as_str()) {
            Some(c) => c,
            None => 0,
        }
    };
    if s == 0 {
        u64::MAX
    } else {
        s
    }
}

/// The queue size of a model (`queue_size`).
pub fn queue_size_key(model: &Model, cache: &SizeCache) -> (r: u64)
    ensures
        r == queue_size(*model, cache.sizes@),
{
    let c = match cache.get_size(model.url.as_str()) {
        Some(c) => c,
        None => 0,
    };
    let l = if model.size_bytes >= c {
        model.size_bytes
    } else {
        c
    };
    if l == 0 {
        u64::MAX
    } else {
        l
    }
}

/// Whether the item at position `p` goes before the one at position `q`:
/// smaller queue size first, then file name, then selection order.
pub open spec fn queue_before(
    items: Seq<(usize, Model)>,
    cache: Map<Seq<char>, u64>,
    p: int,
    q: int,
) -> bool {
    let kp = queue_size(items[p].1, cache);
    let kq = queue_size(items[q].1, cache);
    let np = items[p].1.filename@;
    let nq = items[q].1.filename@;
    ||| kp < kq
    ||| (kp == kq && text_lt(np, nq))
    ||| (kp == kq && np == nq && p < q)
}

/// `perm` lists each position below `n` exactly once.
pub open spec fn is_permutation(perm: Seq<int>, n: nat) -> bool {
    &&& perm.len() == n
    &&& forall|i: int| 0 <= i < n ==> 0 <= #[trigger] perm[i] < n
    &&& forall|i: int, j: int| 0 <= i < j < n ==> perm[i] != perm[j]
}

/// `out` holds the items of `items` rearranged by `perm` into queue order.
pub open spec fn queue_arrangement(
    items: Seq<(usize, Model)>,
    cache: Map<Seq<char>, u64>,
    out: Seq<(usize, Model)>,
    perm: Seq<int>,
) -> bool {
    &&& is_permutation(perm, items.len())
    &&& out.len() == items.len()
    &&& forall|i: int| 0 <= i < out.len() ==> out[i] == items[#[trigger] perm[i]]
    &&& forall|i: int, j: int|
        0 <= i < j < out.len() ==> queue_before(items, cache, #[trigger] perm[i], #[trigger] perm[j])
}

/// `out` is `items` in queue order (a stable sort by queue size, then file
/// name).
pub open spec fn in_queue_order(
    items: Seq<(usize, Model)>,
    cache: Map<Seq<char>, u64>,
    out: Seq<(usize, Model)>,
) -> bool {
    exists|perm: Seq<int>| queue_arrangement(items, cache, out, perm)
}

proof fn lemma_queue_before_total(items: Seq<(usize, Model)>, cache: Map<Seq<char>, u64>, p: int, q: int)
    requires
        p != q,
    ensures
        queue_before(items, cache, p, q) || queue_before(items, cache, q, p),
        !(queue_before(items, cache, p, q) && queue_before(items, cache, q, p)),
{
    lemma_text_lt_total(items[p].1.filename@, items[q].1.filename@);
    if text_lt(items[p].1.filename@, items[q].1.filename@) && text_lt(items[q].1.filename@, items[p].1.filename@) {
        lemma_text_lt_transitive(items[p].1.filename@, items[q].1.filename@, items[p].1.filename@);
        lemma_text_lt_irreflexive(items[p].1.filename@);
    }
    lemma_text_lt_irreflexive(items[p].1.filename@);
}

proof fn lemma_queue_before_transitive(
    items: Seq<(usize, Model)>,
    cache: Map<Seq<char>, u64>,
    p: int,
    q: int,
    r: int,
)
    requires
        queue_before(items, cache, p, q),
        queue_before(items, cache, q, r),
    ensures
        queue_before(items, cache, p, r),
{
    let np = items[p].1.filename@;
    let nq = items[q].1.filename@;
    let nr = items[r].1.filename@;
    if text_lt(np, nq) && text_lt(nq, nr) {
        lemma_text_lt_transitive(np, nq, nr);
    }
}

/// Rank comparison of two positions given precomputed sizes and names.
fn rank_before(keys: &Vec<u64>, names: &Vec<Vec<char>>, p: usize, q: usize) -> (r: bool)
    requires
        p < keys.len(),
        q < keys.len(),
        keys.len() == names.len(),
    ensures
        r == (keys@[p as int] < keys@[q as int] || (keys@[p as int] == keys@[q as int] && text_lt(
            names@[p as int]@,
            names@[q as int]@,
        )) || (keys@[p as int] == keys@[q as int] && names@[p as int]@ == names@[q as int]@ && p
            < q)),
{
    if keys[p] < keys[q] {
        return true;
    }
    if keys[p] > keys[q] {
        return false;
    }
    if chars_lt(&names[p], &names[q]) {
        return true;
    }
    if chars_lt(&names[q], &names[p]) {
        proof {
            lemma_text_lt_irreflexive(names@[p as int]@);
            if names@[p as int]@ == names@[q as int]@ {
                assert(false);
            }
        }
        return false;
    }
    proof {
        lemma_text_lt_total(names@[p as int]@, names@[q as int]@);
    }
    p < q
}

/// Sorts the selected models into the download queue (`in_queue_order`):
/// ascending by queue size, unknown sizes last, equal sizes by file name,
/// and otherwise in the order given. The worker takes models from the end
/// of the result.
pub fn sort_by_size(selected: Vec<(usize, Model)>, cache: &SizeCache) -> (r: Vec<(usize, Model)>)
    ensures
        in_queue_order(selected@, cache.sizes@, r@),
{
    let n = selected.len();
    let ghost items = selected@;
    let ghost c = cache.sizes@;
    let mut keys: Vec<u64> = Vec::new();
    let mut names: Vec<Vec<char>> = Vec::new();
    let mut i: usize = 0;
    while i < n
        invariant
            n == selected.len(),
            items == selected@,
            c == cache.sizes@,
            i <= n,
            keys.len() == i,
            names.len() == i,
            forall|k: int| 0 <= k < i ==> keys@[k] == queue_size(#[trigger] items[k].1, c),
            forall|k: int| 0 <= k < i ==> (#[trigger] names@[k])@ == items[k].1.filename@,
        decreases n - i,
    {
        keys.push(queue_size_key(&selected[i].1, cache));
        names.push(chars_of(selected[i].1.filename.as_str()));
        i = i + 1;
    }
    let mut order: Vec<usize> = Vec::new();
    let mut i: usize = 0;
    while i < n
        invariant
            n == selected.len(),
            items == selected@,
            c == cache.sizes@,
            i <= n,
            keys.len() == n,
            names.len() == n,
            forall|k: int| 0 <= k < n ==> keys@[k] == queue_size(#[trigger] items[k].1, c),
            forall|k: int| 0 <= k < n ==> (#[trigger] names@[k])@ == items[k].1.filename@,
            order.len() == i,
            forall|a: int| 0 <= a < i ==> #[trigger] order@[a] < i,
            forall|k: usize| k < i ==> #[trigger] order@.contains(k),
            forall|a: int, b: int|
                0 <= a < b < i ==> queue_before(items, c, #[trigger] order@[a] as int, #[trigger] order@[b] as int),
        decreases n - i,
    {
        let mut j: usize = 0;
        while j < order.len() && rank_before(&keys, &names, order[j], i)
            invariant
                n == selected.len(),
                items == selected@,
                c == cache.sizes@,
                i < n,
                keys.len() == n,
                names.len() == n,
                forall|k: int| 0 <= k < n ==> keys@[k] == queue_size(#[trigger] items[k].1, c),
                forall|k: int| 0 <= k < n ==> (#[trigger] names@[k])@ == items[k].1.filename@,
                order.len() == i,
                forall|a: int| 0 <= a < i ==> #[trigger] order@[a] < i,
                j <= order.len(),
                forall|a: int| 0 <= a < j ==> queue_before(items, c, #[trigger] order@[a] as int, i as int),
            decreases order.len() - j,
        {
            j = j + 1;
        }
        let ghost before = order@;
        proof {
            if j < order.len() {
                lemma_queue_before_total(items, c, before[j as int] as int, i as int);
            }
        }
        order.insert(j, i);
        proof {
            assert(order@ == before.insert(j as int, i));
            assert forall|a: int, b: int| 0 <= a < b < i + 1 implies queue_before(
                items,
                c,
                #[trigger] order@[a] as int,
                #[trigger] order@[b] as int,
            ) by {
                if b < j {
                    assert(order@[a] == before[a] && order@[b] == before[b]);
                } else if b == j {
                    assert(order@[a] == before[a]);
                } else if a == j {
                    assert(order@[b] == before[b - 1]);
                    if b - 1 > j {
                        lemma_queue_before_transitive(items, c, i as int, before[j as int] as int, before[b - 1] as int);
                    }
                } else if a < j {
                    assert(order@[a] == before[a] && order@[b] == before[b - 1]);
                } else {
                    assert(order@[a] == before[a - 1] && order@[b] == before[b - 1]);
                }
            }
            assert forall|k: usize| k < i + 1 implies #[trigger] order@.contains(k) by {
                if k == i {
                    assert(order@[j as int] == i);
                } else {
                    assert(before.contains(k));
                    let a = choose|a: int| 0 <= a < before.len() && before[a] == k;
                    if a < j {
                        assert(order@[a] == k);
                    } else {
                        assert(order@[a + 1] == k);
                    }
                }
            }
            assert forall|a: int| 0 <= a < i + 1 implies #[trigger] order@[a] < i + 1 by {
                if a < j {
                    assert(order@[a] == before[a]);
                } else if a > j {
                    assert(order@[a] == before[a - 1]);
                }
            }
        }
        i = i + 1;
    }
    let mut out: Vec<(usize, Model)> = Vec::new();
    let mut k: usize = 0;
    while k < n
        invariant
            n == selected.len(),
            items == selected@,
            order.len() == n,
            forall|a: int| 0 <= a < n ==> #[trigger] order@[a] < n,
            k <= n,
            out.len() == k,
            forall|a: int| 0 <= a < k ==> out@[a] == items[#[trigger] order@[a] as int],
        decreases n - k,
    {
        let p = order[k];
        let entry = (selected[p].0, selected[p].1.clone());
        out.push(entry);
        k = k + 1;
    }
    proof {
        let perm = order@.map_values(|x: usize| x as int);
        assert forall|a: int, b: int| 0 <= a < b < n implies perm[a] != perm[b] by {
            assert(queue_before(items, c, order@[a] as int, order@[b] as int));
            lemma_text_lt_irreflexive(items[perm[a]].1.filename@);
        }
        assert(queue_arrangement(items, c, out@, perm));
    }
    out
}

/// Along the queue the queue size never decreases.
pub proof fn lemma_queue_sizes_nondecreasing(
    items: Seq<(usize, Model)>,
    cache: Map<Seq<char>, u64>,
    out: Seq<(usize, Model)>,
    i: int,
    j: int,
)
    requires
        in_queue_order(items, cache, out),
        0 <= i < j < out.len(),
    ensures
        queue_size(out[i].1, cache) <= queue_size(out[j].1, cache),
{
    let perm = choose|perm: Seq<int>| queue_arrangement(items, cache, out, perm);
    assert(queue_before(items, cache, perm[i], perm[j]));
}

} // verus!
