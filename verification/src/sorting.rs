//! Ranking the positions of a list by an integer key.

use crate::text::comes_before;
use crate::text::lemma_text_antisymmetric;
use crate::text::lemma_text_reflexive;
use crate::text::lemma_text_total;
use crate::text::lemma_text_transitive;
use crate::text::text_le;
use crate::text::text_lt;
use vstd::prelude::*;

verus! {

/// Whether position `a` comes before position `b`: by the smaller key, and
/// among equal keys by the smaller position.
pub open spec fn precedes(keys: Seq<u128>, a: int, b: int) -> bool {
    keys[a] < keys[b] || (keys[a] == keys[b] && a < b)
}

/// Whether `order` lists every position of `keys` once, each before all
/// that it precedes.
pub open spec fn is_ranking(keys: Seq<u128>, order: Seq<usize>) -> bool {
    &&& order.len() == keys.len()
    &&& forall|i: int| 0 <= i < order.len() ==> (#[trigger] order[i]) < keys.len()
    &&& forall|i: int, j: int|
        0 <= i < j < order.len() ==> precedes(keys, #[trigger] order[i] as int, #[trigger] order[j] as int)
    &&& forall|m: int| 0 <= m < keys.len() ==> #[trigger] order.contains(m as usize)
}

/// The ranking of `keys`: there is exactly one.
pub open spec fn ranking_of(keys: Seq<u128>) -> Seq<usize> {
    choose|order: Seq<usize>| is_ranking(keys, order)
}

/// Two rankings of the same keys agree on their first `n` places.
proof fn lemma_ranking_prefix(keys: Seq<u128>, a: Seq<usize>, b: Seq<usize>, n: int)
    requires
        is_ranking(keys, a),
        is_ranking(keys, b),
        0 <= n <= a.len(),
    ensures
        forall|k: int| 0 <= k < n ==> a[k] == b[k],
    decreases n,
{
    if n > 0 {
        lemma_ranking_prefix(keys, a, b, n - 1);
        let i = n - 1;
        assert(b.contains(a[i] as int as usize));
        assert(a.contains(b[i] as int as usize));
        let j = choose|j: int| 0 <= j < b.len() && b[j] == a[i];
        let k = choose|k: int| 0 <= k < a.len() && a[k] == b[i];
        if j < i {
            assert(precedes(keys, a[j] as int, a[i] as int));
        } else if k < i {
            assert(precedes(keys, b[k] as int, b[i] as int));
        } else if j > i && k > i {
            assert(precedes(keys, b[i] as int, b[j] as int));
            assert(precedes(keys, a[i] as int, a[k] as int));
        }
    }
}

/// Keys have one ranking only.
pub proof fn lemma_ranking_unique(keys: Seq<u128>, order: Seq<usize>)
    requires
        is_ranking(keys, order),
    ensures
        order == ranking_of(keys),
{
    lemma_ranking_prefix(keys, order, ranking_of(keys), order.len() as int);
    assert(order =~= ranking_of(keys));
}

/// The positions of `keys` from the smallest key to the largest; equal
/// keys keep the order of their positions.
pub fn rank(keys: &Vec<u128>) -> (order: Vec<usize>)
    ensures
        is_ranking(keys@, order@),
        order@ == ranking_of(keys@),
{
    let mut order: Vec<usize> = Vec::new();
    let mut i: usize = 0;
    while i < keys.len()
        invariant
            i <= keys.len(),
            order.len() == i,
            forall|x: int| 0 <= x < order.len() ==> (#[trigger] order[x]) < i,
            forall|x: int, y: int|
                0 <= x < y < order.len() ==> precedes(
                    keys@,
                    #[trigger] order[x] as int,
                    #[trigger] order[y] as int,
                ),
            forall|m: int| 0 <= m < i ==> #[trigger] order@.contains(m as usize),
        decreases keys.len() - i,
    {
        let mut p: usize = 0;
        while p < order.len() && keys[order[p]] <= keys[i]
            invariant
                p <= order.len(),
                i < keys.len(),
                forall|x: int| 0 <= x < order.len() ==> (#[trigger] order[x]) < i,
                forall|x: int| 0 <= x < p ==> keys[(#[trigger] order[x]) as int] <= keys[i as int],
            decreases order.len() - p,
        {
            p += 1;
        }
        let ghost before = order@;
        order.insert(p, i);
        proof {
            let after = order@;
            assert forall|x: int, y: int| 0 <= x < y < after.len() implies precedes(
                keys@,
                #[trigger] after[x] as int,
                #[trigger] after[y] as int,
            ) by {
                if y < p {
                } else if y == p {
                    assert(after[x] == before[x]);
                } else if x == p {
                    assert(after[y] == before[y - 1]);
                    if y - 1 > p {
                        assert(precedes(keys@, before[p as int] as int, before[y - 1] as int));
                    }
                } else if x < p {
                    assert(after[x] == before[x] && after[y] == before[y - 1]);
                } else {
                    assert(after[x] == before[x - 1] && after[y] == before[y - 1]);
                }
            }
            assert forall|m: int| 0 <= m < i + 1 implies #[trigger] after.contains(m as usize) by {
                if m < i {
                    assert(before.contains(m as usize));
                    let x = choose|x: int| 0 <= x < before.len() && before[x] == m as usize;
                    if x < p {
                        assert(after[x] == m as usize);
                    } else {
                        assert(after[x + 1] == m as usize);
                    }
                } else {
                    assert(after[p as int] == m as usize);
                }
            }
            assert forall|x: int| 0 <= x < after.len() implies (#[trigger] after[x]) < i + 1 by {
                if x < p {
                    assert(after[x] == before[x]);
                } else if x > p {
                    assert(after[x] == before[x - 1]);
                }
            }
        }
        i += 1;
    }
    proof {
        lemma_ranking_unique(keys@, order@);
    }
    order
}

/// Whether position `a` comes before position `b`: by the text that
/// comes first in dictionary order, and among equal texts by the smaller
/// position.
pub open spec fn precedes_by_text(texts: Seq<String>, a: int, b: int) -> bool {
    text_lt(texts[a]@, texts[b]@) || (texts[a]@ == texts[b]@ && a < b)
}

/// Whether `order` lists every position of `texts` once, each before all
/// that it precedes.
pub open spec fn is_text_ranking(texts: Seq<String>, order: Seq<usize>) -> bool {
    &&& order.len() == texts.len()
    &&& forall|i: int| 0 <= i < order.len() ==> (#[trigger] order[i]) < texts.len()
    &&& forall|i: int, j: int|
        0 <= i < j < order.len() ==> precedes_by_text(
            texts,
            #[trigger] order[i] as int,
            #[trigger] order[j] as int,
        )
    &&& forall|m: int| 0 <= m < texts.len() ==> #[trigger] order.contains(m as usize)
}

/// The ranking of `texts`: there is exactly one.
pub open spec fn text_ranking_of(texts: Seq<String>) -> Seq<usize> {
    choose|order: Seq<usize>| is_text_ranking(texts, order)
}

/// Of two positions, at most one precedes the other.
proof fn lemma_text_precedes_once(texts: Seq<String>, a: int, b: int)
    requires
        precedes_by_text(texts, a, b),
    ensures
        !precedes_by_text(texts, b, a),
{
    if text_lt(texts[a]@, texts[b]@) && text_lt(texts[b]@, texts[a]@) {
        lemma_text_antisymmetric(texts[a]@, texts[b]@);
    }
}

/// Two rankings of the same texts agree on their first `n` places.
proof fn lemma_text_ranking_prefix(texts: Seq<String>, a: Seq<usize>, b: Seq<usize>, n: int)
    requires
        is_text_ranking(texts, a),
        is_text_ranking(texts, b),
        0 <= n <= a.len(),
    ensures
        forall|k: int| 0 <= k < n ==> a[k] == b[k],
    decreases n,
{
    if n > 0 {
        lemma_text_ranking_prefix(texts, a, b, n - 1);
        let i = n - 1;
        assert(b.contains(a[i] as int as usize));
        assert(a.contains(b[i] as int as usize));
        let j = choose|j: int| 0 <= j < b.len() && b[j] == a[i];
        let k = choose|k: int| 0 <= k < a.len() && a[k] == b[i];
        if j < i {
            assert(precedes_by_text(texts, a[j] as int, a[i] as int));
        } else if k < i {
            assert(precedes_by_text(texts, b[k] as int, b[i] as int));
        } else if j > i && k > i {
            assert(precedes_by_text(texts, b[i] as int, b[j] as int));
            assert(precedes_by_text(texts, a[i] as int, a[k] as int));
            lemma_text_precedes_once(texts, a[i] as int, b[i] as int);
        }
    }
}

/// Texts have one ranking only.
pub proof fn lemma_text_ranking_unique(texts: Seq<String>, order: Seq<usize>)
    requires
        is_text_ranking(texts, order),
    ensures
        order == text_ranking_of(texts),
{
    lemma_text_ranking_prefix(texts, order, text_ranking_of(texts), order.len() as int);
    assert(order =~= text_ranking_of(texts));
}

/// The positions of `texts` in dictionary order; equal texts keep the
/// order of their positions.
pub fn rank_texts(texts: &Vec<String>) -> (order: Vec<usize>)
    ensures
        is_text_ranking(texts@, order@),
        order@ == text_ranking_of(texts@),
{
    let mut order: Vec<usize> = Vec::new();
    let mut i: usize = 0;
    while i < texts.len()
        invariant
            i <= texts.len(),
            order.len() == i,
            forall|x: int| 0 <= x < order.len() ==> (#[trigger] order[x]) < i,
            forall|x: int, y: int|
                0 <= x < y < order.len() ==> precedes_by_text(
                    texts@,
                    #[trigger] order[x] as int,
                    #[trigger] order[y] as int,
                ),
            forall|m: int| 0 <= m < i ==> #[trigger] order@.contains(m as usize),
        decreases texts.len() - i,
    {
        let mut p: usize = 0;
        while p < order.len() && comes_before(texts[order[p]].as_str(), texts[i].as_str())
            invariant
                p <= order.len(),
                i < texts.len(),
                forall|x: int| 0 <= x < order.len() ==> (#[trigger] order[x]) < i,
                forall|x: int|
                    0 <= x < p ==> text_le(texts[(#[trigger] order[x]) as int]@, texts[i as int]@),
            decreases order.len() - p,
        {
            p += 1;
        }
        let ghost before = order@;
        order.insert(p, i);
        proof {
            let after = order@;
            let t = texts@;
            assert forall|x: int, y: int| 0 <= x < y < after.len() implies precedes_by_text(
                t,
                #[trigger] after[x] as int,
                #[trigger] after[y] as int,
            ) by {
                if y < p {
                } else if y == p {
                    assert(after[x] == before[x]);
                } else if x == p {
                    assert(after[y] == before[y - 1]);
                    let first = t[before[p as int] as int]@;
                    let later = t[before[y - 1] as int]@;
                    lemma_text_total(first, t[i as int]@);
                    lemma_text_reflexive(first);
                    if y - 1 > p {
                        assert(precedes_by_text(t, before[p as int] as int, before[y - 1] as int));
                    }
                    lemma_text_transitive(t[i as int]@, first, later);
                    if t[i as int]@ == later {
                        lemma_text_antisymmetric(first, later);
                    }
                } else if x < p {
                    assert(after[x] == before[x] && after[y] == before[y - 1]);
                } else {
                    assert(after[x] == before[x - 1] && after[y] == before[y - 1]);
                }
            }
            assert forall|m: int| 0 <= m < i + 1 implies #[trigger] after.contains(m as usize) by {
                if m < i {
                    assert(before.contains(m as usize));
                    let x = choose|x: int| 0 <= x < before.len() && before[x] == m as usize;
                    if x < p {
                        assert(after[x] == m as usize);
                    } else {
                        assert(after[x + 1] == m as usize);
                    }
                } else {
                    assert(after[p as int] == m as usize);
                }
            }
            assert forall|x: int| 0 <= x < after.len() implies (#[trigger] after[x]) < i + 1 by {
                if x < p {
                    assert(after[x] == before[x]);
                } else if x > p {
                    assert(after[x] == before[x - 1]);
                }
            }
        }
        i += 1;
    }
    proof {
        lemma_text_ranking_unique(texts@, order@);
    }
    order
}

} // verus!
