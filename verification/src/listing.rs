//! Lists for the operator: which records are shown, in what order, and
//! which page of them.

use crate::sorting::precedes;
use crate::sorting::rank;
use crate::sorting::rank_texts;
use crate::sorting::ranking_of;
use crate::sorting::text_ranking_of;
use vstd::prelude::*;

verus! {

/// A record that has a form in which it is shown.
pub trait Shown: Sized {
    /// The form in which the record is shown.
    type Row;

    /// The record as shown.
    spec fn row(&self) -> Self::Row;

    /// The record as shown.
    fn show(&self) -> (shown: Self::Row)
        ensures
            shown == self.row(),
    ;
}

/// The test that every record passes.
pub open spec fn any<T>() -> spec_fn(T) -> bool {
    |x: T| true
}

/// For every record of `s`, whether it passes `pick`.
pub open spec fn marks_of<T>(s: Seq<T>, pick: spec_fn(T) -> bool) -> Seq<bool> {
    Seq::new(s.len(), |i: int| pick(s[i]))
}

/// For every record of `s`, its number under `key`.
pub open spec fn keys_of<T>(s: Seq<T>, key: spec_fn(T) -> u128) -> Seq<u128> {
    Seq::new(s.len(), |i: int| key(s[i]))
}

/// For every record of `s`, its text under `text`.
pub open spec fn texts_of<T>(s: Seq<T>, text: spec_fn(T) -> String) -> Seq<String> {
    Seq::new(s.len(), |i: int| text(s[i]))
}

/// The marked positions, in rising order.
pub open spec fn picked(marks: Seq<bool>) -> Seq<usize>
    decreases marks.len(),
{
    if marks.len() == 0 {
        Seq::empty()
    } else if marks.last() {
        picked(marks.drop_last()).push((marks.len() - 1) as usize)
    } else {
        picked(marks.drop_last())
    }
}

/// The positions `at`, put in the order that `order` gives.
pub open spec fn arranged(at: Seq<usize>, order: Seq<usize>) -> Seq<usize> {
    Seq::new(order.len(), |j: int| at[order[j] as int])
}

/// The marked positions from the smallest key to the largest; among equal
/// keys the record kept first comes first.
pub open spec fn ranked(marks: Seq<bool>, keys: Seq<u128>) -> Seq<usize> {
    let at = picked(marks);
    arranged(at, ranking_of(Seq::new(at.len(), |j: int| keys[at[j] as int])))
}

/// The marked positions in the dictionary order of their texts; among
/// equal texts the record kept first comes first.
pub open spec fn ranked_by_text(marks: Seq<bool>, texts: Seq<String>) -> Seq<usize> {
    let at = picked(marks);
    arranged(at, text_ranking_of(Seq::new(at.len(), |j: int| texts[at[j] as int])))
}

/// The part of `s` that starts after `offset` elements and holds at most
/// `limit` of them.
pub open spec fn page<T>(s: Seq<T>, offset: int, limit: int) -> Seq<T> {
    let from = if offset < s.len() {
        offset
    } else {
        s.len() as int
    };
    let upto = if from + limit < s.len() {
        from + limit
    } else {
        s.len() as int
    };
    s.subrange(from, upto)
}

/// `s` from its last element to its first.
pub open spec fn reversed<T>(s: Seq<T>) -> Seq<T> {
    Seq::new(s.len(), |j: int| s[s.len() - 1 - j])
}

/// The records of `s` at the positions `at`, each as `show` shows it.
pub open spec fn shown_by<T, R>(s: Seq<T>, at: Seq<usize>, show: spec_fn(T) -> R) -> Seq<R> {
    Seq::new(at.len(), |j: int| show(s[at[j] as int]))
}

/// The records of `s` at the positions `at`, as shown.
pub open spec fn rows_at<T: Shown>(s: Seq<T>, at: Seq<usize>) -> Seq<T::Row> {
    Seq::new(at.len(), |j: int| s[at[j] as int].row())
}

/// Whether every position of `at` lies within a list of `len` records.
pub open spec fn within(at: Seq<usize>, len: int) -> bool {
    forall|j: int| 0 <= j < at.len() ==> (#[trigger] at[j]) < len
}

/// Taking one mark more appends its position if it is set.
pub proof fn lemma_picked_step(marks: Seq<bool>, i: int)
    requires
        0 <= i < marks.len(),
    ensures
        picked(marks.take(i + 1)) == (if marks[i] {
            picked(marks.take(i)).push(i as usize)
        } else {
            picked(marks.take(i))
        }),
{
    assert(marks.take(i + 1).drop_last() =~= marks.take(i));
}

/// Whether `out` holds exactly the marked positions, each once, from the
/// smallest key to the largest and among equal keys in rising order.
pub open spec fn lists_ranked(marks: Seq<bool>, keys: Seq<u128>, out: Seq<usize>) -> bool {
    &&& within(out, marks.len() as int)
    &&& forall|j: int| 0 <= j < out.len() ==> marks[(#[trigger] out[j]) as int]
    &&& forall|a: int, b: int|
        0 <= a < b < out.len() ==> precedes(keys, #[trigger] out[a] as int, #[trigger] out[b] as int)
    &&& forall|i: int| 0 <= i < marks.len() && #[trigger] marks[i] ==> out.contains(i as usize)
}

/// The marked positions, in rising order.
pub fn pick_positions(marks: &Vec<bool>) -> (at: Vec<usize>)
    ensures
        at@ == picked(marks@),
        within(at@, marks.len() as int),
        forall|j: int| 0 <= j < at.len() ==> marks[(#[trigger] at[j]) as int],
        forall|a: int, b: int| 0 <= a < b < at.len() ==> (#[trigger] at[a]) < (#[trigger] at[b]),
        forall|i: int| 0 <= i < marks.len() && #[trigger] marks[i] ==> at@.contains(i as usize),
{
    let mut at: Vec<usize> = Vec::new();
    let mut i: usize = 0;
    while i < marks.len()
        invariant
            i <= marks.len(),
            at@ == picked(marks@.take(i as int)),
            forall|j: int| 0 <= j < at.len() ==> (#[trigger] at[j]) < i && marks[at[j] as int],
            forall|a: int, b: int| 0 <= a < b < at.len() ==> (#[trigger] at[a]) < (#[trigger] at[b]),
            forall|k: int| 0 <= k < i && #[trigger] marks[k] ==> at@.contains(k as usize),
        decreases marks.len() - i,
    {
        proof {
            lemma_picked_step(marks@, i as int);
        }
        if marks[i] {
            let ghost before = at@;
            at.push(i);
            proof {
                assert forall|k: int| 0 <= k < i + 1 && #[trigger] marks[k] implies at@.contains(
                    k as usize,
                ) by {
                    if k < i {
                        assert(before.contains(k as usize));
                        let c = choose|c: int| 0 <= c < before.len() && before[c] == k as usize;
                        assert(at@[c] == k as usize);
                    } else {
                        assert(at@[before.len() as int] == k as usize);
                    }
                }
            }
        }
        i += 1;
    }
    proof {
        assert(marks@.take(marks.len() as int) =~= marks@);
    }
    at
}

/// The positions `at`, put in the order that `order` gives.
fn arrange(at: &Vec<usize>, order: &Vec<usize>, Ghost(len): Ghost<int>) -> (out: Vec<usize>)
    requires
        within(order@, at.len() as int),
        within(at@, len),
    ensures
        out@ == arranged(at@, order@),
        within(out@, len),
{
    let mut out: Vec<usize> = Vec::new();
    let mut j: usize = 0;
    while j < order.len()
        invariant
            j <= order.len(),
            within(order@, at.len() as int),
            within(at@, len),
            out.len() == j,
            forall|k: int| 0 <= k < j ==> #[trigger] out[k] == at[order[k] as int],
        decreases order.len() - j,
    {
        out.push(at[order[j]]);
        j += 1;
    }
    proof {
        assert(out@ =~= arranged(at@, order@));
    }
    out
}

/// The marked positions from the smallest key to the largest.
pub fn select_ranked(marks: &Vec<bool>, keys: &Vec<u128>) -> (out: Vec<usize>)
    requires
        marks.len() == keys.len(),
    ensures
        out@ == ranked(marks@, keys@),
        lists_ranked(marks@, keys@, out@),
{
    let at = pick_positions(marks);
    let mut own: Vec<u128> = Vec::new();
    let mut j: usize = 0;
    while j < at.len()
        invariant
            j <= at.len(),
            marks.len() == keys.len(),
            within(at@, marks.len() as int),
            own.len() == j,
            forall|k: int| 0 <= k < j ==> #[trigger] own[k] == keys[at[k] as int],
        decreases at.len() - j,
    {
        own.push(keys[at[j]]);
        j += 1;
    }
    proof {
        assert(own@ =~= Seq::new(at@.len(), |j: int| keys@[at@[j] as int]));
    }
    let order = rank(&own);
    let out = arrange(&at, &order, Ghost(marks.len() as int));
    proof {
        assert forall|a: int, b: int| 0 <= a < b < out.len() implies precedes(
            keys@,
            #[trigger] out[a] as int,
            #[trigger] out[b] as int,
        ) by {
            assert(precedes(own@, order[a] as int, order[b] as int));
            if order[a] < order[b] {
                assert(at[order[a] as int] < at[order[b] as int]);
            } else if order[b] < order[a] {
                assert(at[order[b] as int] < at[order[a] as int]);
            }
        }
        assert forall|i: int| 0 <= i < marks.len() && #[trigger] marks[i] implies out@.contains(
            i as usize,
        ) by {
            assert(at@.contains(i as usize));
            let c = choose|c: int| 0 <= c < at.len() && at[c] == i as usize;
            assert(order@.contains(c as usize));
            let j = choose|j: int| 0 <= j < order.len() && order[j] == c as usize;
            assert(out[j] == i as usize);
        }
    }
    out
}

/// The marked positions in the dictionary order of their texts.
pub fn select_by_text(marks: &Vec<bool>, texts: &Vec<String>) -> (out: Vec<usize>)
    requires
        marks.len() == texts.len(),
    ensures
        out@ == ranked_by_text(marks@, texts@),
        within(out@, marks.len() as int),
{
    let at = pick_positions(marks);
    let mut own: Vec<String> = Vec::new();
    let mut j: usize = 0;
    while j < at.len()
        invariant
            j <= at.len(),
            marks.len() == texts.len(),
            within(at@, marks.len() as int),
            own.len() == j,
            forall|k: int| 0 <= k < j ==> #[trigger] own[k] == texts[at[k] as int],
        decreases at.len() - j,
    {
        own.push(texts[at[j]].clone());
        j += 1;
    }
    proof {
        assert(own@ =~= Seq::new(at@.len(), |j: int| texts@[at@[j] as int]));
    }
    let order = rank_texts(&own);
    arrange(&at, &order, Ghost(marks.len() as int))
}

/// The part of `v` that starts after `offset` positions and holds at most
/// `limit` of them.
pub(crate) fn page_of(v: &Vec<usize>, offset: u64, limit: u64, Ghost(len): Ghost<int>) -> (out: Vec<usize>)
    requires
        within(v@, len),
    ensures
        out@ == page(v@, offset as int, limit as int),
        within(out@, len),
{
    let n = v.len();
    let from: usize = if offset < n as u64 {
        offset as usize
    } else {
        n
    };
    let upto: usize = if limit < (n - from) as u64 {
        from + limit as usize
    } else {
        n
    };
    let mut out: Vec<usize> = Vec::new();
    let mut j: usize = from;
    while j < upto
        invariant
            from <= j <= upto <= n,
            n == v.len(),
            within(v@, len),
            out.len() == j - from,
            forall|k: int| 0 <= k < j - from ==> #[trigger] out[k] == v[from + k],
        decreases upto - j,
    {
        out.push(v[j]);
        j += 1;
    }
    proof {
        assert(out@ =~= v@.subrange(from as int, upto as int));
    }
    out
}

/// `v` from its last position to its first.
pub(crate) fn reverse_of(v: &Vec<usize>, Ghost(len): Ghost<int>) -> (out: Vec<usize>)
    requires
        within(v@, len),
    ensures
        out@ == reversed(v@),
        within(out@, len),
{
    let n = v.len();
    let mut out: Vec<usize> = Vec::new();
    let mut j: usize = 0;
    while j < n
        invariant
            j <= n,
            n == v.len(),
            within(v@, len),
            out.len() == j,
            forall|k: int| 0 <= k < j ==> #[trigger] out[k] == v[n - 1 - k],
        decreases n - j,
    {
        out.push(v[n - 1 - j]);
        j += 1;
    }
    proof {
        assert(out@ =~= reversed(v@));
    }
    out
}

/// The records of `s` at the positions `at`, as shown.
pub fn show_all<T: Shown>(s: &Vec<T>, at: &Vec<usize>) -> (out: Vec<T::Row>)
    requires
        within(at@, s.len() as int),
    ensures
        out@ == rows_at(s@, at@),
{
    let mut out: Vec<T::Row> = Vec::new();
    let mut j: usize = 0;
    while j < at.len()
        invariant
            j <= at.len(),
            within(at@, s.len() as int),
            out.len() == j,
            forall|k: int| 0 <= k < j ==> #[trigger] out[k] == s[at[k] as int].row(),
        decreases at.len() - j,
    {
        out.push(s[at[j]].show());
        j += 1;
    }
    proof {
        assert(out@ =~= rows_at(s@, at@));
    }
    out
}

} // verus!
