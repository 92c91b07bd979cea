//! What all stored records share: a text key, and for the records that carry
//! money, the order they belong to and their worth.

use vstd::prelude::*;

verus! {

/// Largest magnitude of a record's worth: the product of two 32-bit numbers.
pub const WORTH_LIMIT: i128 = 0x4000_0000_0000_0000;

/// A stored record with a primary key.
pub trait Record: Sized {
    /// The primary key.
    spec fn key(&self) -> Seq<char>;

    /// The primary key, as stored.
    fn id(&self) -> (id: &String)
        ensures
            id@ == self.key(),
    ;

    /// A copy of the record, equal to it in every field.
    fn duplicate(&self) -> (copy: Self)
        ensures
            copy == *self,
    ;
}

/// A record that belongs to an order and is worth an amount of money.
pub trait Entry: Record {
    /// The key of the order this record belongs to.
    spec fn owner(&self) -> Seq<char>;

    /// What this record adds to the sum kept for its order.
    spec fn worth(&self) -> int;

    /// The key of the order this record belongs to, as stored.
    fn owner_id(&self) -> (id: &String)
        ensures
            id@ == self.owner(),
    ;

    /// What this record adds to the sum kept for its order.
    fn amount(&self) -> (w: i128)
        ensures
            w == self.worth(),
            -WORTH_LIMIT <= w <= WORTH_LIMIT,
    ;
}

/// A copy of an optional text.
pub fn copy_text(text: &Option<String>) -> (copy: Option<String>)
    ensures
        copy == *text,
{
    match text {
        Some(t) => Some(t.clone()),
        None => None,
    }
}

/// Whether some record of `s` has the key `key`.
pub open spec fn has_key<T: Record>(s: Seq<T>, key: Seq<char>) -> bool {
    exists|i: int| 0 <= i < s.len() && (#[trigger] s[i]).key() == key
}

/// Whether no two records of `s` share a key.
pub open spec fn unique_keys<T: Record>(s: Seq<T>) -> bool {
    forall|i: int, j: int| 0 <= i < j < s.len() ==> (#[trigger] s[i]).key() != (#[trigger] s[j]).key()
}

/// What the record `x` adds to the sum kept for `owner`.
pub open spec fn share<T: Entry>(x: T, owner: Seq<char>) -> int {
    if x.owner() == owner {
        x.worth()
    } else {
        0
    }
}

/// The sum of the worth of the records of `s` that belong to `owner`.
pub open spec fn total_of<T: Entry>(s: Seq<T>, owner: Seq<char>) -> int
    decreases s.len(),
{
    if s.len() == 0 {
        0
    } else {
        total_of(s.drop_last(), owner) + share(s.last(), owner)
    }
}

/// Whether every record of `s` belongs to a record of `owners`.
pub open spec fn attached<T: Entry, O: Record>(s: Seq<T>, owners: Seq<O>) -> bool {
    forall|i: int| 0 <= i < s.len() ==> has_key(owners, (#[trigger] s[i]).owner())
}

/// Whether some record of `s` belongs to `owner`.
pub open spec fn has_entry<T: Entry>(s: Seq<T>, owner: Seq<char>) -> bool {
    exists|i: int| 0 <= i < s.len() && (#[trigger] s[i]).owner() == owner
}

/// Appending a record adds its share.
pub proof fn lemma_total_push<T: Entry>(s: Seq<T>, x: T, owner: Seq<char>)
    ensures
        total_of(s.push(x), owner) == total_of(s, owner) + share(x, owner),
{
    assert(s.push(x).drop_last() =~= s);
}

/// Replacing a record exchanges its share for the new one's.
pub proof fn lemma_total_update<T: Entry>(s: Seq<T>, i: int, x: T, owner: Seq<char>)
    requires
        0 <= i < s.len(),
    ensures
        total_of(s.update(i, x), owner) == total_of(s, owner) - share(s[i], owner) + share(
            x,
            owner,
        ),
    decreases s.len(),
{
    if i == s.len() - 1 {
        assert(s.update(i, x).drop_last() =~= s.drop_last());
    } else {
        assert(s.update(i, x).drop_last() =~= s.drop_last().update(i, x));
        lemma_total_update(s.drop_last(), i, x, owner);
    }
}

/// Removing a record takes its share away.
pub proof fn lemma_total_remove<T: Entry>(s: Seq<T>, i: int, owner: Seq<char>)
    requires
        0 <= i < s.len(),
    ensures
        total_of(s.remove(i), owner) == total_of(s, owner) - share(s[i], owner),
    decreases s.len(),
{
    if i == s.len() - 1 {
        assert(s.remove(i) =~= s.drop_last());
    } else {
        assert(s.remove(i).drop_last() =~= s.drop_last().remove(i));
        assert(s.remove(i).last() == s.last());
        lemma_total_remove(s.drop_last(), i, owner);
    }
}

/// With no record of `owner`, the sum is nothing.
pub proof fn lemma_total_absent<T: Entry>(s: Seq<T>, owner: Seq<char>)
    requires
        !has_entry(s, owner),
    ensures
        total_of(s, owner) == 0,
    decreases s.len(),
{
    if s.len() > 0 {
        assert(s.last() == s[s.len() - 1]);
        assert forall|i: int| 0 <= i < s.drop_last().len() implies (#[trigger] s.drop_last()[i]).owner()
            != owner by {
            assert(s.drop_last()[i] == s[i]);
        }
        lemma_total_absent(s.drop_last(), owner);
    }
}

/// Moving every record of `from` over to `to`, worth unchanged, adds the sum
/// of `from` to that of `to`, empties `from` and leaves every other sum.
pub proof fn lemma_total_moved<T: Entry>(
    a: Seq<T>,
    b: Seq<T>,
    from: Seq<char>,
    to: Seq<char>,
    owner: Seq<char>,
)
    requires
        a.len() == b.len(),
        forall|i: int|
            0 <= i < a.len() ==> (#[trigger] b[i]).worth() == a[i].worth() && b[i].owner() == (
            if a[i].owner() == from {
                to
            } else {
                a[i].owner()
            }),
    ensures
        total_of(b, owner) == (if from == to {
            total_of(a, owner)
        } else if owner == to {
            total_of(a, from) + total_of(a, to)
        } else if owner == from {
            0
        } else {
            total_of(a, owner)
        }),
    decreases a.len(),
{
    if a.len() > 0 {
        let n = a.len() - 1;
        assert(b.last() == b[n] && a.last() == a[n]);
        assert forall|i: int| 0 <= i < n implies (#[trigger] b.drop_last()[i]).worth()
            == a.drop_last()[i].worth() && b.drop_last()[i].owner() == (if a.drop_last()[i].owner()
            == from {
            to
        } else {
            a.drop_last()[i].owner()
        }) by {
            assert(b.drop_last()[i] == b[i] && a.drop_last()[i] == a[i]);
        }
        lemma_total_moved(a.drop_last(), b.drop_last(), from, to, owner);
    }
}

/// Moving every record of `from` over to `to` gives `to` as many records
/// as the two had together.
pub proof fn lemma_entries_moved<T: Entry>(a: Seq<T>, b: Seq<T>, from: Seq<char>, to: Seq<char>)
    requires
        a.len() == b.len(),
        from != to,
        forall|i: int|
            0 <= i < a.len() ==> (#[trigger] b[i]).owner() == (if a[i].owner() == from {
                to
            } else {
                a[i].owner()
            }),
    ensures
        entries_of(b, to).len() == entries_of(a, from).len() + entries_of(a, to).len(),
        entries_of(b, from).len() == 0,
    decreases a.len(),
{
    reveal(Seq::filter);
    if a.len() > 0 {
        let n = a.len() - 1;
        assert(b.last() == b[n] && a.last() == a[n]);
        assert forall|i: int| 0 <= i < n implies (#[trigger] b.drop_last()[i]).owner() == (
        if a.drop_last()[i].owner() == from {
            to
        } else {
            a.drop_last()[i].owner()
        }) by {
            assert(b.drop_last()[i] == b[i] && a.drop_last()[i] == a[i]);
        }
        lemma_entries_moved(a.drop_last(), b.drop_last(), from, to);
    }
}

/// Dropping records that do not belong to `owner` leaves its sum.
pub proof fn lemma_total_filter<T: Entry>(s: Seq<T>, keep: spec_fn(T) -> bool, owner: Seq<char>)
    requires
        forall|i: int| 0 <= i < s.len() && (#[trigger] s[i]).owner() == owner ==> keep(s[i]),
    ensures
        total_of(s.filter(keep), owner) == total_of(s, owner),
    decreases s.len(),
{
    reveal(Seq::filter);
    if s.len() > 0 {
        assert(s.last() == s[s.len() - 1]);
        assert forall|i: int|
            0 <= i < s.drop_last().len() && (#[trigger] s.drop_last()[i]).owner()
                == owner implies keep(s.drop_last()[i]) by {
            assert(s.drop_last()[i] == s[i]);
        }
        lemma_total_filter(s.drop_last(), keep, owner);
        if keep(s.last()) {
            lemma_total_push(s.drop_last().filter(keep), s.last(), owner);
        }
    }
}

/// Whether `i` is the first position in `s` of a record with key `key`.
pub open spec fn is_first<T: Record>(s: Seq<T>, key: Seq<char>, i: int) -> bool {
    &&& 0 <= i < s.len()
    &&& s[i].key() == key
    &&& forall|j: int| 0 <= j < i ==> (#[trigger] s[j]).key() != key
}

/// The first position in `s` of a record with key `key`; meaningful when
/// there is one.
pub open spec fn index_of<T: Record>(s: Seq<T>, key: Seq<char>) -> int {
    choose|i: int| is_first(s, key, i)
}

/// The record of `s` with key `key`; meaningful when there is one.
pub open spec fn record_of<T: Record>(s: Seq<T>, key: Seq<char>) -> T {
    s[index_of(s, key)]
}

/// A first position is the first position.
pub proof fn lemma_index_of<T: Record>(s: Seq<T>, key: Seq<char>, i: int)
    requires
        is_first(s, key, i),
    ensures
        index_of(s, key) == i,
        has_key(s, key),
{
    let c = index_of(s, key);
    assert(is_first(s, key, c));
    if c < i {
        assert(s[c].key() == key);
    } else if i < c {
        assert(s[i].key() == key);
    }
}

/// A key that occurs has a first position.
pub proof fn lemma_first_exists<T: Record>(s: Seq<T>, key: Seq<char>)
    requires
        has_key(s, key),
    ensures
        is_first(s, key, index_of(s, key)),
{
    let i = choose|i: int| 0 <= i < s.len() && (#[trigger] s[i]).key() == key;
    lemma_first_before(s, key, i);
}

/// A key that occurs at `i` has a first position at or before `i`.
proof fn lemma_first_before<T: Record>(s: Seq<T>, key: Seq<char>, i: int)
    requires
        0 <= i < s.len(),
        s[i].key() == key,
    ensures
        is_first(s, key, index_of(s, key)),
    decreases i,
{
    if exists|j: int| 0 <= j < i && (#[trigger] s[j]).key() == key {
        let j = choose|j: int| 0 <= j < i && (#[trigger] s[j]).key() == key;
        lemma_first_before(s, key, j);
    } else {
        assert(is_first(s, key, i));
    }
}

/// Among records with distinct keys, any position of a key is its first.
pub proof fn lemma_unique_index<T: Record>(s: Seq<T>, i: int)
    requires
        unique_keys(s),
        0 <= i < s.len(),
    ensures
        index_of(s, s[i].key()) == i,
        has_key(s, s[i].key()),
{
    assert(is_first(s, s[i].key(), i));
    lemma_index_of(s, s[i].key(), i);
}

/// The test that picks the records belonging to `owner`.
pub open spec fn owned_by<T: Entry>(owner: Seq<char>) -> spec_fn(T) -> bool {
    |x: T| x.owner() == owner
}

/// The records of `s` that belong to `owner`, in the order they are kept.
pub open spec fn entries_of<T: Entry>(s: Seq<T>, owner: Seq<char>) -> Seq<T> {
    s.filter(owned_by(owner))
}

/// Filtering one record more either appends it or changes nothing.
pub proof fn lemma_filter_step<T>(s: Seq<T>, i: int, keep: spec_fn(T) -> bool)
    requires
        0 <= i < s.len(),
    ensures
        s.take(i + 1).filter(keep) == (if keep(s[i]) {
            s.take(i).filter(keep).push(s[i])
        } else {
            s.take(i).filter(keep)
        }),
{
    reveal(Seq::filter);
    assert(s.take(i + 1).drop_last() =~= s.take(i));
}

/// Every record that a filter keeps is a record of the filtered list that
/// passes the test.
pub proof fn lemma_filter_source<T>(s: Seq<T>, keep: spec_fn(T) -> bool, i: int)
    requires
        0 <= i < s.filter(keep).len(),
    ensures
        keep(s.filter(keep)[i]),
        exists|j: int| 0 <= j < s.len() && #[trigger] s[j] == s.filter(keep)[i],
    decreases s.len(),
{
    reveal(Seq::filter);
    if s.len() > 0 {
        let rest = s.drop_last().filter(keep);
        if i < rest.len() {
            lemma_filter_source(s.drop_last(), keep, i);
            let j = choose|j: int| 0 <= j < s.drop_last().len() && #[trigger] s.drop_last()[j] == rest[i];
            assert(s[j] == s.filter(keep)[i]);
        } else {
            assert(s[s.len() - 1] == s.filter(keep)[i]);
        }
    }
}

/// Every record of the filtered list that passes the test is kept.
pub proof fn lemma_filter_keeps<T>(s: Seq<T>, keep: spec_fn(T) -> bool, j: int)
    requires
        0 <= j < s.len(),
        keep(s[j]),
    ensures
        exists|i: int| 0 <= i < s.filter(keep).len() && #[trigger] s.filter(keep)[i] == s[j],
    decreases s.len(),
{
    reveal(Seq::filter);
    let rest = s.drop_last().filter(keep);
    if j < s.len() - 1 {
        lemma_filter_keeps(s.drop_last(), keep, j);
        let i = choose|i: int| 0 <= i < rest.len() && #[trigger] rest[i] == s.drop_last()[j];
        assert(s.filter(keep)[i] == s[j]);
    } else {
        assert(s.filter(keep)[rest.len() as int] == s[j]);
    }
}

/// A filter keeps the order: two kept records stand in the filtered list in
/// the order in which they stand in the result.
pub proof fn lemma_filter_order<T>(s: Seq<T>, keep: spec_fn(T) -> bool, i: int, j: int)
    requires
        0 <= i < j < s.filter(keep).len(),
    ensures
        exists|a: int, b: int|
            0 <= a < b < s.len() && #[trigger] s[a] == s.filter(keep)[i] && #[trigger] s[b]
                == s.filter(keep)[j],
    decreases s.len(),
{
    reveal(Seq::filter);
    if s.len() > 0 {
        let rest = s.drop_last().filter(keep);
        if j < rest.len() {
            lemma_filter_order(s.drop_last(), keep, i, j);
            let (a, b) = choose|a: int, b: int|
                0 <= a < b < s.drop_last().len() && #[trigger] s.drop_last()[a] == rest[i]
                    && #[trigger] s.drop_last()[b] == rest[j];
            assert(s[a] == s.filter(keep)[i] && s[b] == s.filter(keep)[j]);
        } else {
            lemma_filter_source(s.drop_last(), keep, i);
            let a = choose|a: int| 0 <= a < s.drop_last().len() && #[trigger] s.drop_last()[a] == rest[i];
            let b = s.len() - 1;
            assert(s[a] == s.filter(keep)[i] && s[b] == s.filter(keep)[j]);
        }
    }
}

/// A filter that every record passes changes nothing.
pub proof fn lemma_filter_all<T>(s: Seq<T>, keep: spec_fn(T) -> bool)
    requires
        forall|i: int| 0 <= i < s.len() ==> keep(#[trigger] s[i]),
    ensures
        s.filter(keep) == s,
    decreases s.len(),
{
    reveal(Seq::filter);
    if s.len() > 0 {
        assert forall|i: int| 0 <= i < s.drop_last().len() implies keep(
            #[trigger] s.drop_last()[i],
        ) by {
            assert(s.drop_last()[i] == s[i]);
        }
        lemma_filter_all(s.drop_last(), keep);
        assert(keep(s[s.len() - 1]));
        assert(s.drop_last().push(s.last()) =~= s);
    } else {
        assert(s.filter(keep) =~= s);
    }
}

/// Two sequences that differ only in records that fail the test filter to
/// the same.
pub proof fn lemma_filter_agree<T>(a: Seq<T>, b: Seq<T>, keep: spec_fn(T) -> bool)
    requires
        a.len() == b.len(),
        forall|i: int| 0 <= i < a.len() ==> keep(#[trigger] a[i]) == keep(b[i]),
        forall|i: int| 0 <= i < a.len() && keep(#[trigger] a[i]) ==> a[i] == b[i],
    ensures
        a.filter(keep) == b.filter(keep),
    decreases a.len(),
{
    reveal(Seq::filter);
    if a.len() > 0 {
        assert forall|i: int| 0 <= i < a.drop_last().len() implies keep(
            #[trigger] a.drop_last()[i],
        ) == keep(b.drop_last()[i]) && (keep(a.drop_last()[i]) ==> a.drop_last()[i]
            == b.drop_last()[i]) by {
            assert(a.drop_last()[i] == a[i] && b.drop_last()[i] == b[i]);
        }
        lemma_filter_agree(a.drop_last(), b.drop_last(), keep);
        assert(keep(a[a.len() - 1]) == keep(b[a.len() - 1]));
    } else {
        assert(a =~= b);
    }
}

/// Filtering records with distinct keys leaves the keys distinct.
pub proof fn lemma_filter_unique<T: Record>(s: Seq<T>, keep: spec_fn(T) -> bool)
    requires
        unique_keys(s),
    ensures
        unique_keys(s.filter(keep)),
    decreases s.len(),
{
    reveal(Seq::filter);
    if s.len() > 0 {
        let rest = s.drop_last().filter(keep);
        assert forall|i: int, j: int| 0 <= i < j < s.drop_last().len() implies (
        #[trigger] s.drop_last()[i]).key() != (#[trigger] s.drop_last()[j]).key() by {
            assert(s.drop_last()[i] == s[i] && s.drop_last()[j] == s[j]);
        }
        lemma_filter_unique(s.drop_last(), keep);
        if keep(s.last()) {
            let out = s.filter(keep);
            assert forall|i: int, j: int| 0 <= i < j < out.len() implies (#[trigger] out[i]).key() != (
            #[trigger] out[j]).key() by {
                if j == rest.len() {
                    lemma_filter_source(s.drop_last(), keep, i);
                    let k = choose|k: int|
                        0 <= k < s.drop_last().len() && #[trigger] s.drop_last()[k] == rest[i];
                    assert(s[k] == out[i]);
                    assert(s[s.len() - 1] == out[j]);
                } else {
                    assert(out[i] == rest[i] && out[j] == rest[j]);
                }
            }
        }
    }
}

/// Copies of the records of `v` that belong to `owner`, in the order they
/// are kept.
pub fn collect_for<T: Entry>(v: &Vec<T>, owner: &String) -> (found: Vec<T>)
    ensures
        found@ == entries_of(v@, owner@),
{
    let mut found: Vec<T> = Vec::new();
    let mut i: usize = 0;
    proof {
        reveal(Seq::filter);
        assert(v@.take(0).filter(owned_by(owner@)) =~= Seq::<T>::empty());
    }
    while i < v.len()
        invariant
            i <= v.len(),
            found@ == v@.take(i as int).filter(owned_by(owner@)),
        decreases v.len() - i,
    {
        proof {
            lemma_filter_step(v@, i as int, owned_by(owner@));
        }
        if *v[i].owner_id() == *owner {
            found.push(v[i].duplicate());
        }
        i += 1;
    }
    proof {
        assert(v@.take(v.len() as int) =~= v@);
    }
    found
}

/// The test that passes the one key `id`.
pub open spec fn only(id: Seq<char>) -> spec_fn(Seq<char>) -> bool {
    |key: Seq<char>| key == id
}

/// The test that passes the records whose key is not among `gone`.
pub open spec fn key_stays<T: Record>(gone: spec_fn(Seq<char>) -> bool) -> spec_fn(T) -> bool {
    |x: T| !gone(x.key())
}

/// The test that passes the records whose owner is not among `gone`.
pub open spec fn owner_stays<T: Entry>(gone: spec_fn(Seq<char>) -> bool) -> spec_fn(T) -> bool {
    |x: T| !gone(x.owner())
}

/// Copies of the records of `v` that do not belong to `owner`, in the
/// order they are kept.
pub fn discard_for<T: Entry>(v: &Vec<T>, owner: &String) -> (rest: Vec<T>)
    ensures
        rest@ == v@.filter(owner_stays(only(owner@))),
{
    let mut rest: Vec<T> = Vec::new();
    let mut i: usize = 0;
    proof {
        reveal(Seq::filter);
        assert(v@.take(0).filter(owner_stays(only(owner@))) =~= Seq::<T>::empty());
    }
    while i < v.len()
        invariant
            i <= v.len(),
            rest@ == v@.take(i as int).filter(owner_stays(only(owner@))),
        decreases v.len() - i,
    {
        proof {
            lemma_filter_step(v@, i as int, owner_stays(only(owner@)));
        }
        if *v[i].owner_id() != *owner {
            rest.push(v[i].duplicate());
        }
        i += 1;
    }
    proof {
        assert(v@.take(v.len() as int) =~= v@);
    }
    rest
}

/// Copies of the records of `v` whose key is not `id`, in the order they
/// are kept.
pub fn discard_key<T: Record>(v: &Vec<T>, id: &String) -> (rest: Vec<T>)
    ensures
        rest@ == v@.filter(key_stays(only(id@))),
{
    let mut rest: Vec<T> = Vec::new();
    let mut i: usize = 0;
    proof {
        reveal(Seq::filter);
        assert(v@.take(0).filter(key_stays(only(id@))) =~= Seq::<T>::empty());
    }
    while i < v.len()
        invariant
            i <= v.len(),
            rest@ == v@.take(i as int).filter(key_stays(only(id@))),
        decreases v.len() - i,
    {
        proof {
            lemma_filter_step(v@, i as int, key_stays(only(id@)));
        }
        if *v[i].id() != *id {
            rest.push(v[i].duplicate());
        }
        i += 1;
    }
    proof {
        assert(v@.take(v.len() as int) =~= v@);
    }
    rest
}

/// Position of the record with key `id`, if there is one.
pub fn position<T: Record>(v: &Vec<T>, id: &String) -> (at: Option<usize>)
    ensures
        at is Some <==> has_key(v@, id@),
        at matches Some(i) ==> is_first(v@, id@, i as int) && i == index_of(v@, id@),
{
    let mut i: usize = 0;
    while i < v.len()
        invariant
            i <= v.len(),
            forall|j: int| 0 <= j < i ==> (#[trigger] v[j]).key() != id@,
        decreases v.len() - i,
    {
        if *v[i].id() == *id {
            proof {
                lemma_index_of(v@, id@, i as int);
            }
            return Some(i);
        }
        i += 1;
    }
    None
}

/// The sum of the worth of the records of `v` that belong to `owner`.
pub fn sum_for<T: Entry>(v: &Vec<T>, owner: &String) -> (sum: i128)
    ensures
        sum == total_of(v@, owner@),
{
    let mut sum: i128 = 0;
    let mut i: usize = 0;
    while i < v.len()
        invariant
            i <= v.len(),
            sum == total_of(v@.take(i as int), owner@),
            -(i * WORTH_LIMIT) <= sum <= i * WORTH_LIMIT,
        decreases v.len() - i,
    {
        proof {
            assert(v@.take(i + 1).drop_last() =~= v@.take(i as int));
        }
        if *v[i].owner_id() == *owner {
            sum = sum + v[i].amount();
        }
        i += 1;
    }
    proof {
        assert(v@.take(v.len() as int) =~= v@);
    }
    sum
}

} // verus!
