//! Ordering by descending score, and keeping the best few.
//!
//! A list is put in order by inserting its items one by one, each behind the
//! items that score at least as much: items with equal scores keep the order
//! in which they came. Keeping only the best `n` after every insertion gives
//! the same list as ordering everything and cutting at `n`; the search and
//! the scorer rely on that.

use vstd::prelude::*;

verus! {

/// A value with a score by which it is ordered.
pub trait Scored {
    spec fn score(&self) -> int;
}

/// The first index from `from` on whose item scores below `w`, or the length.
pub open spec fn insertion_point<M: Scored>(s: Seq<M>, w: int, from: int) -> int
    decreases s.len() - from,
{
    if from < 0 || from >= s.len() {
        s.len() as int
    } else if s[from].score() < w {
        from
    } else {
        insertion_point(s, w, from + 1)
    }
}

/// `s` with `x` placed behind the leading items that score at least as much.
pub open spec fn insert_sorted<M: Scored>(s: Seq<M>, x: M) -> Seq<M> {
    s.insert(insertion_point(s, x.score(), 0), x)
}

/// The items of `s` by descending score; items with equal scores keep their order.
pub open spec fn sorted_desc<M: Scored>(s: Seq<M>) -> Seq<M>
    decreases s.len(),
{
    if s.len() == 0 {
        Seq::empty()
    } else {
        insert_sorted(sorted_desc(s.drop_last()), s.last())
    }
}

/// The first `n` items of `s`, or all of them if there are fewer.
pub open spec fn top<M>(s: Seq<M>, n: int) -> Seq<M> {
    if n <= 0 {
        Seq::empty()
    } else if s.len() <= n {
        s
    } else {
        s.subrange(0, n)
    }
}

/// The best `n` of `acc` and `x`.
pub open spec fn bounded_insert<M: Scored>(acc: Seq<M>, x: M, n: int) -> Seq<M> {
    top(insert_sorted(acc, x), n)
}

/// What is kept when the items come one by one and only the best `n` stay.
pub open spec fn collected<M: Scored>(acc: Seq<M>, items: Seq<M>, n: int) -> Seq<M>
    decreases items.len(),
{
    if items.len() == 0 {
        acc
    } else {
        bounded_insert(collected(acc, items.drop_last(), n), items.last(), n)
    }
}

/// Whether no item scores above an item before it.
pub open spec fn is_sorted_desc<M: Scored>(s: Seq<M>) -> bool {
    forall|i: int, j: int| 0 <= i < j < s.len() ==> s[i].score() >= s[j].score()
}

/// The insertion point lies behind every item that it skipped, and the item
/// at it, if there is one, scores below `w`.
pub proof fn lemma_insertion_point<M: Scored>(s: Seq<M>, w: int, from: int)
    requires
        0 <= from <= s.len(),
    ensures
        from <= insertion_point(s, w, from) <= s.len(),
        forall|k: int| from <= k < insertion_point(s, w, from) ==> s[k].score() >= w,
        insertion_point(s, w, from) < s.len() ==> s[insertion_point(s, w, from)].score() < w,
    decreases s.len() - from,
{
    if from < s.len() && s[from].score() >= w {
        lemma_insertion_point(s, w, from + 1);
    }
}

/// The insertion point in a prefix is the insertion point in the whole, or
/// the end of the prefix where that lies further back.
pub proof fn lemma_insertion_point_prefix<M: Scored>(s: Seq<M>, w: int, n: int, from: int)
    requires
        0 <= from <= n <= s.len(),
    ensures
        insertion_point(s.subrange(0, n), w, from) == if insertion_point(s, w, from) < n {
            insertion_point(s, w, from)
        } else {
            n
        },
    decreases n - from,
{
    let t = s.subrange(0, n);
    if from < n {
        assert(t[from] == s[from]);
        if s[from].score() >= w {
            lemma_insertion_point_prefix(s, w, n, from + 1);
        }
    } else {
        lemma_insertion_point(s, w, from);
    }
}

/// Inserting into an ordered list gives an ordered list with one more item.
pub proof fn lemma_insert_sorted<M: Scored>(s: Seq<M>, x: M)
    requires
        is_sorted_desc(s),
    ensures
        is_sorted_desc(insert_sorted(s, x)),
        insert_sorted(s, x).len() == s.len() + 1,
        insert_sorted(s, x).to_multiset() == s.to_multiset().insert(x),
{
    let p = insertion_point(s, x.score(), 0);
    lemma_insertion_point(s, x.score(), 0);
    let r = insert_sorted(s, x);
    assert forall|i: int, j: int| 0 <= i < j < r.len() implies r[i].score() >= r[j].score() by {
        if j < p {
            assert(r[i] == s[i] && r[j] == s[j]);
        } else if j == p {
            assert(r[i] == s[i]);
        } else if i < p {
            assert(r[i] == s[i] && r[j] == s[j - 1]);
        } else if i == p {
            assert(r[j] == s[j - 1]);
            assert(s[p].score() >= s[j - 1].score() || j - 1 == p);
        } else {
            assert(r[i] == s[i - 1] && r[j] == s[j - 1]);
        }
    }
    s.to_multiset_ensures();
    vstd::seq_lib::lemma_seq_union_to_multiset_commutative(
        s.subrange(0, p).push(x),
        s.subrange(p, s.len() as int),
    );
    vstd::seq_lib::lemma_multiset_commutative(s.subrange(0, p).push(x), s.subrange(p, s.len() as int));
    vstd::seq_lib::lemma_multiset_commutative(s.subrange(0, p), s.subrange(p, s.len() as int));
    s.subrange(0, p).to_multiset_ensures();
    assert(s.subrange(0, p) + s.subrange(p, s.len() as int) =~= s);
    assert(r.to_multiset() =~= s.to_multiset().insert(x));
}

/// Ordering keeps every item, each as often as before, and puts them by
/// descending score.
pub proof fn lemma_sorted_desc<M: Scored>(s: Seq<M>)
    ensures
        is_sorted_desc(sorted_desc(s)),
        sorted_desc(s).len() == s.len(),
        sorted_desc(s).to_multiset() == s.to_multiset(),
    decreases s.len(),
{
    if s.len() == 0 {
        assert(s =~= Seq::<M>::empty());
    } else {
        lemma_sorted_desc(s.drop_last());
        lemma_insert_sorted(sorted_desc(s.drop_last()), s.last());
        s.drop_last().to_multiset_ensures();
        assert(s.drop_last().push(s.last()) =~= s);
    }
}

/// Every item of the ordered list is an item of the list.
pub proof fn lemma_sorted_desc_items<M: Scored>(s: Seq<M>)
    ensures
        forall|i: int|
            0 <= i < sorted_desc(s).len() ==> s.contains(#[trigger] sorted_desc(s)[i]),
{
    lemma_sorted_desc(s);
    let r = sorted_desc(s);
    r.to_multiset_ensures();
    s.to_multiset_ensures();
    assert forall|i: int| 0 <= i < r.len() implies s.contains(#[trigger] r[i]) by {
        assert(r.contains(r[i]));
        assert(r.to_multiset().count(r[i]) > 0);
    }
}

/// Cutting before an insertion does not change the best `n` after it.
pub proof fn lemma_top_insert<M: Scored>(s: Seq<M>, x: M, n: int)
    ensures
        bounded_insert(top(s, n), x, n) == bounded_insert(s, x, n),
{
    if n > 0 && s.len() > n {
        let t = s.subrange(0, n);
        let w = x.score();
        lemma_insertion_point(s, w, 0);
        lemma_insertion_point_prefix(s, w, n, 0);
        let p = insertion_point(s, w, 0);
        let q = insertion_point(t, w, 0);
        assert(top(s.insert(p, x), n) =~= top(t.insert(q, x), n));
    }
}

/// Collecting the second of two lists behind the first is collecting both.
pub proof fn lemma_collected_concat<M: Scored>(acc: Seq<M>, a: Seq<M>, b: Seq<M>, n: int)
    ensures
        collected(acc, a + b, n) == collected(collected(acc, a, n), b, n),
    decreases b.len(),
{
    if b.len() == 0 {
        assert(a + b =~= a);
    } else {
        lemma_collected_concat(acc, a, b.drop_last(), n);
        assert((a + b).drop_last() =~= a + b.drop_last());
        assert((a + b).last() == b.last());
    }
}

/// Keeping only the best `n` after every insertion gives the best `n` of the
/// ordered list.
pub proof fn lemma_collected<M: Scored>(items: Seq<M>, n: int)
    ensures
        collected(Seq::empty(), items, n) == top(sorted_desc(items), n),
    decreases items.len(),
{
    if items.len() == 0 {
        assert(top(Seq::<M>::empty(), n) =~= Seq::<M>::empty());
    } else {
        lemma_collected(items.drop_last(), n);
        lemma_top_insert(sorted_desc(items.drop_last()), items.last(), n);
    }
}

/// The best `n` of an ordered list are ordered, at most `n`, and items of the list.
pub proof fn lemma_top_sorted<M: Scored>(items: Seq<M>, n: int)
    ensures
        is_sorted_desc(top(sorted_desc(items), n)),
        top(sorted_desc(items), n).len() <= n || n < 0,
        top(sorted_desc(items), n).len() <= items.len(),
        n >= items.len() ==> top(sorted_desc(items), n).len() == items.len(),
        forall|i: int|
            0 <= i < top(sorted_desc(items), n).len() ==> items.contains(
                #[trigger] top(sorted_desc(items), n)[i],
            ),
{
    lemma_sorted_desc(items);
    lemma_sorted_desc_items(items);
    let s = sorted_desc(items);
    let t = top(s, n);
    assert forall|i: int| 0 <= i < t.len() implies items.contains(#[trigger] t[i]) by {
        assert(t[i] == s[i]);
    }
}

} // verus!
