//! Vocabulary on sequences that the other modules share.
use vstd::prelude::*;

verus! {

/// The views of the items of a sequence, in order.
pub open spec fn views<T: View>(s: Seq<T>) -> Seq<T::V> {
    s.map_values(|x: T| x@)
}

/// The least index not below `from` whose item satisfies `p`.
pub open spec fn first_from<T>(s: Seq<T>, p: spec_fn(T) -> bool, from: int) -> Option<int>
    decreases s.len() - from,
{
    if from < 0 || from >= s.len() {
        None
    } else if p(s[from]) {
        Some(from)
    } else {
        first_from(s, p, from + 1)
    }
}

/// The least index whose item satisfies `p`.
pub open spec fn first_where<T>(s: Seq<T>, p: spec_fn(T) -> bool) -> Option<int> {
    first_from(s, p, 0)
}

/// What `first_from` finds: nothing before it satisfies `p`, and it does.
pub proof fn lemma_first_from<T>(s: Seq<T>, p: spec_fn(T) -> bool, from: int)
    requires
        0 <= from,
    ensures
        match first_from(s, p, from) {
            Some(k) => {
                &&& from <= k < s.len()
                &&& p(s[k])
                &&& forall|j: int| from <= j < k ==> !p(#[trigger] s[j])
            },
            None => forall|j: int| from <= j < s.len() ==> !p(#[trigger] s[j]),
        },
    decreases s.len() - from,
{
    if from < s.len() && !p(s[from]) {
        lemma_first_from(s, p, from + 1);
    }
}

/// No two items are equal.
pub open spec fn distinct<T>(s: Seq<T>) -> bool {
    forall|i: int, j: int| 0 <= i < j < s.len() ==> #[trigger] s[i] != #[trigger] s[j]
}

/// The lesser of two numbers.
pub open spec fn least(a: int, b: int) -> int {
    if a <= b {
        a
    } else {
        b
    }
}

/// The greater of two numbers.
pub open spec fn greatest(a: int, b: int) -> int {
    if a >= b {
        a
    } else {
        b
    }
}

/// `a - b`, or zero where that is negative.
pub open spec fn monus(a: int, b: int) -> int {
    greatest(a - b, 0)
}

/// What a filter keeps of a prefix that is one item longer.
pub proof fn lemma_filter_take<T>(s: Seq<T>, p: spec_fn(T) -> bool, i: int)
    requires
        0 <= i < s.len(),
    ensures
        s.take(i + 1).filter(p) == if p(s[i]) {
            s.take(i).filter(p).push(s[i])
        } else {
            s.take(i).filter(p)
        },
{
    reveal(Seq::filter);
    assert(s.take(i + 1).drop_last() =~= s.take(i));
}

/// A filter that no item passes keeps nothing.
pub proof fn lemma_filter_none<T>(s: Seq<T>, p: spec_fn(T) -> bool)
    requires
        forall|i: int| 0 <= i < s.len() ==> !p(#[trigger] s[i]),
    ensures
        s.filter(p) == Seq::<T>::empty(),
    decreases s.len(),
{
    reveal(Seq::filter);
    if s.len() > 0 {
        assert(!p(s[s.len() - 1]));
        lemma_filter_none(s.drop_last(), p);
    }
}

/// A filter that every item passes keeps everything.
pub proof fn lemma_filter_all<T>(s: Seq<T>, p: spec_fn(T) -> bool)
    requires
        forall|i: int| 0 <= i < s.len() ==> p(#[trigger] s[i]),
    ensures
        s.filter(p) == s,
    decreases s.len(),
{
    reveal(Seq::filter);
    if s.len() > 0 {
        assert(p(s[s.len() - 1]));
        lemma_filter_all(s.drop_last(), p);
        assert(s.drop_last().push(s.last()) =~= s);
    }
}

/// A filter that just one item passes keeps that one.
pub proof fn lemma_filter_one<T>(s: Seq<T>, p: spec_fn(T) -> bool, k: int)
    requires
        0 <= k < s.len(),
        p(s[k]),
        forall|i: int| 0 <= i < s.len() && i != k ==> !p(#[trigger] s[i]),
    ensures
        s.filter(p) == seq![s[k]],
    decreases s.len(),
{
    reveal(Seq::filter);
    let last = s.len() - 1;
    if k == last {
        lemma_filter_none(s.drop_last(), p);
        assert(s.filter(p) =~= seq![s[k]]);
    } else {
        assert(!p(s[last]));
        lemma_filter_one(s.drop_last(), p, k);
    }
}

/// A filter keeps what it keeps of a prefix, and then what it keeps of the rest.
pub proof fn lemma_filter_parts<T>(s: Seq<T>, p: spec_fn(T) -> bool, k: int)
    requires
        0 <= k <= s.len(),
    ensures
        s.filter(p) == s.take(k).filter(p) + s.skip(k).filter(p),
    decreases s.len(),
{
    reveal(Seq::filter);
    if k == s.len() {
        assert(s.take(k) =~= s);
        lemma_filter_none(s.skip(k), p);
        assert(s.filter(p) =~= s.take(k).filter(p) + s.skip(k).filter(p));
    } else {
        lemma_filter_parts(s.drop_last(), p, k);
        assert(s.drop_last().take(k) =~= s.take(k));
        assert(s.drop_last().skip(k) =~= s.skip(k).drop_last());
        assert(s.filter(p) =~= s.take(k).filter(p) + s.skip(k).filter(p));
    }
}

/// Filters that agree on every item keep the same.
pub proof fn lemma_filter_agree<T>(
    s: Seq<T>,
    p: spec_fn(T) -> bool,
    q: spec_fn(T) -> bool,
)
    requires
        forall|i: int| 0 <= i < s.len() ==> p(#[trigger] s[i]) == q(s[i]),
    ensures
        s.filter(p) == s.filter(q),
    decreases s.len(),
{
    reveal(Seq::filter);
    if s.len() > 0 {
        assert(p(s[s.len() - 1]) == q(s[s.len() - 1]));
        lemma_filter_agree(s.drop_last(), p, q);
    }
}

/// What a filter keeps: items of the sequence that pass it, all of them.
pub proof fn lemma_filter_has<T>(s: Seq<T>, p: spec_fn(T) -> bool)
    ensures
        forall|i: int|
            0 <= i < s.filter(p).len() ==> p(#[trigger] s.filter(p)[i]) && s.contains(
                s.filter(p)[i],
            ),
        forall|i: int| 0 <= i < s.len() && p(#[trigger] s[i]) ==> s.filter(p).contains(s[i]),
    decreases s.len(),
{
    reveal(Seq::filter);
    if s.len() > 0 {
        let rest = s.drop_last();
        lemma_filter_has(rest, p);
        assert forall|i: int| 0 <= i < s.filter(p).len() implies p(#[trigger] s.filter(p)[i])
            && s.contains(s.filter(p)[i]) by {
            if i < rest.filter(p).len() {
                assert(s.filter(p)[i] == rest.filter(p)[i]);
                let j = choose|j: int| 0 <= j < rest.len() && rest[j] == rest.filter(p)[i];
                assert(s[j] == s.filter(p)[i]);
            } else {
                assert(s[s.len() - 1] == s.filter(p)[i]);
            }
        }
        assert forall|i: int| 0 <= i < s.len() && p(#[trigger] s[i]) implies s.filter(
            p,
        ).contains(s[i]) by {
            if i < rest.len() {
                assert(rest[i] == s[i]);
                let j = choose|j: int|
                    0 <= j < rest.filter(p).len() && rest.filter(p)[j] == rest[i];
                assert(s.filter(p)[j] == s[i]);
            } else {
                assert(s.filter(p)[s.filter(p).len() - 1] == s[i]);
            }
        }
    }
}

/// The views of a sequence extended by one item.
pub proof fn lemma_views_push<T: View>(s: Seq<T>, x: T)
    ensures
        views(s.push(x)) == views(s).push(x@),
{
    assert(views(s.push(x)) =~= views(s).push(x@));
}

} // verus!
