//! Small general facts about sequence filtering and mapping that the two
//! components share.

use vstd::prelude::*;

verus! {

/// Filtering a one-element sequence keeps or drops its element.
pub proof fn lemma_filter_singleton<A>(x: A, p: spec_fn(A) -> bool)
    ensures
        seq![x].filter(p) == if p(x) {
            seq![x]
        } else {
            Seq::<A>::empty()
        },
{
    reveal_with_fuel(Seq::filter, 2);
    assert(seq![x].drop_last() =~= Seq::<A>::empty());
    assert(Seq::<A>::empty().filter(p) =~= Seq::<A>::empty());
    if p(x) {
        assert(seq![x].filter(p) =~= seq![x]);
    } else {
        assert(seq![x].filter(p) =~= Seq::<A>::empty());
    }
}

/// Mapping a function over a sequence commutes with appending one element.
pub proof fn lemma_map_push<A, B>(s: Seq<A>, f: spec_fn(A) -> B, x: A)
    ensures
        (s.push(x)).map_values(f) == s.map_values(f).push(f(x)),
{
    assert((s.push(x)).map_values(f) =~= s.map_values(f).push(f(x)));
}

/// Two filters in a row are one filter by the conjunction.
pub proof fn lemma_filter_and<A>(
    s: Seq<A>,
    f: spec_fn(A) -> bool,
    g: spec_fn(A) -> bool,
    h: spec_fn(A) -> bool,
)
    requires
        forall|x: A| #[trigger] h(x) == (f(x) && g(x)),
    ensures
        s.filter(f).filter(g) == s.filter(h),
    decreases s.len(),
{
    reveal(Seq::filter);
    if s.len() != 0 {
        let dl = s.drop_last();
        let x = s.last();
        lemma_filter_and(dl, f, g, h);
        if f(x) {
            assert(s.filter(f) == dl.filter(f).push(x));
            assert((dl.filter(f).push(x)).drop_last() =~= dl.filter(f));
            assert(s.filter(f).filter(g) == if g(x) {
                dl.filter(f).filter(g).push(x)
            } else {
                dl.filter(f).filter(g)
            });
        } else {
            assert(s.filter(f) == dl.filter(f));
        }
    }
}

/// Filtering by a predicate that holds everywhere keeps the sequence.
pub proof fn lemma_filter_all_true<A>(s: Seq<A>, p: spec_fn(A) -> bool)
    requires
        forall|i: int| 0 <= i < s.len() ==> p(#[trigger] s[i]),
    ensures
        s.filter(p) == s,
    decreases s.len(),
{
    reveal(Seq::filter);
    if s.len() != 0 {
        lemma_filter_all_true(s.drop_last(), p);
        assert(s.filter(p) =~= s);
    }
}

/// Filtering by nothing that holds yields the empty sequence.
pub proof fn lemma_filter_all_false<A>(s: Seq<A>, p: spec_fn(A) -> bool)
    requires
        forall|i: int| 0 <= i < s.len() ==> !p(#[trigger] s[i]),
    ensures
        s.filter(p) == Seq::<A>::empty(),
    decreases s.len(),
{
    reveal(Seq::filter);
    if s.len() != 0 {
        lemma_filter_all_false(s.drop_last(), p);
    }
}

/// A predicate and its negation split a sequence: the two filtered parts
/// together have the sequence's length.
pub proof fn lemma_filter_partition_len<A>(s: Seq<A>, p: spec_fn(A) -> bool, q: spec_fn(A) -> bool)
    requires
        forall|x: A| #[trigger] q(x) == !p(x),
    ensures
        s.filter(p).len() + s.filter(q).len() == s.len(),
    decreases s.len(),
{
    reveal(Seq::filter);
    if s.len() != 0 {
        lemma_filter_partition_len(s.drop_last(), p, q);
    }
}

/// Every element of a filtered sequence is an element of the sequence.
pub proof fn lemma_filter_element_of<A>(s: Seq<A>, p: spec_fn(A) -> bool, i: int)
    requires
        0 <= i < s.filter(p).len(),
    ensures
        exists|j: int| 0 <= j < s.len() && s[j] == s.filter(p)[i],
    decreases s.len(),
{
    reveal(Seq::filter);
    if s.len() != 0 {
        let dl = s.drop_last();
        if p(s.last()) && i == s.filter(p).len() - 1 {
            assert(s[s.len() - 1] == s.filter(p)[i]);
        } else {
            assert(s.filter(p)[i] == dl.filter(p)[i]);
            lemma_filter_element_of(dl, p, i);
            let j = choose|j: int| 0 <= j < dl.len() && dl[j] == dl.filter(p)[i];
            assert(s[j] == s.filter(p)[i]);
        }
    }
}

/// Prefixes compose.
pub proof fn lemma_prefix_trans<A>(a: Seq<A>, b: Seq<A>, c: Seq<A>)
    requires
        a.is_prefix_of(b),
        b.is_prefix_of(c),
    ensures
        a.is_prefix_of(c),
{
    assert(a =~= c.subrange(0, a.len() as int));
}

} // verus!
