//! Lazy cartesian product of index ranges, through itertools.
use vstd::prelude::*;
use std::ops::Range;
use itertools::Itertools;
use itertools::structs::MultiProduct;

verus! {

/// itertools' lazy cartesian product, opaque here: what it still yields is
/// named by [`product_rest`].
#[verifier::external_type_specification]
#[verifier::external_body]
#[verifier::reject_recursive_types(I)]
pub struct ExMultiProduct<I>(MultiProduct<I>) where I: Iterator + Clone, I::Item: Clone;

/// The tuples that a product iterator still yields before its first `None`.
pub uninterp spec fn product_rest(p: MultiProduct<Range<usize>>) -> Seq<Seq<usize>>;

/// Every tuple `[h] + t` with `h < n` and `t` in `tails`, ordered by `h` first.
pub open spec fn with_heads(n: int, tails: Seq<Seq<usize>>) -> Seq<Seq<usize>>
    decreases n,
{
    if n <= 0 {
        Seq::empty()
    } else {
        with_heads(n - 1, tails) + tails.map_values(|t: Seq<usize>| seq![(n - 1) as usize] + t)
    }
}

/// The tuples of indices below `counts`, in lexicographic order: the last
/// index varies fastest.
pub open spec fn lex_product(counts: Seq<usize>) -> Seq<Seq<usize>>
    decreases counts.len(),
{
    if counts.len() == 0 {
        seq![Seq::empty()]
    } else {
        with_heads(counts[0] as int, lex_product(counts.drop_first()))
    }
}

pub open spec fn range_ends(ranges: Seq<Range<usize>>) -> Seq<usize> {
    ranges.map_values(|r: Range<usize>| r.end)
}

/// Relies on `Itertools::multi_cartesian_product`: over one or more
/// non-empty ranges it yields every tuple of their values, the last range
/// varying fastest, then `None`.
#[verifier::external_body]
pub(crate) fn index_product(ranges: Vec<Range<usize>>) -> (r: MultiProduct<Range<usize>>)
    requires
        ranges@.len() >= 1,
        forall|l: int|
            0 <= l < ranges@.len() ==> #[trigger] ranges@[l].start == 0 && ranges@[l].end >= 1,
    ensures
        product_rest(r) == lex_product(range_ends(ranges@)),
{
    ranges.into_iter().multi_cartesian_product()
}

/// Relies on `Iterator::next` of `MultiProduct`: it yields the next tuple,
/// or `None` once every tuple was yielded.
#[verifier::external_body]
pub(crate) fn next_tuple(p: &mut MultiProduct<Range<usize>>) -> (r: Option<Vec<usize>>)
    ensures
        product_rest(*old(p)).len() == 0 ==> r is None,
        product_rest(*old(p)).len() > 0 ==> (r matches Some(t) && t@ == product_rest(*old(p))[0]),
        product_rest(*old(p)).len() > 0 ==> product_rest(*final(p)) == product_rest(
            *old(p),
        ).drop_first(),
{
    p.next()
}

/// `t` has one index per count, each below it.
pub open spec fn within(t: Seq<usize>, counts: Seq<usize>) -> bool {
    t.len() == counts.len() && forall|l: int| 0 <= l < counts.len() ==> #[trigger] t[l] < counts[l]
}

proof fn lemma_with_heads_in_range(n: int, tails: Seq<Seq<usize>>, counts: Seq<usize>)
    requires
        counts.len() >= 1,
        n <= counts[0],
        forall|i: int| 0 <= i < tails.len() ==> within(#[trigger] tails[i], counts.drop_first()),
    ensures
        forall|i: int|
            0 <= i < with_heads(n, tails).len() ==> within(#[trigger] with_heads(n, tails)[i], counts),
    decreases n,
{
    if n > 0 {
        lemma_with_heads_in_range(n - 1, tails, counts);
        let prev = with_heads(n - 1, tails);
        let all = with_heads(n, tails);
        assert forall|i: int| 0 <= i < all.len() implies within(#[trigger] all[i], counts) by {
            if i < prev.len() {
                assert(all[i] == prev[i]);
            } else {
                let t = tails[i - prev.len()];
                assert(all[i] == seq![(n - 1) as usize] + t);
                assert(within(t, counts.drop_first()));
                assert forall|l: int| 0 <= l < counts.len() implies #[trigger] all[i][l] < counts[l] by {
                    if l > 0 {
                        assert(all[i][l] == t[l - 1]);
                        assert(counts.drop_first()[l - 1] == counts[l]);
                    }
                }
            }
        }
    }
}

/// Every tuple of the product has one index per count, each below it.
pub proof fn lemma_lex_product_in_range(counts: Seq<usize>)
    ensures
        forall|i: int|
            0 <= i < lex_product(counts).len() ==> within(#[trigger] lex_product(counts)[i], counts),
    decreases counts.len(),
{
    if counts.len() > 0 {
        lemma_lex_product_in_range(counts.drop_first());
        lemma_with_heads_in_range(counts[0] as int, lex_product(counts.drop_first()), counts);
    } else {
        assert(within(lex_product(counts)[0], counts));
    }
}

} // verus!
