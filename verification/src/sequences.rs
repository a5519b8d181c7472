//! What is kept of sequences that are filtered and put together.

use vstd::prelude::*;

verus! {

/// What an item gives is among what all items give.
pub proof fn lemma_filter_map_keeps<A, B>(items: Seq<A>, give: spec_fn(A) -> Option<B>, at: int)
    requires
        0 <= at < items.len(),
        give(items[at]) is Some,
    ensures
        items.filter_map(give).contains(give(items[at])->0),
    decreases items.len(),
{
    let given = items.filter_map(give);
    let front = items.drop_last().filter_map(give);
    let wanted = give(items[at])->0;
    if at == items.len() - 1 {
        assert(given.last() == wanted);
    } else {
        lemma_filter_map_keeps(items.drop_last(), give, at);
        let i = choose|i: int| 0 <= i < front.len() && front[i] == wanted;
        assert(given[i] == wanted);
    }
}

/// What the first item gives comes in front of what the others give.
pub proof fn lemma_filter_map_first<A, B>(items: Seq<A>, give: spec_fn(A) -> Option<B>)
    requires
        items.len() > 0,
    ensures
        items.filter_map(give) == (match give(items[0]) {
            Some(given) => seq![given],
            None => Seq::empty(),
        }) + items.drop_first().filter_map(give),
    decreases items.len(),
{
    let rest = items.drop_first();
    if items.len() == 1 {
        assert(items.drop_last() =~= Seq::empty());
        assert(rest =~= Seq::empty());
        assert(Seq::<A>::empty().filter_map(give) =~= Seq::<B>::empty());
    } else {
        lemma_filter_map_first(items.drop_last(), give);
        assert(items.drop_last().drop_first() =~= rest.drop_last());
        assert(rest.last() == items.last());
    }
    assert(items.filter_map(give) =~= (match give(items[0]) {
        Some(given) => seq![given],
        None => Seq::empty(),
    }) + rest.filter_map(give));
}

/// What one of several sequences holds is in all of them put together.
pub proof fn lemma_flatten_keeps<A>(parts: Seq<Seq<A>>, at: int, item: A)
    requires
        0 <= at < parts.len(),
        parts[at].contains(item),
    ensures
        parts.flatten().contains(item),
    decreases parts.len(),
{
    let whole = parts.flatten();
    let rest = parts.drop_first().flatten();
    if at == 0 {
        let i = choose|i: int| 0 <= i < parts[0].len() && parts[0][i] == item;
        assert(whole[i] == item);
    } else {
        assert(parts.drop_first()[at - 1] == parts[at]);
        lemma_flatten_keeps(parts.drop_first(), at - 1, item);
        let i = choose|i: int| 0 <= i < rest.len() && rest[i] == item;
        assert(whole[parts[0].len() + i] == item);
    }
}

} // verus!
