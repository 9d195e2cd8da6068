//! Removing items from a list for good: what stays, and in which order.

use vstd::prelude::*;

verus! {

/// Whether the item at position `k` stays under the flags `keep`. An item
/// leaves only if its own flag is there and says so.
pub open spec fn stays(keep: Seq<bool>, k: int) -> bool {
    !(0 <= k < keep.len()) || keep[k]
}

/// The positions below `n` that stay under `keep`, in ascending order.
pub open spec fn kept_positions(keep: Seq<bool>, n: int) -> Seq<int>
    decreases n,
{
    if n <= 0 {
        Seq::empty()
    } else if stays(keep, n - 1) {
        kept_positions(keep, n - 1).push(n - 1)
    } else {
        kept_positions(keep, n - 1)
    }
}

/// The items among the first `n` of `items` that stay under `keep`, in their
/// order.
pub open spec fn surviving_prefix<T>(items: Seq<T>, keep: Seq<bool>, n: int) -> Seq<T> {
    let positions = kept_positions(keep, n);
    Seq::new(positions.len(), |j: int| items[positions[j]])
}

/// The items of `items` that stay under `keep`, in their order.
pub open spec fn surviving<T>(items: Seq<T>, keep: Seq<bool>) -> Seq<T> {
    surviving_prefix(items, keep, items.len() as int)
}

/// Whether `picks` names positions below `bound` in ascending order.
pub open spec fn ascending_below(picks: Seq<int>, bound: int) -> bool {
    &&& forall|i: int| 0 <= i < picks.len() ==> 0 <= #[trigger] picks[i] < bound
    &&& forall|i: int, j: int| 0 <= i < j < picks.len() ==> picks[i] < picks[j]
}

/// Whether `part` holds the items of `all` at the positions `picks`, which
/// ascend: `part` is then what is left of `all` after some items were taken
/// out.
pub open spec fn drawn_from<T>(part: Seq<T>, all: Seq<T>, picks: Seq<int>) -> bool {
    &&& picks.len() == part.len()
    &&& ascending_below(picks, all.len() as int)
    &&& forall|i: int| 0 <= i < part.len() ==> part[i] == all[#[trigger] picks[i]]
}

/// Whether `part` is what is left of `all` after some items were taken out.
pub open spec fn remains_of<T>(part: Seq<T>, all: Seq<T>) -> bool {
    exists|picks: Seq<int>| drawn_from(part, all, picks)
}

/// The positions that stay are exactly the positions below `n` whose flag
/// does not send them away, and they ascend.
pub proof fn lemma_kept_positions(keep: Seq<bool>, n: int)
    requires
        0 <= n,
    ensures
        ascending_below(kept_positions(keep, n), n),
        forall|j: int|
            0 <= j < kept_positions(keep, n).len() ==> stays(
                keep,
                #[trigger] kept_positions(keep, n)[j],
            ),
        forall|k: int| 0 <= k < n && stays(keep, k) ==> kept_positions(keep, n).contains(k),
        kept_positions(keep, n).len() <= n,
    decreases n,
{
    if n > 0 {
        lemma_kept_positions(keep, n - 1);
        let before = kept_positions(keep, n - 1);
        let now = kept_positions(keep, n);
        assert forall|k: int| 0 <= k < n && stays(keep, k) implies now.contains(k) by {
            if k < n - 1 {
                let j = choose|j: int| 0 <= j < before.len() && before[j] == k;
                assert(now[j] == k);
            } else {
                assert(now[now.len() - 1] == k);
            }
        }
    }
}

/// What survives a pass is what is left of the list, item for item.
pub proof fn lemma_surviving_drawn<T>(items: Seq<T>, keep: Seq<bool>)
    ensures
        drawn_from(surviving(items, keep), items, kept_positions(keep, items.len() as int)),
        remains_of(surviving(items, keep), items),
{
    lemma_kept_positions(keep, items.len() as int);
}

/// What is left of what is left is left of the whole.
pub proof fn lemma_remains_chain<T>(a: Seq<T>, b: Seq<T>, c: Seq<T>)
    requires
        remains_of(a, b),
        remains_of(b, c),
    ensures
        remains_of(a, c),
{
    let inner = choose|picks: Seq<int>| drawn_from(a, b, picks);
    let outer = choose|picks: Seq<int>| drawn_from(b, c, picks);
    let picks = Seq::new(a.len(), |i: int| outer[inner[i]]);
    assert(drawn_from(a, c, picks));
}

/// A list is what is left of itself when nothing was taken out.
pub proof fn lemma_remains_whole<T>(a: Seq<T>)
    ensures
        remains_of(a, a),
{
    let picks = Seq::new(a.len(), |i: int| i);
    assert(drawn_from(a, a, picks));
}

/// Nothing enters a list by taking items out of it.
pub proof fn lemma_remains_contained<T>(part: Seq<T>, all: Seq<T>, item: T)
    requires
        remains_of(part, all),
        part.contains(item),
    ensures
        all.contains(item),
{
    let picks = choose|picks: Seq<int>| drawn_from(part, all, picks);
    let i = choose|i: int| 0 <= i < part.len() && part[i] == item;
    assert(all[picks[i]] == item);
}

/// A pass clears what it is meant to clear: if every item of which `doomed`
/// holds has a flag that sends it away, `doomed` holds of nothing that
/// survives.
pub proof fn lemma_pass_clears<T>(items: Seq<T>, keep: Seq<bool>, doomed: spec_fn(T) -> bool)
    requires
        forall|k: int| 0 <= k < items.len() && doomed(#[trigger] items[k]) ==> !stays(keep, k),
    ensures
        forall|j: int|
            0 <= j < surviving(items, keep).len() ==> !doomed(#[trigger] surviving(items, keep)[j]),
{
    lemma_kept_positions(keep, items.len() as int);
    let positions = kept_positions(keep, items.len() as int);
    assert forall|j: int| 0 <= j < surviving(items, keep).len() implies !doomed(
        #[trigger] surviving(items, keep)[j],
    ) by {
        assert(stays(keep, positions[j]));
    }
}

} // verus!
