//! Turning a polyline into its segments, and keeping the segments that
//! produced a usable value.

use vstd::prelude::*;

verus! {

/// The segments of a polyline: each point paired with the next one.
pub open spec fn spec_consecutive_pairs<T>(points: Seq<T>) -> Seq<(T, T)> {
    Seq::new(
        if points.len() == 0 { 0nat } else { (points.len() - 1) as nat },
        |k: int| (points[k], points[k + 1]),
    )
}

/// The values held by the `Some` entries of `items`, in their order.
pub open spec fn present_values<T>(items: Seq<Option<T>>) -> Seq<T>
    decreases items.len(),
{
    if items.len() == 0 {
        Seq::empty()
    } else {
        let rest = present_values(items.drop_last());
        match items.last() {
            Some(v) => rest.push(v),
            None => rest,
        }
    }
}

/// Pairs every point of the polyline with its successor, in order: the
/// segment list of a strip of `points.len()` points has
/// `points.len().saturating_sub(1)` entries.
pub fn consecutive_pairs<T: Copy>(points: &Vec<T>) -> (pairs: Vec<(T, T)>)
    ensures
        pairs@ == spec_consecutive_pairs(points@),
        pairs@.len() == points.len().saturating_sub(1),
        forall|k: int| 0 <= k && k + 1 < points@.len() ==> #[trigger] pairs@[k] == (points@[k], points@[k + 1]),
{
    let n = points.len();
    let mut pairs: Vec<(T, T)> = Vec::with_capacity(n.saturating_sub(1));
    if n == 0 {
        assert(pairs@ =~= spec_consecutive_pairs(points@));
        proof {
            lemma_consecutive_pairs_layout(points@);
        }
        return pairs;
    }
    let mut k: usize = 0;
    while k + 1 < n
        invariant
            n == points@.len(),
            n >= 1,
            k + 1 <= n,
            pairs@.len() == k,
            forall|i: int| 0 <= i < k ==> #[trigger] pairs@[i] == (points@[i], points@[i + 1]),
        decreases n - k,
    {
        let a = points[k];
        let b = points[k + 1];
        pairs.push((a, b));
        k = k + 1;
    }
    assert(pairs@ =~= spec_consecutive_pairs(points@));
    proof {
        lemma_consecutive_pairs_layout(points@);
    }
    pairs
}

/// Keeps the values of the `Some` entries, dropping the `None` ones, and
/// keeps their order.
pub fn keep_present<T>(items: Vec<Option<T>>) -> (kept: Vec<T>)
    ensures
        kept@ == present_values(items@),
{
    let ghost whole = items@;
    let mut kept: Vec<T> = Vec::new();
    for item in it: items.into_iter()
        invariant
            it.seq() == whole,
            kept@ == present_values(whole.take(it.index() as int)),
    {
        proof {
            assert(whole.take(it.index() + 1).drop_last() =~= whole.take(it.index() as int));
        }
        match item {
            Some(v) => kept.push(v),
            None => {},
        }
    }
    assert(whole.take(whole.len() as int) =~= whole);
    kept
}

/// Keeping the present values never adds entries, and drops none when every
/// entry is present: a strip whose segments all yield a value keeps one
/// value per segment, in order.
pub proof fn lemma_present_values_len<T>(items: Seq<Option<T>>)
    ensures
        present_values(items).len() <= items.len(),
        (forall|i: int| 0 <= i < items.len() ==> #[trigger] items[i] is Some)
            ==> present_values(items) == items.map_values(|o: Option<T>| o->0),
    decreases items.len(),
{
    if items.len() > 0 {
        let p = items.drop_last();
        lemma_present_values_len(p);
        if forall|i: int| 0 <= i < items.len() ==> #[trigger] items[i] is Some {
            assert forall|i: int| 0 <= i < p.len() implies #[trigger] p[i] is Some by {
                assert(p[i] == items[i]);
            }
            assert(items.last() is Some);
            assert(present_values(items) =~= items.map_values(|o: Option<T>| o->0));
        }
    }
}

/// Segment `k` of a polyline runs from point `k` to point `k + 1`, for every
/// point but the last, and there is no other segment.
pub proof fn lemma_consecutive_pairs_layout<T>(points: Seq<T>)
    ensures
        spec_consecutive_pairs(points).len() == if points.len() == 0 { 0 } else { points.len() - 1 },
        forall|k: int| 0 <= k && k + 1 < points.len() ==>
            #[trigger] spec_consecutive_pairs(points)[k] == (points[k], points[k + 1]),
{
}

/// Keeping the present values, entry by entry: nothing comes of no entries,
/// a `None` entry adds nothing wherever it stands, and a `Some(v)` entry adds
/// `v` at its own place, whatever entries come before or after it.
pub proof fn lemma_present_values_steps<T>(items: Seq<Option<T>>, v: T)
    ensures
        present_values(Seq::<Option<T>>::empty()) == Seq::<T>::empty(),
        present_values(items.push(None)) == present_values(items),
        present_values(items.push(Some(v))) == present_values(items).push(v),
        present_values(seq![None] + items) == present_values(items),
        present_values(seq![Some(v)] + items) == seq![v] + present_values(items),
    decreases items.len(),
{
    assert(items.push(None).drop_last() =~= items);
    assert(items.push(Some(v)).drop_last() =~= items);
    if items.len() == 0 {
        assert(seq![None] + items =~= seq![None]);
        assert(seq![Some(v)] + items =~= seq![Some(v)]);
        assert(seq![None].drop_last() =~= Seq::<Option<T>>::empty());
        assert(seq![Some(v)].drop_last() =~= Seq::<Option<T>>::empty());
        assert(seq![Some(v)].last() == Some(v));
        assert(present_values(Seq::<Option<T>>::empty()) =~= Seq::<T>::empty());
        assert(present_values(seq![Some(v)]) =~= seq![v]);
    } else {
        let p = items.drop_last();
        lemma_present_values_steps(p, v);
        assert((seq![None] + items).drop_last() =~= seq![None] + p);
        assert((seq![Some(v)] + items).drop_last() =~= seq![Some(v)] + p);
        assert((seq![None] + items).last() == items.last());
        assert((seq![Some(v)] + items).last() == items.last());
        match items.last() {
            Some(w) => {
                assert(seq![v] + present_values(items) =~= (seq![v] + present_values(p)).push(w));
            },
            None => {},
        }
    }
}

} // verus!
