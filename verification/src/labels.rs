//! Packing of the screen positions of the overlay labels.
//!
//! The page takes the positions of all labels in one flat array, `x` then
//! `y` for each label in turn, so that one call per frame updates them all.

use vstd::prelude::*;

verus! {

/// Flattens `(x, y)` pairs into `[x0, y0, x1, y1, ...]`.
pub fn interleave_pairs<T: Copy>(pairs: &Vec<(T, T)>) -> (flat: Vec<T>)
    ensures
        flat@.len() == 2 * pairs@.len(),
        forall|i: int| 0 <= i < pairs@.len() ==> flat@[2 * i] == (#[trigger] pairs@[i]).0
            && flat@[2 * i + 1] == pairs@[i].1,
{
    let mut flat: Vec<T> = Vec::new();
    let mut i: usize = 0;
    while i < pairs.len()
        invariant
            i <= pairs@.len(),
            flat@.len() == 2 * i,
            forall|j: int| 0 <= j < i ==> flat@[2 * j] == (#[trigger] pairs@[j]).0
                && flat@[2 * j + 1] == pairs@[j].1,
        decreases pairs@.len() - i,
    {
        let (x, y) = pairs[i];
        flat.push(x);
        flat.push(y);
        i = i + 1;
    }
    flat
}

} // verus!
