//! Attribute columns of the geometry detail: the one reordering primitive.

use vstd::prelude::*;

verus! {

/// The column `gather(values, indices, zero)` builds.
pub open spec fn gathered<T>(values: Seq<T>, indices: Seq<usize>, zero: T) -> Seq<T> {
    Seq::new(
        indices.len(),
        |k: int|
            if indices[k] < values.len() {
                values[indices[k] as int]
            } else {
                zero
            },
    )
}

/// A new column holding `values[i]` for each `i` of `indices`, in order:
/// delete, reorder and duplicate are all this one operation. An index out of
/// range yields `zero` rather than a panic, so an index map built with an
/// arithmetic slip cannot take the application down.
pub fn gather<T: Copy>(values: &Vec<T>, indices: &[usize], zero: T) -> (out: Vec<T>)
    ensures
        out@ == gathered(values@, indices@, zero),
{
    let mut out: Vec<T> = Vec::new();
    let mut k: usize = 0;
    while k < indices.len()
        invariant
            k <= indices@.len(),
            out@ == gathered(values@, indices@.take(k as int), zero),
        decreases indices@.len() - k,
    {
        let i = indices[k];
        let v = if i < values.len() {
            values[i]
        } else {
            zero
        };
        out.push(v);
        k = k + 1;
        assert(out@ =~= gathered(values@, indices@.take(k as int), zero));
    }
    assert(indices@.take(indices@.len() as int) =~= indices@);
    out
}

} // verus!
