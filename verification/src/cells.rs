//! Weight and sample cells.
//!
//! Every weight vector and every sample patch in the system has the same
//! fixed width, `PATCH_SIZE`. A cell is carried as a raw 32-bit pattern; the
//! update rule, an external collaborator, owns its numeric interpretation.
use vstd::prelude::*;

verus! {

/// Width of every sample patch and every weight vector in the system.
pub const PATCH_SIZE: usize = 49;

/// Relies on rand::random: draws one value from the thread-local generator.
/// Nothing is promised of the value.
#[verifier::external_body]
pub(crate) fn random_cell() -> u32 {
    rand::random::<u32>()
}

/// A freshly drawn weight vector: `PATCH_SIZE` independently drawn cells.
pub(crate) fn fresh_weight_vector() -> (w: Vec<u32>)
    ensures
        w@.len() == PATCH_SIZE,
{
    let mut w: Vec<u32> = Vec::new();
    let mut i: usize = 0;
    while i < PATCH_SIZE
        invariant
            i <= PATCH_SIZE,
            w@.len() == i,
        decreases PATCH_SIZE - i,
    {
        w.push(random_cell());
        i = i + 1;
    }
    w
}

/// The contents of a row of weight vectors, one sequence of cells per
/// vector.
pub open spec fn views_of(rows: Seq<Vec<u32>>) -> Seq<Seq<u32>> {
    rows.map_values(|r: Vec<u32>| r@)
}

/// An exact copy of one weight vector or sample patch.
pub fn clone_cells(v: &Vec<u32>) -> (r: Vec<u32>)
    ensures
        r@ == v@,
{
    let mut r: Vec<u32> = Vec::new();
    let mut i: usize = 0;
    while i < v.len()
        invariant
            i <= v@.len(),
            r@.len() == i,
            forall|k: int| 0 <= k < i ==> r@[k] == v@[k],
        decreases v@.len() - i,
    {
        r.push(v[i]);
        i = i + 1;
    }
    proof {
        assert(r@ =~= v@);
    }
    r
}

/// An exact copy of a row of weight vectors, cell for cell.
pub fn clone_row(rows: &Vec<Vec<u32>>) -> (r: Vec<Vec<u32>>)
    ensures
        views_of(r@) == views_of(rows@),
{
    let mut r: Vec<Vec<u32>> = Vec::new();
    let mut i: usize = 0;
    while i < rows.len()
        invariant
            i <= rows@.len(),
            r@.len() == i,
            forall|k: int| 0 <= k < i ==> (#[trigger] r@[k])@ == rows@[k]@,
        decreases rows@.len() - i,
    {
        r.push(clone_cells(&rows[i]));
        i = i + 1;
    }
    proof {
        assert(views_of(r@) =~= views_of(rows@));
    }
    r
}

} // verus!
