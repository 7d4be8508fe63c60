use rand::distributions::Uniform;
use rand::Rng;
use rand::SeedableRng;
use rand_chacha::ChaCha8Rng;
use vstd::prelude::*;

use crate::colormap::UNIT;
use crate::field::{cell_count, dims_valid, lemma_plane_fits, FieldError, ScalarField};

verus! {

/// The first `count` values, each in `0..=top`, that a ChaCha8 generator
/// seeded with `seed` draws.
pub uninterp spec fn seeded_draws(seed: u64, top: u32, count: nat) -> Seq<u32>;

/// Relies on rand's `thread_rng` and `Rng::gen_range`: one value drawn
/// uniformly from the closed range `0..=top` (never empty, so no panic).
#[verifier::external_body]
fn random_level(top: u32) -> (v: u32)
    ensures
        v <= top,
{
    rand::thread_rng().gen_range(0..=top)
}

/// Relies on rand_chacha's `ChaCha8Rng::seed_from_u64` and rand's
/// `Rng::sample_iter` over `Uniform::new_inclusive(0, top)`: the first `count`
/// values of a stream that depends on the seed alone, each in `0..=top`.
#[verifier::external_body]
fn seeded_levels(seed: u64, top: u32, count: usize) -> (r: Vec<u32>)
    ensures
        r@ == seeded_draws(seed, top, count as nat),
        r@.len() == count,
        forall|i: int| 0 <= i < r@.len() ==> #[trigger] r@[i] <= top,
{
    ChaCha8Rng::seed_from_u64(seed).sample_iter(Uniform::new_inclusive(0, top)).take(count).collect()
}

/// `field` is what seeded generation yields for `seed` and `dim`.
pub open spec fn seeded_field(seed: u64, dim: (usize, usize, usize), field: ScalarField) -> bool {
    &&& field.wf()
    &&& field.dims() == dim
    &&& field.samples() == seeded_draws(seed, UNIT, cell_count(dim) as nat)
}

/// The number of cells, computed for positive dimensions whose product fits.
fn lattice_cell_count(dim: (usize, usize, usize)) -> (n: usize)
    requires
        dims_valid(dim),
        cell_count(dim) <= usize::MAX,
    ensures
        n == cell_count(dim),
{
    proof {
        lemma_plane_fits(dim.0 as int, dim.1 as int, dim.2 as int);
    }
    dim.0 * dim.1 * dim.2
}

/// Fills a field of the given dimensions with samples drawn independently and
/// uniformly from [0, 1].
pub fn generate_scalar_field(dim: (usize, usize, usize)) -> (r: Result<ScalarField, FieldError>)
    requires
        cell_count(dim) <= usize::MAX,
    ensures
        !dims_valid(dim) <==> r == Err::<ScalarField, FieldError>(FieldError::InvalidDimensions),
        dims_valid(dim) ==> r is Ok,
        r is Ok ==> r->Ok_0.wf() && r->Ok_0.dims() == dim,
{
    if dim.0 == 0 || dim.1 == 0 || dim.2 == 0 {
        return Err(FieldError::InvalidDimensions);
    }
    let n = lattice_cell_count(dim);
    let mut data: Vec<u32> = Vec::with_capacity(n);
    let mut i: usize = 0;
    while i < n
        invariant
            i <= n,
            data@.len() == i,
            forall|j: int| 0 <= j < i ==> #[trigger] data@[j] <= UNIT,
        decreases n - i,
    {
        data.push(random_level(UNIT));
        i = i + 1;
    }
    ScalarField::from_samples(dim, data)
}

/// Like `generate_scalar_field`, but the samples come from a generator seeded
/// with `seed`, so the same seed and dimensions give the same field.
pub fn generate_scalar_field_seeded(dim: (usize, usize, usize), seed: u64) -> (r: Result<
    ScalarField,
    FieldError,
>)
    requires
        cell_count(dim) <= usize::MAX,
    ensures
        !dims_valid(dim) <==> r == Err::<ScalarField, FieldError>(FieldError::InvalidDimensions),
        dims_valid(dim) ==> r is Ok,
        r is Ok ==> seeded_field(seed, dim, r->Ok_0),
{
    if dim.0 == 0 || dim.1 == 0 || dim.2 == 0 {
        return Err(FieldError::InvalidDimensions);
    }
    let n = lattice_cell_count(dim);
    let data = seeded_levels(seed, UNIT, n);
    ScalarField::from_samples(dim, data)
}

/// Seeded generation is reproducible: two fields generated from the same seed
/// and the same dimensions have the same dimensions and the same samples.
pub proof fn lemma_seeded_generation_reproducible(
    seed: u64,
    dim: (usize, usize, usize),
    first: ScalarField,
    second: ScalarField,
)
    requires
        seeded_field(seed, dim, first),
        seeded_field(seed, dim, second),
    ensures
        first.dims() == second.dims(),
        first.samples() == second.samples(),
{
}

} // verus!
