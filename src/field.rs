use vstd::prelude::*;

use crate::colormap::UNIT;

verus! {

/// Why a field could not be built.
#[derive(Clone, Copy, Debug, PartialEq, Eq, Structural)]
pub enum FieldError {
    /// One of the lattice dimensions is zero.
    InvalidDimensions,
    /// The number of samples is not `nx * ny * nz`.
    SampleCountMismatch,
    /// A sample lies above 1.0.
    SampleOutOfRange,
}

/// Every dimension of the lattice is positive.
pub open spec fn dims_valid(dim: (usize, usize, usize)) -> bool {
    dim.0 > 0 && dim.1 > 0 && dim.2 > 0
}

/// The number of lattice cells, `nx * ny * nz`.
pub open spec fn cell_count(dim: (usize, usize, usize)) -> int {
    dim.0 * dim.1 * dim.2
}

/// Every sample is a fixed-point value in [0, 1].
pub open spec fn samples_in_unit(s: Seq<u32>) -> bool {
    forall|i: int| 0 <= i < s.len() ==> #[trigger] s[i] <= UNIT
}

/// The lattice index along one axis for the fixed-point coordinate `coord`:
/// `floor(coord * dim)`, clamped to `dim - 1`.
pub open spec fn cell_of(coord: int, dim: int) -> int {
    let raw = coord * dim / (UNIT as int);
    if raw < dim - 1 {
        raw
    } else {
        dim - 1
    }
}

/// Where the cell `(ix, iy, iz)` is stored: x varies fastest, then y, then z.
pub open spec fn flat_index(ix: int, iy: int, iz: int, nx: int, ny: int) -> int {
    ix + iy * nx + iz * (nx * ny)
}

/// The storage index of the cell that holds the point `(x, y, z)`.
pub open spec fn point_index(dim: (usize, usize, usize), x: int, y: int, z: int) -> int {
    flat_index(
        cell_of(x, dim.0 as int),
        cell_of(y, dim.1 as int),
        cell_of(z, dim.2 as int),
        dim.0 as int,
        dim.1 as int,
    )
}

proof fn lemma_flat_index_bounds(ix: int, iy: int, iz: int, nx: int, ny: int, nz: int)
    requires
        0 <= ix < nx,
        0 <= iy < ny,
        0 <= iz < nz,
    ensures
        0 <= ix + iy * nx < nx * ny,
        0 <= flat_index(ix, iy, iz, nx, ny) < nx * ny * nz,
{
    assert(0 <= ix + iy * nx < nx * ny) by (nonlinear_arith)
        requires
            0 <= ix < nx,
            0 <= iy < ny,
    {
        assert(ix + iy * nx < nx + iy * nx);
        assert(nx + iy * nx == (iy + 1) * nx);
        assert((iy + 1) * nx <= ny * nx);
    }
    assert(0 <= ix + iy * nx + iz * (nx * ny) < nx * ny * nz) by (nonlinear_arith)
        requires
            0 <= ix + iy * nx < nx * ny,
            0 <= iz < nz,
    {
        assert(ix + iy * nx + iz * (nx * ny) < (iz + 1) * (nx * ny));
        assert((iz + 1) * (nx * ny) <= nz * (nx * ny));
    }
}

proof fn lemma_cell_of_bounds(coord: int, dim: int)
    requires
        coord >= 0,
        dim > 0,
    ensures
        0 <= cell_of(coord, dim) < dim,
{
    assert(coord * dim >= 0) by (nonlinear_arith)
        requires
            coord >= 0,
            dim > 0,
    ;
}

/// The lattice index along an axis of `dim` cells for the fixed-point
/// coordinate `coord`: `floor(coord * dim)`, clamped so that a coordinate of
/// 1.0 or more lands in the last cell.
pub fn lattice_index(coord: u32, dim: usize) -> (i: usize)
    requires
        dim > 0,
    ensures
        i == cell_of(coord as int, dim as int),
        i < dim,
{
    proof {
        lemma_cell_of_bounds(coord as int, dim as int);
        assert((coord as int) * (dim as int) <= u32::MAX * usize::MAX) by (nonlinear_arith)
            requires
                coord <= u32::MAX,
                dim <= usize::MAX,
        ;
    }
    let wide: u128 = (coord as u128) * (dim as u128);
    let raw: u128 = wide / (UNIT as u128);
    if raw < (dim - 1) as u128 {
        raw as usize
    } else {
        dim - 1
    }
}

/// A scalar field over the unit cube, stored as one fixed-point sample per
/// cell of an `nx * ny * nz` lattice.
pub struct ScalarField {
    data: Vec<u32>,
    dimensions: (usize, usize, usize),
}

impl ScalarField {
    /// The lattice dimensions `(nx, ny, nz)`.
    pub closed spec fn dims(&self) -> (usize, usize, usize) {
        self.dimensions
    }

    /// The samples, indexed by `x + y * nx + z * nx * ny`.
    pub closed spec fn samples(&self) -> Seq<u32> {
        self.data@
    }

    /// Positive dimensions, one sample per cell, every sample in [0, 1].
    pub open spec fn wf(&self) -> bool {
        &&& dims_valid(self.dims())
        &&& self.samples().len() == cell_count(self.dims())
        &&& samples_in_unit(self.samples())
    }

    /// The value read at the fixed-point point `(x, y, z)`.
    pub open spec fn value_at(&self, x: int, y: int, z: int) -> u32 {
        self.samples()[point_index(self.dims(), x, y, z)]
    }

    /// Builds a field from its dimensions and its samples, in storage order.
    pub fn from_samples(dim: (usize, usize, usize), data: Vec<u32>) -> (r: Result<
        ScalarField,
        FieldError,
    >)
        ensures
            !dims_valid(dim) ==> r == Err::<ScalarField, FieldError>(FieldError::InvalidDimensions),
            dims_valid(dim) && data@.len() != cell_count(dim) ==> r == Err::<
                ScalarField,
                FieldError,
            >(FieldError::SampleCountMismatch),
            dims_valid(dim) && data@.len() == cell_count(dim) && !samples_in_unit(data@) ==> r
                == Err::<ScalarField, FieldError>(FieldError::SampleOutOfRange),
            dims_valid(dim) && data@.len() == cell_count(dim) && samples_in_unit(data@) ==> r is Ok,
            r is Ok ==> r->Ok_0.wf() && r->Ok_0.dims() == dim && r->Ok_0.samples() == data@,
    {
        let (nx, ny, nz) = dim;
        if nx == 0 || ny == 0 || nz == 0 {
            return Err(FieldError::InvalidDimensions);
        }
        let len = data.len();
        let count = match nx.checked_mul(ny) {
            Some(plane) => plane.checked_mul(nz),
            None => None,
        };
        match count {
            None => {
                proof {
                    lemma_count_exceeds(nx as int, ny as int, nz as int);
                }
                return Err(FieldError::SampleCountMismatch);
            },
            Some(n) => {
                assert(n == cell_count(dim));
                if len != n {
                    return Err(FieldError::SampleCountMismatch);
                }
            },
        }
        let mut i: usize = 0;
        while i < data.len()
            invariant
                dims_valid(dim),
                data@.len() == cell_count(dim),
                i <= data@.len(),
                forall|j: int| 0 <= j < i ==> #[trigger] data@[j] <= UNIT,
            decreases data@.len() - i,
        {
            if data[i] > UNIT {
                return Err(FieldError::SampleOutOfRange);
            }
            i = i + 1;
        }
        Ok(ScalarField { data, dimensions: dim })
    }

    /// The lattice dimensions `(nx, ny, nz)`.
    pub fn dimensions(&self) -> (r: (usize, usize, usize))
        ensures
            r == self.dims(),
    {
        self.dimensions
    }

    /// The samples in storage order.
    pub fn data(&self) -> (r: &Vec<u32>)
        ensures
            r@ == self.samples(),
    {
        &self.data
    }

    /// The sample of the cell that holds the fixed-point point `(x, y, z)`.
    /// Each coordinate is turned into a lattice index by `lattice_index`, so a
    /// coordinate of 1.0 or more reads the last cell along its axis.
    pub fn sample(&self, x: u32, y: u32, z: u32) -> (v: u32)
        requires
            self.wf(),
        ensures
            v == self.value_at(x as int, y as int, z as int),
            v <= UNIT,
    {
        let (nx, ny, nz) = self.dimensions;
        let total = self.data.len();
        let ix = lattice_index(x, nx);
        let iy = lattice_index(y, ny);
        let iz = lattice_index(z, nz);
        proof {
            lemma_flat_index_bounds(ix as int, iy as int, iz as int, nx as int, ny as int, nz as int);
            lemma_plane_fits(nx as int, ny as int, nz as int);
            assert(nx * ny <= total);
            assert(iz * (nx * ny) <= flat_index(ix as int, iy as int, iz as int, nx as int, ny as int)) by (nonlinear_arith)
                requires
                    ix >= 0,
                    iy >= 0,
                    nx >= 0,
            ;
        }
        let plane = nx * ny;
        self.data[ix + iy * nx + iz * plane]
    }
}

/// Every point is read from a cell of the lattice: the storage index lies in
/// `[0, nx * ny * nz)`. For coordinates in [0, 1) no clamping takes place: the
/// lattice index along each axis is exactly `floor(coord * dim)`.
pub proof fn lemma_sample_within_lattice(field: ScalarField, x: u32, y: u32, z: u32)
    requires
        field.wf(),
    ensures
        0 <= point_index(field.dims(), x as int, y as int, z as int) < cell_count(field.dims()),
        x < UNIT ==> cell_of(x as int, field.dims().0 as int) == x * field.dims().0 / (UNIT as int),
        y < UNIT ==> cell_of(y as int, field.dims().1 as int) == y * field.dims().1 / (UNIT as int),
        z < UNIT ==> cell_of(z as int, field.dims().2 as int) == z * field.dims().2 / (UNIT as int),
{
    let (nx, ny, nz) = field.dims();
    lemma_cell_of_bounds(x as int, nx as int);
    lemma_cell_of_bounds(y as int, ny as int);
    lemma_cell_of_bounds(z as int, nz as int);
    lemma_flat_index_bounds(
        cell_of(x as int, nx as int),
        cell_of(y as int, ny as int),
        cell_of(z as int, nz as int),
        nx as int,
        ny as int,
        nz as int,
    );
    lemma_below_one_unclamped(x as int, nx as int);
    lemma_below_one_unclamped(y as int, ny as int);
    lemma_below_one_unclamped(z as int, nz as int);
}

proof fn lemma_below_one_unclamped(coord: int, dim: int)
    requires
        dim > 0,
    ensures
        0 <= coord < UNIT ==> cell_of(coord, dim) == coord * dim / (UNIT as int),
{
    if 0 <= coord < UNIT {
        let u = UNIT as int;
        assert(coord * dim < dim * u) by (nonlinear_arith)
            requires
                0 <= coord < u,
                dim > 0,
        ;
        assert(coord * dim / u <= dim - 1) by (nonlinear_arith)
            requires
                coord * dim < dim * u,
                u > 0,
                dim > 0,
        ;
    }
}

proof fn lemma_last_cell(coord: int, dim: int)
    requires
        dim > 0,
        coord * dim >= (dim - 1) * (UNIT as int),
    ensures
        cell_of(coord, dim) == dim - 1,
{
    let u = UNIT as int;
    assert(coord * dim / u >= dim - 1) by (nonlinear_arith)
        requires
            coord * dim >= (dim - 1) * u,
            u > 0,
    ;
}

/// A point whose every coordinate is within one cell width of 1.0 (that is,
/// `coord >= 1 - 1 / dim`, which includes 1.0 and anything above it) is read
/// from the last cell of the lattice, the last sample in storage.
pub proof fn lemma_sample_near_one_reads_last(field: ScalarField, x: u32, y: u32, z: u32)
    requires
        field.wf(),
        x * field.dims().0 >= (field.dims().0 - 1) * (UNIT as int),
        y * field.dims().1 >= (field.dims().1 - 1) * (UNIT as int),
        z * field.dims().2 >= (field.dims().2 - 1) * (UNIT as int),
    ensures
        point_index(field.dims(), x as int, y as int, z as int) == cell_count(field.dims()) - 1,
        field.value_at(x as int, y as int, z as int) == field.samples().last(),
{
    let (nx, ny, nz) = field.dims();
    lemma_last_cell(x as int, nx as int);
    lemma_last_cell(y as int, ny as int);
    lemma_last_cell(z as int, nz as int);
    let (a, b, c) = (nx as int, ny as int, nz as int);
    assert((a - 1) + (b - 1) * a + (c - 1) * (a * b) == a * b * c - 1) by (nonlinear_arith);
}

proof fn lemma_count_exceeds(nx: int, ny: int, nz: int)
    requires
        nx > 0,
        ny > 0,
        nz > 0,
        nx * ny > usize::MAX || nx * ny * nz > usize::MAX,
    ensures
        nx * ny * nz > usize::MAX,
{
    assert(nx * ny * nz >= nx * ny) by (nonlinear_arith)
        requires
            nx > 0,
            ny > 0,
            nz > 0,
    ;
}

pub(crate) proof fn lemma_plane_fits(nx: int, ny: int, nz: int)
    requires
        nx > 0,
        ny > 0,
        nz > 0,
    ensures
        nx * ny <= nx * ny * nz,
{
    assert(nx * ny <= nx * ny * nz) by (nonlinear_arith)
        requires
            nx > 0,
            ny > 0,
            nz > 0,
    ;
}

} // verus!
