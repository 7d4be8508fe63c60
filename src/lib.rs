//! A scalar field sampled on a regular 3D lattice over the unit cube, the
//! random generator that fills it, and the colour map used to tint the
//! iso-surfaces extracted from it.
//!
//! Values in [0, 1] (samples, coordinates, iso-values) are held in fixed point:
//! the integer `k` stands for `k / UNIT`.

pub mod colormap;
pub mod field;
pub mod generate;

pub use colormap::{custom_color, Color, UNIT};
pub use field::{lattice_index, FieldError, ScalarField};
pub use generate::{generate_scalar_field, generate_scalar_field_seeded};
