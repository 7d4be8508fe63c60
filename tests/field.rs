use isofield::{
    custom_color, generate_scalar_field, generate_scalar_field_seeded, lattice_index, Color,
    FieldError, ScalarField, UNIT,
};

const HALF: u32 = UNIT / 2;

fn to_fixed(v: f32) -> u32 {
    (v * UNIT as f32) as u32
}

fn to_unit_f32(v: u32) -> f32 {
    v as f32 / UNIT as f32
}

fn counting_field() -> ScalarField {
    let data: Vec<u32> = (0..8u32).collect();
    ScalarField::from_samples((2, 2, 2), data).unwrap()
}

#[test]
fn color_at_zero_is_red() {
    assert_eq!(custom_color(0), Color { r: UNIT, g: 0, b: 0 });
}

#[test]
fn color_at_one_is_green() {
    assert_eq!(custom_color(UNIT), Color { r: 0, g: UNIT, b: 0 });
}

#[test]
fn color_at_half_is_even_mix() {
    let c = custom_color(HALF);
    assert_eq!(c, Color { r: HALF, g: HALF, b: 0 });
    assert_eq!((to_unit_f32(c.r), to_unit_f32(c.g), to_unit_f32(c.b)), (0.5, 0.5, 0.0));
}

#[test]
fn color_at_quarter() {
    assert_eq!(custom_color(UNIT / 4), Color { r: 3 * (UNIT / 4), g: UNIT / 4, b: 0 });
}

#[test]
fn generate_fills_every_cell_within_unit() {
    let f = generate_scalar_field((3, 4, 5)).unwrap();
    assert_eq!(f.dimensions(), (3, 4, 5));
    assert_eq!(f.data().len(), 60);
    assert!(f.data().iter().all(|&v| v <= UNIT));
}

#[test]
fn generate_single_cell() {
    let f = generate_scalar_field((1, 1, 1)).unwrap();
    assert_eq!(f.data().len(), 1);
    assert!(f.data()[0] <= UNIT);
}

#[test]
fn generate_draws_are_not_all_the_bound() {
    let f = generate_scalar_field((8, 8, 8)).unwrap();
    assert!(f.data().iter().any(|&v| v != UNIT));
    assert!(f.data().iter().any(|&v| v != f.data()[0]));
}

#[test]
fn generate_rejects_zero_dimensions() {
    assert_eq!(generate_scalar_field((0, 2, 2)).err(), Some(FieldError::InvalidDimensions));
    assert_eq!(generate_scalar_field((2, 0, 2)).err(), Some(FieldError::InvalidDimensions));
    assert_eq!(generate_scalar_field((2, 2, 0)).err(), Some(FieldError::InvalidDimensions));
}

#[test]
fn seeded_generation_is_reproducible() {
    let a = generate_scalar_field_seeded((4, 3, 2), 42).unwrap();
    let b = generate_scalar_field_seeded((4, 3, 2), 42).unwrap();
    assert_eq!(a.dimensions(), b.dimensions());
    assert_eq!(a.data(), b.data());
    assert_eq!(a.data().len(), 24);
    assert!(a.data().iter().all(|&v| v <= UNIT));
}

#[test]
fn seeded_generation_depends_on_the_seed() {
    let a = generate_scalar_field_seeded((4, 3, 2), 1).unwrap();
    let b = generate_scalar_field_seeded((4, 3, 2), 2).unwrap();
    assert_ne!(a.data(), b.data());
    assert!(a.data().iter().any(|&v| v != UNIT));
    assert!(a.data().iter().any(|&v| v != a.data()[0]));
}

#[test]
fn seeded_generation_rejects_zero_dimensions() {
    assert_eq!(
        generate_scalar_field_seeded((0, 1, 1), 7).err(),
        Some(FieldError::InvalidDimensions)
    );
}

#[test]
fn from_samples_rejects_zero_dimensions() {
    assert_eq!(
        ScalarField::from_samples((1, 0, 1), vec![]).err(),
        Some(FieldError::InvalidDimensions)
    );
}

#[test]
fn from_samples_rejects_wrong_count() {
    assert_eq!(
        ScalarField::from_samples((2, 2, 2), vec![0; 7]).err(),
        Some(FieldError::SampleCountMismatch)
    );
    assert_eq!(
        ScalarField::from_samples((usize::MAX, 2, 1), vec![0; 2]).err(),
        Some(FieldError::SampleCountMismatch)
    );
}

#[test]
fn from_samples_rejects_value_above_one() {
    let mut data = vec![HALF; 8];
    data[5] = UNIT + 1;
    assert_eq!(
        ScalarField::from_samples((2, 2, 2), data).err(),
        Some(FieldError::SampleOutOfRange)
    );
}

#[test]
fn from_samples_keeps_order() {
    let f = counting_field();
    assert_eq!(f.dimensions(), (2, 2, 2));
    assert_eq!(f.data(), &(0..8u32).collect::<Vec<u32>>());
}

#[test]
fn lattice_index_is_floor_of_product() {
    assert_eq!(lattice_index(0, 1), 0);
    assert_eq!(lattice_index(HALF, 26), 13);
    assert_eq!(lattice_index(1_000_000, 26), 1);
    assert_eq!(lattice_index(UNIT - 1, 26), 25);
}

#[test]
fn lattice_index_clamps_at_and_beyond_one() {
    assert_eq!(lattice_index(UNIT, 26), 25);
    assert_eq!(lattice_index(u32::MAX, 26), 25);
    assert_eq!(lattice_index(UNIT, 1), 0);
}

#[test]
fn sample_follows_storage_order() {
    let f = counting_field();
    assert_eq!(f.sample(0, 0, 0), 0);
    assert_eq!(f.sample(HALF, 0, 0), 1);
    assert_eq!(f.sample(0, HALF, 0), 2);
    assert_eq!(f.sample(0, 0, HALF), 4);
    assert_eq!(f.sample(HALF, HALF, 0), 3);
}

#[test]
fn sample_near_one_reads_last_cell() {
    let f = counting_field();
    assert_eq!(f.sample(UNIT - 1, UNIT - 1, UNIT - 1), 7);
    let near = to_fixed(1.0 - 1e-6);
    assert_eq!(f.sample(near, near, near), 7);
    assert_eq!(f.sample(UNIT, UNIT, UNIT), 7);
    assert_eq!(f.sample(u32::MAX, u32::MAX, u32::MAX), 7);
}

#[test]
fn sample_in_unit_cube_stays_in_lattice() {
    let f = generate_scalar_field_seeded((3, 5, 7), 9).unwrap();
    let coords = [0.0f32, 0.1, 0.33, 0.5, 0.75, 0.999];
    for &x in coords.iter() {
        for &y in coords.iter() {
            for &z in coords.iter() {
                let (ix, iy, iz) = (
                    (x * 3.0) as usize,
                    (y * 5.0) as usize,
                    (z * 7.0) as usize,
                );
                let expected = f.data()[ix + iy * 3 + iz * 15];
                assert_eq!(f.sample(to_fixed(x), to_fixed(y), to_fixed(z)), expected);
            }
        }
    }
}

#[test]
fn constant_half_field_end_to_end() {
    let f = ScalarField::from_samples((2, 2, 2), vec![HALF; 8]).unwrap();
    let coords = [0.0f32, 0.25, 0.5, 0.75, 0.99];
    for &x in coords.iter() {
        for &y in coords.iter() {
            for &z in coords.iter() {
                let v = f.sample(to_fixed(x), to_fixed(y), to_fixed(z));
                assert_eq!(to_unit_f32(v), 0.5);
            }
        }
    }
    let c = custom_color(HALF);
    assert_eq!((to_unit_f32(c.r), to_unit_f32(c.g), to_unit_f32(c.b)), (0.5, 0.5, 0.0));
}
