use fluidsim::fixed::ONE;
use fluidsim::fluid::{wrap_index, Cell, Fluid, FluidError, DEFAULT_SWEEPS, MAX_SIZE};

#[test]
fn wrap_basics() {
    assert_eq!(wrap_index(0, 4), 0);
    assert_eq!(wrap_index(3, 4), 3);
    assert_eq!(wrap_index(4, 4), 0);
    assert_eq!(wrap_index(7, 4), 3);
    assert_eq!(wrap_index(-1, 4), 3);
    assert_eq!(wrap_index(-5, 4), 3);
    assert_eq!(wrap_index(0, 1), 0);
    assert_eq!(wrap_index(-100, 1), 0);
}

#[test]
fn wrap_periodic() {
    for n in [1usize, 3, 4, 7, 200] {
        for i in -10..10isize {
            for k in -3..3isize {
                assert_eq!(wrap_index(i + k * n as isize, n), wrap_index(i, n));
            }
        }
    }
}

#[test]
fn neighbor_periodic() {
    let mut f = Fluid::new(0, 0, 4).unwrap();
    for (m, c) in f.cells.iter_mut().enumerate() {
        c.density = m as i64;
    }
    for i in -8..8i64 {
        for j in -8..8i64 {
            for k in -2..2i64 {
                for l in -2..2i64 {
                    assert_eq!(f.neighbor(i + k * 4, j + l * 4), f.neighbor(i, j));
                }
            }
        }
    }
}

#[test]
fn new_rejects_degenerate_grid() {
    assert_eq!(Fluid::new(1, 2, 0).unwrap_err(), FluidError::InvalidConfiguration);
    assert_eq!(Fluid::new(0, 0, MAX_SIZE + 1).unwrap_err(), FluidError::InvalidConfiguration);
}

#[test]
fn new_builds_zeroed_grid() {
    let f = Fluid::new(7, -3, 5).unwrap();
    assert_eq!(f.size, 5);
    assert_eq!(f.diffusion, 7);
    assert_eq!(f.viscosity, -3);
    assert_eq!(f.sweeps, DEFAULT_SWEEPS);
    assert_eq!(f.cells.len(), 25);
    assert_eq!(f.prev_cells.len(), 25);
    for i in 0..5 {
        for j in 0..5 {
            assert_eq!(f.neighbor(i, j), Cell::zero());
        }
    }
}

#[test]
fn set_cell_wraps() {
    let mut f = Fluid::new(0, 0, 4).unwrap();
    let c = Cell { density: 10, vx: -4, vy: 9 };
    f.set_cell(5, -1, c);
    assert_eq!(f.neighbor(1, 3), c);
    assert_eq!(f.neighbor(5, -1), c);
    assert_eq!(f.neighbor(-3, 7), c);
    assert_eq!(f.neighbor(1, 1), Cell::zero());
}

#[test]
fn density_image_clamps_and_transposes() {
    let mut f = Fluid::new(0, 0, 3).unwrap();
    let d = |density: i64| Cell { density, vx: 0, vy: 0 };
    f.set_cell(1, 0, d(ONE)); // full brightness
    f.set_cell(0, 1, d(ONE / 2)); // half, truncated to 127
    f.set_cell(2, 2, d(-ONE)); // clamped up to 0
    f.set_cell(2, 0, d(10 * ONE)); // clamped down to full
    let img = f.density_image();
    assert_eq!(img.len(), 9);
    // the row index varies fastest: cell (i, j) lands at j*size + i
    assert_eq!(img[0 * 3 + 1], 255);
    assert_eq!(img[1 * 3 + 0], 127);
    assert_eq!(img[2 * 3 + 2], 0);
    assert_eq!(img[0 * 3 + 2], 255);
    assert_eq!(img[0], 0);
}
