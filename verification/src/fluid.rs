//! The solver state and its three stages: diffusion, projection, advection.
//!
//! The field lives on a fixed `N`-by-`N` toroidal grid of cells stored in
//! row-major order. Every stage is specified by a spec-level model of the
//! exact sequence of fixed-point operations it performs, so the executable
//! code is proved to compute precisely that sequence.

use vstd::prelude::*;
use vstd::arithmetic::div_mod::lemma_fundamental_div_mod;
use vstd::arithmetic::div_mod::lemma_fundamental_div_mod_converse_div;
use vstd::arithmetic::div_mod::lemma_fundamental_div_mod_converse_mod;
use vstd::arithmetic::div_mod::lemma_mod_multiples_vanish;
use crate::fixed::ONE;
use crate::fixed::HALF;
use crate::fixed::QUARTER;
use crate::fixed::FOUR;
use crate::fixed::fix_add;
use crate::fixed::fix_sub;
use crate::fixed::fix_mul;
use crate::fixed::fix_div;
use crate::fixed::fadd;
use crate::fixed::fsub;
use crate::fixed::fmul;
use crate::fixed::fdiv;
use crate::fixed::from_int;
use crate::fixed::floor_fix;

verus! {

/// Largest accepted grid side length; keeps every index computation and the
/// `dt * coefficient * N^2` scaling inside the fixed-point range.
pub const MAX_SIZE: usize = 16384;

/// Fixed relaxation budget of the diffusion and projection stages: a cost
/// bound, not an adaptive tolerance.
pub const DEFAULT_SWEEPS: usize = 20;

/// One grid sample: a density and the two components of a velocity vector,
/// all fixed-point scalars.
#[derive(Clone, Copy, Debug, PartialEq, Eq, Structural)]
pub struct Cell {
    pub density: i64,
    pub vx: i64,
    pub vy: i64,
}

impl Cell {
    /// All three channels are zero.
    pub open spec fn is_zero(self) -> bool {
        self.density == 0 && self.vx == 0 && self.vy == 0
    }

    /// The all-zero sample.
    pub fn zero() -> (c: Cell)
        ensures
            c == (Cell { density: 0, vx: 0, vy: 0 }),
    {
        Cell { density: 0, vx: 0, vy: 0 }
    }
}

/// Construction is the only fallible operation of the solver.
#[derive(Clone, Copy, Debug, PartialEq, Eq, Structural)]
pub enum FluidError {
    /// The grid side length is 0 (every neighbor of the single degenerate
    /// cell would wrap to itself) or beyond [`MAX_SIZE`].
    InvalidConfiguration,
}

/// Every cell of the sequence is all-zero.
pub open spec fn all_zero(cells: Seq<Cell>) -> bool {
    forall|k: int| 0 <= k < cells.len() ==> cells[k].is_zero()
}

/// Row-major linear index of toroidally wrapped coordinates `(i, j)` on an
/// `n`-by-`n` grid.
pub open spec fn widx(n: int, i: int, j: int) -> int {
    (i % n) * n + (j % n)
}

/// The cell at wrapped coordinates `(i, j)`.
pub open spec fn nb(cells: Seq<Cell>, n: int, i: int, j: int) -> Cell {
    cells[widx(n, i, j)]
}

/// Euclidean remainder of `v` modulo `m`.
fn emod64(v: i64, m: u64) -> (r: u64)
    requires
        0 < m,
    ensures
        r == (v as int) % (m as int),
        r < m,
{
    if v >= 0 {
        (v as u64) % m
    } else {
        let neg: u64 = (-(v as i128)) as u64;
        let rm: u64 = neg % m;
        proof {
            lemma_fundamental_div_mod(neg as int, m as int);
        }
        let ghost q = (neg as int) / (m as int);
        if rm == 0 {
            proof {
                assert(v as int == (-q) * (m as int) + 0) by (nonlinear_arith)
                    requires
                        neg as int == (m as int) * q + (rm as int),
                        v as int == -(neg as int),
                        rm == 0,
                ;
                lemma_fundamental_div_mod_converse_mod(v as int, m as int, -q, 0);
            }
            0
        } else {
            proof {
                assert(v as int == (-q - 1) * (m as int) + ((m as int) - (rm as int))) by (nonlinear_arith)
                    requires
                        neg as int == (m as int) * q + (rm as int),
                        v as int == -(neg as int),
                ;
                lemma_fundamental_div_mod_converse_mod(
                    v as int,
                    m as int,
                    -q - 1,
                    (m as int) - (rm as int),
                );
            }
            m - rm
        }
    }
}

/// Map any signed index into `[0, size)` by toroidal wrapping: the sole
/// boundary policy of the grid. The result is the Euclidean remainder of
/// `index` modulo `size`.
pub fn wrap_index(index: isize, size: usize) -> (r: usize)
    requires
        0 < size,
    ensures
        r == (index as int) % (size as int),
        r < size,
{
    emod64(index as i64, size as u64) as usize
}

/// Shifting either coordinate by any whole number of grid periods selects
/// the same cell: `nb(i + k*n, j + l*n) == nb(i, j)`.
pub proof fn lemma_neighbor_periodic(cells: Seq<Cell>, n: int, i: int, j: int, k: int, l: int)
    requires
        n > 0,
    ensures
        nb(cells, n, i + k * n, j + l * n) == nb(cells, n, i, j),
{
    assert(i + k * n == n * k + i) by (nonlinear_arith);
    assert(j + l * n == n * l + j) by (nonlinear_arith);
    lemma_mod_multiples_vanish(k, i, n);
    lemma_mod_multiples_vanish(l, j, n);
}

/// Read the cell at wrapped coordinates `(i, j)`.
fn get_cell(cells: &Vec<Cell>, size: usize, i: i64, j: i64) -> (c: Cell)
    requires
        0 < size <= MAX_SIZE,
        cells@.len() == size * size,
    ensures
        c == nb(cells@, size as int, i as int, j as int),
{
    let x: usize = emod64(i, size as u64) as usize;
    let y: usize = emod64(j, size as u64) as usize;
    proof {
        assert((x as int) * (size as int) + (y as int) < (size as int) * (size as int)
            && (size as int) * (size as int) <= 0x1000_0000) by (nonlinear_arith)
            requires
                (x as int) < (size as int),
                (y as int) < (size as int),
                0 < (size as int) && (size as int) <= 16384,
        ;
    }
    cells[x * size + y]
}

/// Read the scratch scalar at wrapped coordinates `(i, j)`.
fn get_scalar(s: &Vec<i64>, size: usize, i: i64, j: i64) -> (r: i64)
    requires
        0 < size <= MAX_SIZE,
        s@.len() == size * size,
    ensures
        r == sc(s@, size as int, i as int, j as int),
{
    let x: usize = emod64(i, size as u64) as usize;
    let y: usize = emod64(j, size as u64) as usize;
    proof {
        assert((x as int) * (size as int) + (y as int) < (size as int) * (size as int)
            && (size as int) * (size as int) <= 0x1000_0000) by (nonlinear_arith)
            requires
                (x as int) < (size as int),
                (y as int) < (size as int),
                0 < (size as int) && (size as int) <= 16384,
        ;
    }
    s[x * size + y]
}

/// A vector of `n` all-zero cells.
fn zero_cells(n: usize) -> (v: Vec<Cell>)
    ensures
        v@.len() == n,
        all_zero(v@),
{
    let mut v: Vec<Cell> = Vec::new();
    let mut i: usize = 0;
    while i < n
        invariant
            i <= n,
            v@.len() == i,
            all_zero(v@),
        decreases n - i,
    {
        v.push(Cell { density: 0, vx: 0, vy: 0 });
        i = i + 1;
    }
    v
}

/// A vector of `n` zero scalars.
fn zero_scalars(n: usize) -> (v: Vec<i64>)
    ensures
        v@.len() == n,
        forall|k: int| 0 <= k < n ==> v@[k] == 0,
{
    let mut v: Vec<i64> = Vec::new();
    let mut i: usize = 0;
    while i < n
        invariant
            i <= n,
            v@.len() == i,
            forall|k: int| 0 <= k < i ==> v@[k] == 0,
        decreases n - i,
    {
        v.push(0);
        i = i + 1;
    }
    v
}

/// Per-channel implicit coefficient of the diffusion stage:
/// `dt * coefficient * N^2`, evaluated left to right in fixed point.
pub open spec fn diff_coeff(dt: int, coeff: int, n: int) -> int {
    fix_mul(fix_mul(dt, coeff), n * n * (ONE as int))
}

/// One in-place relaxation update of the diffusion stage at cell `(x, y)`:
/// each channel becomes `(rhs + a * sum_of_4_axis_neighbors) / (1 + 4a)`,
/// reading neighbors from the buffer being written (`cur`).
pub open spec fn diffuse_cell(rhs: Cell, cur: Seq<Cell>, n: int, x: int, y: int, ad: int, av: int) -> Cell {
    let cl = nb(cur, n, x - 1, y);
    let cr = nb(cur, n, x + 1, y);
    let cu = nb(cur, n, x, y - 1);
    let cd = nb(cur, n, x, y + 1);
    let sd = fix_add(fix_add(fix_add(cl.density as int, cr.density as int), cu.density as int), cd.density as int);
    let sx = fix_add(fix_add(fix_add(cl.vx as int, cr.vx as int), cu.vx as int), cd.vx as int);
    let sy = fix_add(fix_add(fix_add(cl.vy as int, cr.vy as int), cu.vy as int), cd.vy as int);
    let dend = fix_add(ONE as int, fix_mul(FOUR as int, ad));
    let denv = fix_add(ONE as int, fix_mul(FOUR as int, av));
    Cell {
        density: fix_div(fix_add(rhs.density as int, fix_mul(ad, sd)), dend) as i64,
        vx: fix_div(fix_add(rhs.vx as int, fix_mul(av, sx)), denv) as i64,
        vy: fix_div(fix_add(rhs.vy as int, fix_mul(av, sy)), denv) as i64,
    }
}

/// The first `k` cell updates of one diffusion sweep, applied in row-major
/// (increasing-x-then-y) order, in place.
pub open spec fn diffuse_prefix(rhs: Seq<Cell>, cur: Seq<Cell>, n: int, ad: int, av: int, k: int) -> Seq<Cell>
    decreases k,
{
    if k <= 0 {
        cur
    } else {
        let c = diffuse_prefix(rhs, cur, n, ad, av, k - 1);
        c.update(k - 1, diffuse_cell(rhs[k - 1], c, n, (k - 1) / n, (k - 1) % n, ad, av))
    }
}

/// `s` full diffusion sweeps over the grid.
pub open spec fn diffuse_sweeps(rhs: Seq<Cell>, cur: Seq<Cell>, n: int, ad: int, av: int, s: int) -> Seq<Cell>
    decreases s,
{
    if s <= 0 {
        cur
    } else {
        diffuse_prefix(rhs, diffuse_sweeps(rhs, cur, n, ad, av, s - 1), n, ad, av, n * n)
    }
}

/// A scalar scratch value at wrapped coordinates `(i, j)`.
pub open spec fn sc(s: Seq<i64>, n: int, i: int, j: int) -> int {
    s[widx(n, i, j)] as int
}

/// The grid spacing `h = 1/N` in fixed point.
pub open spec fn grid_h(n: int) -> int {
    fix_div(ONE as int, n * (ONE as int))
}

/// Discrete divergence stored at `(x, y)`:
/// `-0.5 * h * ((vx(x+1,y) - vx(x-1,y)) + (vy(x,y+1) - vy(x,y-1)))`.
pub open spec fn div_at(cells: Seq<Cell>, n: int, h: int, x: int, y: int) -> int {
    fix_mul(
        fix_mul(-(HALF as int), h),
        fix_sub(
            fix_add(
                fix_sub(nb(cells, n, x + 1, y).vx as int, nb(cells, n, x - 1, y).vx as int),
                nb(cells, n, x, y + 1).vy as int,
            ),
            nb(cells, n, x, y - 1).vy as int,
        ),
    )
}

/// The divergence of the whole field, row-major.
pub open spec fn div_field(cells: Seq<Cell>, n: int, h: int) -> Seq<i64> {
    Seq::new((n * n) as nat, |k: int| div_at(cells, n, h, k / n, k % n) as i64)
}

/// The all-zero scalar scratch field.
pub open spec fn zero_scalar_seq(n: int) -> Seq<i64> {
    Seq::new((n * n) as nat, |k: int| 0i64)
}

/// One in-place update of the potential relaxation at cell `(x, y)`:
/// `0.25 * (div(x,y) + p(x-1,y) + p(x+1,y) + p(x,y-1) + p(x,y+1))`.
pub open spec fn pot_at(div: Seq<i64>, pot: Seq<i64>, n: int, x: int, y: int) -> int {
    fix_mul(
        QUARTER as int,
        fix_add(
            fix_add(
                fix_add(fix_add(div[x * n + y] as int, sc(pot, n, x - 1, y)), sc(pot, n, x + 1, y)),
                sc(pot, n, x, y - 1),
            ),
            sc(pot, n, x, y + 1),
        ),
    )
}

/// The first `k` cell updates of one potential relaxation sweep, row-major,
/// in place.
pub open spec fn pot_prefix(div: Seq<i64>, pot: Seq<i64>, n: int, k: int) -> Seq<i64>
    decreases k,
{
    if k <= 0 {
        pot
    } else {
        let p = pot_prefix(div, pot, n, k - 1);
        p.update(k - 1, pot_at(div, p, n, (k - 1) / n, (k - 1) % n) as i64)
    }
}

/// `s` full potential relaxation sweeps.
pub open spec fn pot_sweeps(div: Seq<i64>, pot: Seq<i64>, n: int, s: int) -> Seq<i64>
    decreases s,
{
    if s <= 0 {
        pot
    } else {
        pot_prefix(div, pot_sweeps(div, pot, n, s - 1), n, n * n)
    }
}

/// Subtract the potential's discrete gradient from a cell's velocity:
/// `velocity -= 0.5 * (p(x+1,y) - p(x-1,y), p(x,y+1) - p(x,y-1)) / h`.
/// Density is untouched by the projection stage.
pub open spec fn grad_cell(c: Cell, pot: Seq<i64>, n: int, h: int, x: int, y: int) -> Cell {
    let gx = fix_sub(sc(pot, n, x + 1, y), sc(pot, n, x - 1, y));
    let gy = fix_sub(sc(pot, n, x, y + 1), sc(pot, n, x, y - 1));
    Cell {
        density: c.density,
        vx: fix_sub(c.vx as int, fix_div(fix_mul(HALF as int, gx), h)) as i64,
        vy: fix_sub(c.vy as int, fix_div(fix_mul(HALF as int, gy), h)) as i64,
    }
}

/// The whole velocity field after gradient subtraction.
pub open spec fn project_cells(cells: Seq<Cell>, pot: Seq<i64>, n: int, h: int) -> Seq<Cell> {
    Seq::new(cells.len(), |k: int| grad_cell(cells[k], pot, n, h, k / n, k % n))
}

/// Backtraced, bilinearly blended sample written to target cell `(x, y)`:
/// the source point is `(x, y) - dtn * velocity(x, y)`; its four surrounding
/// corners are blended by the fractional offsets.
pub open spec fn advect_cell(prev: Seq<Cell>, n: int, dtn: int, x: int, y: int) -> Cell {
    let v = nb(prev, n, x, y);
    let sx = fix_sub(x * (ONE as int), fix_mul(dtn, v.vx as int));
    let sy = fix_sub(y * (ONE as int), fix_mul(dtn, v.vy as int));
    let lx = sx / (ONE as int);
    let ty = sy / (ONE as int);
    let rcf = sx % (ONE as int);
    let bcf = sy % (ONE as int);
    let lcf = fix_sub(ONE as int, rcf);
    let tcf = fix_sub(ONE as int, bcf);
    let tl = nb(prev, n, lx, ty);
    let tr = nb(prev, n, lx + 1, ty);
    let bl = nb(prev, n, lx, ty + 1);
    let br = nb(prev, n, lx + 1, ty + 1);
    Cell {
        density: fix_add(
            fix_mul(lcf, fix_add(fix_mul(tcf, tl.density as int), fix_mul(bcf, bl.density as int))),
            fix_mul(rcf, fix_add(fix_mul(tcf, tr.density as int), fix_mul(bcf, br.density as int))),
        ) as i64,
        vx: fix_add(
            fix_mul(lcf, fix_add(fix_mul(tcf, tl.vx as int), fix_mul(bcf, bl.vx as int))),
            fix_mul(rcf, fix_add(fix_mul(tcf, tr.vx as int), fix_mul(bcf, br.vx as int))),
        ) as i64,
        vy: fix_add(
            fix_mul(lcf, fix_add(fix_mul(tcf, tl.vy as int), fix_mul(bcf, bl.vy as int))),
            fix_mul(rcf, fix_add(fix_mul(tcf, tr.vy as int), fix_mul(bcf, br.vy as int))),
        ) as i64,
    }
}

/// The whole field transported along its own velocity.
pub open spec fn advect_field(prev: Seq<Cell>, n: int, dtn: int) -> Seq<Cell> {
    Seq::new(prev.len(), |k: int| advect_cell(prev, n, dtn, k / n, k % n))
}

/// The current cell buffer after a whole tick, per the stage models:
/// diffuse, project, advect, project, in that order.
pub open spec fn step_model(f: Fluid, dt: i64) -> Seq<Cell> {
    let n = f.size as int;
    let sw = f.sweeps as int;
    let h = grid_h(n);
    let ad = diff_coeff(dt as int, f.diffusion as int, n);
    let av = diff_coeff(dt as int, f.viscosity as int, n);
    let c1 = diffuse_sweeps(f.cells@, f.prev_cells@, n, ad, av, sw);
    let p1 = pot_sweeps(div_field(c1, n, h), zero_scalar_seq(n), n, sw);
    let c2 = project_cells(c1, p1, n, h);
    let c3 = advect_field(c2, n, fix_mul(dt as int, n * (ONE as int)));
    let p2 = pot_sweeps(div_field(c3, n, h), zero_scalar_seq(n), n, sw);
    project_cells(c3, p2, n, h)
}

/// The clamped single-channel byte a renderer reads for a density sample:
/// the density clamped to `[0, 1]`, scaled to `[0, 255]`, truncated.
pub open spec fn density_byte(d: int) -> int {
    let c = if d < 0 { 0 } else if d > ONE { ONE as int } else { d };
    (c * 255) / (ONE as int)
}

/// The solver state: coefficients, the grid side length, the relaxation
/// budget, the two cell buffers (current and previous/scratch), and the two
/// scalar scratch fields used by the projection stage.
///
/// Fields are public, as the surrounding simulation loop perturbs cells
/// directly between ticks; `wf` is the well-formedness every operation
/// requires and preserves (buffer lengths fixed at construction).
#[derive(Clone, Debug)]
pub struct Fluid {
    pub diffusion: i64,
    pub viscosity: i64,
    pub size: usize,
    pub sweeps: usize,
    pub cells: Vec<Cell>,
    pub prev_cells: Vec<Cell>,
    pub divergence: Vec<i64>,
    pub potential: Vec<i64>,
}

impl Fluid {
    /// Both cell buffers and both scratch fields are `size * size` long, and
    /// the side length is positive and bounded.
    pub open spec fn wf(self) -> bool {
        &&& 0 < self.size <= MAX_SIZE
        &&& self.cells@.len() == self.size * self.size
        &&& self.prev_cells@.len() == self.size * self.size
        &&& self.divergence@.len() == self.size * self.size
        &&& self.potential@.len() == self.size * self.size
    }

    /// Construct a solver with all cells zero. Rejects a degenerate or
    /// oversized grid; accepts any coefficients.
    pub fn new(diffusion: i64, viscosity: i64, size: usize) -> (r: Result<Fluid, FluidError>)
        ensures
            r is Ok <==> 0 < size <= MAX_SIZE,
            r is Err ==> r->Err_0 == FluidError::InvalidConfiguration,
            r is Ok ==> {
                let f = r->Ok_0;
                &&& f.wf()
                &&& f.size == size
                &&& f.diffusion == diffusion
                &&& f.viscosity == viscosity
                &&& f.sweeps == DEFAULT_SWEEPS
                &&& all_zero(f.cells@)
                &&& all_zero(f.prev_cells@)
            },
    {
        if size == 0 || size > MAX_SIZE {
            return Err(FluidError::InvalidConfiguration);
        }
        proof {
            assert((size as int) * (size as int) <= 0x1000_0000) by (nonlinear_arith)
                requires
                    0 < (size as int) && (size as int) <= 16384,
            ;
        }
        let n = size * size;
        Ok(Fluid {
            diffusion,
            viscosity,
            size,
            sweeps: DEFAULT_SWEEPS,
            cells: zero_cells(n),
            prev_cells: zero_cells(n),
            divergence: zero_scalars(n),
            potential: zero_scalars(n),
        })
    }

    /// Read the cell at toroidally wrapped coordinates `(i, j)`.
    pub fn neighbor(&self, i: i64, j: i64) -> (c: Cell)
        requires
            self.wf(),
        ensures
            c == nb(self.cells@, self.size as int, i as int, j as int),
    {
        get_cell(&self.cells, self.size, i, j)
    }

    /// Overwrite the cell at toroidally wrapped coordinates `(i, j)`: the
    /// mutable access used by external perturbation between ticks.
    pub fn set_cell(&mut self, i: i64, j: i64, c: Cell)
        requires
            old(self).wf(),
        ensures
            final(self).wf(),
            *final(self) == (Fluid {
                cells: final(self).cells,
                ..*old(self)
            }),
            final(self).cells@ == old(self).cells@.update(
                widx(old(self).size as int, i as int, j as int),
                c,
            ),
    {
        let size = self.size;
        let x: usize = emod64(i, size as u64) as usize;
        let y: usize = emod64(j, size as u64) as usize;
        proof {
            assert((x as int) * (size as int) + (y as int) < (size as int) * (size as int)
                && (size as int) * (size as int) <= 0x1000_0000) by (nonlinear_arith)
                requires
                    (x as int) < (size as int),
                    (y as int) < (size as int),
                    0 < (size as int) && (size as int) <= 16384,
            ;
        }
        self.cells.set(x * size + y, c);
    }

    /// Extract the density channel as a single-channel byte image in the
    /// order a column-major texture upload expects (the row index varies
    /// fastest): the read interface of the renderer, which never touches
    /// velocity.
    #[verifier::loop_isolation(false)]
    pub fn density_image(&self) -> (img: Vec<u8>)
        requires
            self.wf(),
        ensures
            img@.len() == self.size * self.size,
            forall|m: int| 0 <= m < img@.len() ==> img@[m] == density_byte(
                self.cells@[(m % (self.size as int)) * (self.size as int) + m / (self.size as int)].density as int,
            ),
    {
        let size = self.size;
        let ghost n = size as int;
        let mut img: Vec<u8> = Vec::new();
        let mut j: usize = 0;
        while j < size
            invariant
                j <= size,
                img@.len() == (j as int) * n,
                forall|m: int| 0 <= m < img@.len() ==> img@[m] == density_byte(
                    self.cells@[(m % n) * n + m / n].density as int,
                ),
            decreases size - j,
        {
            let mut i: usize = 0;
            while i < size
                invariant
                    i <= size,
                    j < size,
                    img@.len() == (j as int) * n + (i as int),
                    forall|m: int| 0 <= m < img@.len() ==> img@[m] == density_byte(
                        self.cells@[(m % n) * n + m / n].density as int,
                    ),
                decreases size - i,
            {
                proof {
                    assert((i as int) * (size as int) + (j as int) < (size as int) * (size as int)
                        && (j as int) * (size as int) + (i as int) < (size as int) * (size as int)
                        && (size as int) * (size as int) <= 0x1000_0000) by (nonlinear_arith)
                        requires
                            (i as int) < (size as int),
                            (j as int) < (size as int),
                            0 < (size as int) && (size as int) <= 16384,
                    ;
                }
                let d = self.cells[i * size + j].density;
                let c: i64 = if d < 0 {
                    0
                } else if d > ONE {
                    ONE
                } else {
                    d
                };
                let b: u8 = ((c as u64) * 255 / (ONE as u64)) as u8;
                proof {
                    let m = (j as int) * n + (i as int);
                    lemma_fundamental_div_mod_converse_div(m, n, j as int, i as int);
                    lemma_fundamental_div_mod_converse_mod(m, n, j as int, i as int);
                    assert((c as int) * 255 == (c as u64) as int * 255);
                    assert(b == density_byte(d as int));
                }
                img.push(b);
                i = i + 1;
            }
            proof {
                assert((j as int) * n + n == ((j as int) + 1) * n) by (nonlinear_arith);
            }
            j = j + 1;
        }
        proof {
            assert((size as int) * n == n * n);
        }
        img
    }

    /// The diffusion stage: swap the buffers, then run `sweeps` in-place
    /// relaxation sweeps with the pre-diffusion field as fixed right-hand
    /// side. Density spreads by the diffusion coefficient, velocity by the
    /// viscosity coefficient.
    #[verifier::loop_isolation(false)]
    pub fn diffuse(&mut self, dt: i64)
        requires
            old(self).wf(),
        ensures
            final(self).wf(),
            *final(self) == (Fluid {
                cells: final(self).cells,
                prev_cells: final(self).prev_cells,
                ..*old(self)
            }),
            final(self).prev_cells@ == old(self).cells@,
            final(self).cells@ == diffuse_sweeps(
                old(self).cells@,
                old(self).prev_cells@,
                old(self).size as int,
                diff_coeff(dt as int, old(self).diffusion as int, old(self).size as int),
                diff_coeff(dt as int, old(self).viscosity as int, old(self).size as int),
                old(self).sweeps as int,
            ),
    {
        let size = self.size;
        core::mem::swap(&mut self.cells, &mut self.prev_cells);
        proof {
            assert((size as int) * (size as int) <= 0x1000_0000) by (nonlinear_arith)
                requires
                    0 < (size as int) && (size as int) <= 16384,
            ;
        }
        let n2: i64 = (size * size) as i64;
        let nsq = from_int(n2);
        let ad = fmul(fmul(dt, self.diffusion), nsq);
        let av = fmul(fmul(dt, self.viscosity), nsq);
        let ghost n = size as int;
        let ghost rhs = self.prev_cells@;
        let ghost start = self.cells@;
        proof {
            assert(ad == diff_coeff(dt as int, self.diffusion as int, n));
            assert(av == diff_coeff(dt as int, self.viscosity as int, n));
        }
        let ghost self0 = *self;
        let sweeps = self.sweeps;
        let mut s: usize = 0;
        while s < sweeps
            invariant
                s <= sweeps,
                self.diffusion == self0.diffusion,
                self.viscosity == self0.viscosity,
                self.size == size,
                self.sweeps == self0.sweeps,
                self.divergence == self0.divergence,
                self.potential == self0.potential,
                self.prev_cells == self0.prev_cells,
                self.cells@.len() == size * size,
                self.cells@ == diffuse_sweeps(rhs, start, n, ad as int, av as int, s as int),
            decreases sweeps - s,
        {
            let ghost sweep0 = self.cells@;
            let mut x: usize = 0;
            while x < size
                invariant
                    x <= size,
                    self.diffusion == self0.diffusion,
                    self.viscosity == self0.viscosity,
                    self.size == size,
                    self.sweeps == self0.sweeps,
                    self.divergence == self0.divergence,
                    self.potential == self0.potential,
                    self.prev_cells == self0.prev_cells,
                    self.cells@.len() == size * size,
                    self.cells@ == diffuse_prefix(rhs, sweep0, n, ad as int, av as int, (x as int) * n),
                decreases size - x,
            {
                let mut y: usize = 0;
                while y < size
                    invariant
                        y <= size,
                        x < size,
                        self.diffusion == self0.diffusion,
                        self.viscosity == self0.viscosity,
                        self.size == size,
                        self.sweeps == self0.sweeps,
                        self.divergence == self0.divergence,
                        self.potential == self0.potential,
                        self.prev_cells == self0.prev_cells,
                        self.cells@.len() == size * size,
                        self.cells@ == diffuse_prefix(
                            rhs,
                            sweep0,
                            n,
                            ad as int,
                            av as int,
                            (x as int) * n + (y as int),
                        ),
                    decreases size - y,
                {
                    proof {
                        assert((x as int) * (size as int) + (y as int) < (size as int) * (size as int)
                            && (size as int) * (size as int) <= 0x1000_0000) by (nonlinear_arith)
                            requires
                                (x as int) < (size as int),
                                (y as int) < (size as int),
                                0 < (size as int) && (size as int) <= 16384,
                        ;
                    }
                    let i = x as i64;
                    let j = y as i64;
                    let cl = get_cell(&self.cells, size, i - 1, j);
                    let cr = get_cell(&self.cells, size, i + 1, j);
                    let cu = get_cell(&self.cells, size, i, j - 1);
                    let cd = get_cell(&self.cells, size, i, j + 1);
                    let k = x * size + y;
                    let rc = self.prev_cells[k];
                    let sd = fadd(fadd(fadd(cl.density, cr.density), cu.density), cd.density);
                    let sx = fadd(fadd(fadd(cl.vx, cr.vx), cu.vx), cd.vx);
                    let sy = fadd(fadd(fadd(cl.vy, cr.vy), cu.vy), cd.vy);
                    let dend = fadd(ONE, fmul(FOUR, ad));
                    let denv = fadd(ONE, fmul(FOUR, av));
                    let newc = Cell {
                        density: fdiv(fadd(rc.density, fmul(ad, sd)), dend),
                        vx: fdiv(fadd(rc.vx, fmul(av, sx)), denv),
                        vy: fdiv(fadd(rc.vy, fmul(av, sy)), denv),
                    };
                    proof {
                        lemma_fundamental_div_mod_converse_div(k as int, n, x as int, y as int);
                        lemma_fundamental_div_mod_converse_mod(k as int, n, x as int, y as int);
                        assert(newc == diffuse_cell(
                            rhs[k as int],
                            self.cells@,
                            n,
                            x as int,
                            y as int,
                            ad as int,
                            av as int,
                        ));
                    }
                    self.cells.set(k, newc);
                    proof {
                        assert(self.cells@ == diffuse_prefix(
                            rhs,
                            sweep0,
                            n,
                            ad as int,
                            av as int,
                            (x as int) * n + (y as int) + 1,
                        ));
                    }
                    y = y + 1;
                }
                proof {
                    assert((x as int) * n + n == ((x as int) + 1) * n) by (nonlinear_arith);
                }
                x = x + 1;
            }
            proof {
                assert((size as int) * n == n * n);
                assert(self.cells@ == diffuse_sweeps(rhs, start, n, ad as int, av as int, s as int + 1));
            }
            s = s + 1;
        }
    }

    /// The projection stage: compute the discrete divergence of the velocity
    /// field into the `divergence` scratch field, zero the `potential`
    /// scratch field, run `sweeps` in-place relaxation sweeps on the
    /// potential, and subtract its discrete gradient from the current
    /// velocity field. Density is untouched.
    #[verifier::loop_isolation(false)]
    pub fn project(&mut self)
        requires
            old(self).wf(),
        ensures
            final(self).wf(),
            *final(self) == (Fluid {
                cells: final(self).cells,
                divergence: final(self).divergence,
                potential: final(self).potential,
                ..*old(self)
            }),
            ({
                let n = old(self).size as int;
                let h = grid_h(n);
                let d = div_field(old(self).cells@, n, h);
                let p = pot_sweeps(d, zero_scalar_seq(n), n, old(self).sweeps as int);
                &&& final(self).divergence@ == d
                &&& final(self).potential@ == p
                &&& final(self).cells@ == project_cells(old(self).cells@, p, n, h)
            }),
    {
        let size = self.size;
        let ghost n = size as int;
        let ghost self0 = *self;
        let ghost cells0 = self.cells@;
        let h = fdiv(ONE, from_int(size as i64));
        proof {
            assert(h == grid_h(n));
        }
        let nh = -HALF;

        let mut x: usize = 0;
        while x < size
            invariant
                x <= size,
                self.diffusion == self0.diffusion,
                self.viscosity == self0.viscosity,
                self.size == size,
                self.sweeps == self0.sweeps,
                self.cells == self0.cells,
                self.prev_cells == self0.prev_cells,
                self.divergence@.len() == size * size,
                self.potential@.len() == size * size,
                forall|m: int| 0 <= m < (x as int) * n ==> self.divergence@[m]
                    == div_at(cells0, n, h as int, m / n, m % n) as i64,
                forall|m: int| 0 <= m < (x as int) * n ==> self.potential@[m] == 0i64,
            decreases size - x,
        {
            let mut y: usize = 0;
            while y < size
                invariant
                    y <= size,
                    x < size,
                    self.diffusion == self0.diffusion,
                    self.viscosity == self0.viscosity,
                    self.size == size,
                    self.sweeps == self0.sweeps,
                    self.cells == self0.cells,
                    self.prev_cells == self0.prev_cells,
                    self.divergence@.len() == size * size,
                    self.potential@.len() == size * size,
                    forall|m: int| 0 <= m < (x as int) * n + (y as int) ==> self.divergence@[m]
                        == div_at(cells0, n, h as int, m / n, m % n) as i64,
                    forall|m: int| 0 <= m < (x as int) * n + (y as int) ==> self.potential@[m] == 0i64,
                decreases size - y,
            {
                proof {
                    assert((x as int) * (size as int) + (y as int) < (size as int) * (size as int)
                        && (size as int) * (size as int) <= 0x1000_0000) by (nonlinear_arith)
                        requires
                            (x as int) < (size as int),
                            (y as int) < (size as int),
                            0 < (size as int) && (size as int) <= 16384,
                    ;
                }
                let i = x as i64;
                let j = y as i64;
                let cl = get_cell(&self.cells, size, i - 1, j);
                let cr = get_cell(&self.cells, size, i + 1, j);
                let cu = get_cell(&self.cells, size, i, j - 1);
                let cd = get_cell(&self.cells, size, i, j + 1);
                let k = x * size + y;
                let d = fmul(fmul(nh, h), fsub(fadd(fsub(cr.vx, cl.vx), cd.vy), cu.vy));
                proof {
                    lemma_fundamental_div_mod_converse_div(k as int, n, x as int, y as int);
                    lemma_fundamental_div_mod_converse_mod(k as int, n, x as int, y as int);
                    assert(d == div_at(cells0, n, h as int, x as int, y as int));
                }
                self.divergence.set(k, d);
                self.potential.set(k, 0);
                y = y + 1;
            }
            proof {
                assert((x as int) * n + n == ((x as int) + 1) * n) by (nonlinear_arith);
            }
            x = x + 1;
        }
        proof {
            assert((size as int) * n == n * n);
            assert(self.divergence@ =~= div_field(cells0, n, h as int));
            assert(self.potential@ =~= zero_scalar_seq(n));
        }

        let ghost div1 = self.divergence@;
        let sweeps = self.sweeps;
        let ghost mid = *self;
        let mut s: usize = 0;
        while s < sweeps
            invariant
                s <= sweeps,
                self.diffusion == self0.diffusion,
                self.viscosity == self0.viscosity,
                self.size == size,
                self.sweeps == self0.sweeps,
                self.cells == self0.cells,
                self.prev_cells == self0.prev_cells,
                self.divergence == mid.divergence,
                self.potential@.len() == size * size,
                self.potential@ == pot_sweeps(div1, zero_scalar_seq(n), n, s as int),
            decreases sweeps - s,
        {
            let ghost sweep0 = self.potential@;
            let mut x: usize = 0;
            while x < size
                invariant
                    x <= size,
                    self.diffusion == self0.diffusion,
                    self.viscosity == self0.viscosity,
                    self.size == size,
                    self.sweeps == self0.sweeps,
                    self.cells == self0.cells,
                    self.prev_cells == self0.prev_cells,
                    self.divergence == mid.divergence,
                    self.potential@.len() == size * size,
                    self.potential@ == pot_prefix(div1, sweep0, n, (x as int) * n),
                decreases size - x,
            {
                let mut y: usize = 0;
                while y < size
                    invariant
                        y <= size,
                        x < size,
                        self.diffusion == self0.diffusion,
                        self.viscosity == self0.viscosity,
                        self.size == size,
                        self.sweeps == self0.sweeps,
                        self.cells == self0.cells,
                        self.prev_cells == self0.prev_cells,
                        self.divergence == mid.divergence,
                        self.potential@.len() == size * size,
                        self.potential@ == pot_prefix(div1, sweep0, n, (x as int) * n + (y as int)),
                    decreases size - y,
                {
                    proof {
                        assert((x as int) * (size as int) + (y as int) < (size as int) * (size as int)
                            && (size as int) * (size as int) <= 0x1000_0000) by (nonlinear_arith)
                            requires
                                (x as int) < (size as int),
                                (y as int) < (size as int),
                                0 < (size as int) && (size as int) <= 16384,
                        ;
                    }
                    let i = x as i64;
                    let j = y as i64;
                    let pl = get_scalar(&self.potential, size, i - 1, j);
                    let pr = get_scalar(&self.potential, size, i + 1, j);
                    let pu = get_scalar(&self.potential, size, i, j - 1);
                    let pd = get_scalar(&self.potential, size, i, j + 1);
                    let k = x * size + y;
                    let dv = self.divergence[k];
                    let pnew = fmul(QUARTER, fadd(fadd(fadd(fadd(dv, pl), pr), pu), pd));
                    proof {
                        lemma_fundamental_div_mod_converse_div(k as int, n, x as int, y as int);
                        lemma_fundamental_div_mod_converse_mod(k as int, n, x as int, y as int);
                        assert(pnew as int == pot_at(div1, self.potential@, n, x as int, y as int));
                    }
                    self.potential.set(k, pnew);
                    proof {
                        assert(self.potential@ == pot_prefix(
                            div1,
                            sweep0,
                            n,
                            (x as int) * n + (y as int) + 1,
                        ));
                    }
                    y = y + 1;
                }
                proof {
                    assert((x as int) * n + n == ((x as int) + 1) * n) by (nonlinear_arith);
                }
                x = x + 1;
            }
            proof {
                assert((size as int) * n == n * n);
                assert(self.potential@ == pot_sweeps(div1, zero_scalar_seq(n), n, s as int + 1));
            }
            s = s + 1;
        }

        let ghost pot1 = self.potential@;
        let ghost before_grad = *self;
        let mut x: usize = 0;
        while x < size
            invariant
                x <= size,
                self.diffusion == self0.diffusion,
                self.viscosity == self0.viscosity,
                self.size == size,
                self.sweeps == self0.sweeps,
                self.prev_cells == self0.prev_cells,
                self.divergence == before_grad.divergence,
                self.potential == before_grad.potential,
                self.cells@.len() == size * size,
                forall|m: int| 0 <= m < (x as int) * n ==> self.cells@[m]
                    == grad_cell(cells0[m], pot1, n, h as int, m / n, m % n),
                forall|m: int| (x as int) * n <= m < (size as int) * (size as int)
                    ==> self.cells@[m] == cells0[m],
            decreases size - x,
        {
            let mut y: usize = 0;
            while y < size
                invariant
                    y <= size,
                    x < size,
                    self.diffusion == self0.diffusion,
                    self.viscosity == self0.viscosity,
                    self.size == size,
                    self.sweeps == self0.sweeps,
                    self.prev_cells == self0.prev_cells,
                    self.divergence == before_grad.divergence,
                    self.potential == before_grad.potential,
                    self.cells@.len() == size * size,
                    forall|m: int| 0 <= m < (x as int) * n + (y as int) ==> self.cells@[m]
                        == grad_cell(cells0[m], pot1, n, h as int, m / n, m % n),
                    forall|m: int| (x as int) * n + (y as int) <= m < (size as int) * (size as int)
                        ==> self.cells@[m] == cells0[m],
                decreases size - y,
            {
                proof {
                    assert((x as int) * (size as int) + (y as int) < (size as int) * (size as int)
                        && (size as int) * (size as int) <= 0x1000_0000) by (nonlinear_arith)
                        requires
                            (x as int) < (size as int),
                            (y as int) < (size as int),
                            0 < (size as int) && (size as int) <= 16384,
                    ;
                }
                let i = x as i64;
                let j = y as i64;
                let k = x * size + y;
                let c = self.cells[k];
                let gx = fsub(
                    get_scalar(&self.potential, size, i + 1, j),
                    get_scalar(&self.potential, size, i - 1, j),
                );
                let gy = fsub(
                    get_scalar(&self.potential, size, i, j + 1),
                    get_scalar(&self.potential, size, i, j - 1),
                );
                let newc = Cell {
                    density: c.density,
                    vx: fsub(c.vx, fdiv(fmul(HALF, gx), h)),
                    vy: fsub(c.vy, fdiv(fmul(HALF, gy), h)),
                };
                proof {
                    lemma_fundamental_div_mod_converse_div(k as int, n, x as int, y as int);
                    lemma_fundamental_div_mod_converse_mod(k as int, n, x as int, y as int);
                    assert(newc == grad_cell(cells0[k as int], pot1, n, h as int, x as int, y as int));
                }
                self.cells.set(k, newc);
                y = y + 1;
            }
            proof {
                assert((x as int) * n + n == ((x as int) + 1) * n) by (nonlinear_arith);
            }
            x = x + 1;
        }
        proof {
            assert((size as int) * n == n * n);
            assert(self.cells@ =~= project_cells(cells0, pot1, n, h as int));
        }
    }

    /// The advection stage: swap the buffers, then transport density and
    /// velocity along the previous velocity field by semi-Lagrangian
    /// backtracing with bilinear resampling of the four surrounding cells.
    #[verifier::loop_isolation(false)]
    pub fn advect(&mut self, dt: i64)
        requires
            old(self).wf(),
        ensures
            final(self).wf(),
            *final(self) == (Fluid {
                cells: final(self).cells,
                prev_cells: final(self).prev_cells,
                ..*old(self)
            }),
            final(self).prev_cells@ == old(self).cells@,
            final(self).cells@ == advect_field(
                old(self).cells@,
                old(self).size as int,
                fix_mul(dt as int, (old(self).size as int) * (ONE as int)),
            ),
    {
        let size = self.size;
        let ghost n = size as int;
        core::mem::swap(&mut self.cells, &mut self.prev_cells);
        let ghost self0 = *self;
        let ghost prev = self.prev_cells@;
        let dtn = fmul(dt, from_int(size as i64));
        proof {
            assert(dtn == fix_mul(dt as int, n * (ONE as int)));
        }
        let mut x: usize = 0;
        while x < size
            invariant
                x <= size,
                self.diffusion == self0.diffusion,
                self.viscosity == self0.viscosity,
                self.size == size,
                self.sweeps == self0.sweeps,
                self.divergence == self0.divergence,
                self.potential == self0.potential,
                self.prev_cells == self0.prev_cells,
                self.cells@.len() == size * size,
                forall|m: int| 0 <= m < (x as int) * n ==> self.cells@[m]
                    == advect_cell(prev, n, dtn as int, m / n, m % n),
            decreases size - x,
        {
            let mut y: usize = 0;
            while y < size
                invariant
                    y <= size,
                    x < size,
                    self.diffusion == self0.diffusion,
                    self.viscosity == self0.viscosity,
                    self.size == size,
                    self.sweeps == self0.sweeps,
                    self.divergence == self0.divergence,
                    self.potential == self0.potential,
                    self.prev_cells == self0.prev_cells,
                    self.cells@.len() == size * size,
                    forall|m: int| 0 <= m < (x as int) * n + (y as int) ==> self.cells@[m]
                        == advect_cell(prev, n, dtn as int, m / n, m % n),
                decreases size - y,
            {
                proof {
                    assert((x as int) * (size as int) + (y as int) < (size as int) * (size as int)
                        && (size as int) * (size as int) <= 0x1000_0000) by (nonlinear_arith)
                        requires
                            (x as int) < (size as int),
                            (y as int) < (size as int),
                            0 < (size as int) && (size as int) <= 16384,
                    ;
                }
                let i = x as i64;
                let j = y as i64;
                let k = x * size + y;
                let v = get_cell(&self.prev_cells, size, i, j);
                let sxf = fsub(from_int(i), fmul(dtn, v.vx));
                let syf = fsub(from_int(j), fmul(dtn, v.vy));
                let fx = floor_fix(sxf);
                let fy = floor_fix(syf);
                let lx = fx.0;
                let rcf = fx.1;
                let ty = fy.0;
                let bcf = fy.1;
                let lcf = fsub(ONE, rcf);
                let tcf = fsub(ONE, bcf);
                let tl = get_cell(&self.prev_cells, size, lx, ty);
                let tr = get_cell(&self.prev_cells, size, lx + 1, ty);
                let bl = get_cell(&self.prev_cells, size, lx, ty + 1);
                let br = get_cell(&self.prev_cells, size, lx + 1, ty + 1);
                let newc = Cell {
                    density: fadd(
                        fmul(lcf, fadd(fmul(tcf, tl.density), fmul(bcf, bl.density))),
                        fmul(rcf, fadd(fmul(tcf, tr.density), fmul(bcf, br.density))),
                    ),
                    vx: fadd(
                        fmul(lcf, fadd(fmul(tcf, tl.vx), fmul(bcf, bl.vx))),
                        fmul(rcf, fadd(fmul(tcf, tr.vx), fmul(bcf, br.vx))),
                    ),
                    vy: fadd(
                        fmul(lcf, fadd(fmul(tcf, tl.vy), fmul(bcf, bl.vy))),
                        fmul(rcf, fadd(fmul(tcf, tr.vy), fmul(bcf, br.vy))),
                    ),
                };
                proof {
                    lemma_fundamental_div_mod_converse_div(k as int, n, x as int, y as int);
                    lemma_fundamental_div_mod_converse_mod(k as int, n, x as int, y as int);
                    assert(newc == advect_cell(prev, n, dtn as int, x as int, y as int));
                }
                self.cells.set(k, newc);
                y = y + 1;
            }
            proof {
                assert((x as int) * n + n == ((x as int) + 1) * n) by (nonlinear_arith);
            }
            x = x + 1;
        }
        proof {
            assert((size as int) * n == n * n);
            assert(self.cells@ =~= advect_field(prev, n, dtn as int));
        }
    }

    /// Advance the field by one tick: `diffuse(dt); project(); advect(dt);
    /// project();` in that fixed order. `dt` is an unclamped fixed-point
    /// elapsed time in seconds; clamping is the caller's responsibility.
    pub fn step(&mut self, dt: i64)
        requires
            old(self).wf(),
        ensures
            final(self).wf(),
            *final(self) == (Fluid {
                cells: final(self).cells,
                prev_cells: final(self).prev_cells,
                divergence: final(self).divergence,
                potential: final(self).potential,
                ..*old(self)
            }),
            ({
                let n = old(self).size as int;
                let sw = old(self).sweeps as int;
                let h = grid_h(n);
                let ad = diff_coeff(dt as int, old(self).diffusion as int, n);
                let av = diff_coeff(dt as int, old(self).viscosity as int, n);
                let c1 = diffuse_sweeps(old(self).cells@, old(self).prev_cells@, n, ad, av, sw);
                let p1 = pot_sweeps(div_field(c1, n, h), zero_scalar_seq(n), n, sw);
                let c2 = project_cells(c1, p1, n, h);
                let c3 = advect_field(c2, n, fix_mul(dt as int, n * (ONE as int)));
                let d2 = div_field(c3, n, h);
                let p2 = pot_sweeps(d2, zero_scalar_seq(n), n, sw);
                let c4 = project_cells(c3, p2, n, h);
                &&& final(self).cells@ == c4
                &&& final(self).cells@ == step_model(*old(self), dt)
                &&& final(self).prev_cells@ == c2
                &&& final(self).divergence@ == d2
                &&& final(self).potential@ == p2
            }),
    {
        self.diffuse(dt);
        self.project();
        self.advect(dt);
        self.project();
    }
}

} // verus!