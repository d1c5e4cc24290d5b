//! The library's laws: machine-checked statements of the solver's exact
//! identities, proved against the stage models that the methods' contracts
//! expose.

use vstd::prelude::*;
use vstd::arithmetic::div_mod::lemma_fundamental_div_mod;
use vstd::arithmetic::div_mod::lemma_small_mod;
use vstd::arithmetic::div_mod::lemma_div_multiples_vanish;
use vstd::arithmetic::div_mod::lemma_mod_multiples_basic;
use crate::fixed::ONE;
use crate::fixed::FOUR;
use crate::fixed::fix_add;
use crate::fixed::fix_sub;
use crate::fixed::HALF;
use crate::fixed::QUARTER;
use crate::fixed::fix_mul;
use crate::fixed::lemma_fix_add_zero;
use crate::fixed::lemma_fix_sub_zero;
use crate::fixed::lemma_fix_mul_zero;
use crate::fixed::lemma_fix_mul_one;
use crate::fixed::lemma_fix_div_one;
use crate::fixed::lemma_fix_div_zero;
use crate::fluid::Fluid;
use crate::fluid::Cell;
use crate::fluid::all_zero;
use crate::fluid::widx;
use crate::fluid::nb;
use crate::fluid::diff_coeff;
use crate::fluid::diffuse_cell;
use crate::fluid::diffuse_prefix;
use crate::fluid::diffuse_sweeps;
use crate::fluid::div_at;
use crate::fluid::div_field;
use crate::fluid::zero_scalar_seq;
use crate::fluid::pot_at;
use crate::fluid::pot_prefix;
use crate::fluid::pot_sweeps;
use crate::fluid::grad_cell;
use crate::fluid::project_cells;
use crate::fluid::advect_cell;
use crate::fluid::advect_field;
use crate::fluid::grid_h;
use crate::fluid::step_model;

verus! {

/// A row-major linear index on an `n`-by-`n` grid decomposes into in-range
/// coordinates.
proof fn lemma_linidx(n: int, k: int)
    requires
        n > 0,
        0 <= k < n * n,
    ensures
        0 <= k / n < n,
        0 <= k % n < n,
        (k / n) * n + (k % n) == k,
{
    lemma_fundamental_div_mod(k, n);
    assert(0 <= k / n) by (nonlinear_arith)
        requires
            k >= 0,
            n > 0,
    ;
    if k / n >= n {
        assert(n * (k / n) >= n * n) by (nonlinear_arith)
            requires
                k / n >= n,
                n > 0,
        ;
    }
    assert((k / n) * n == n * (k / n)) by (nonlinear_arith);
}

/// A wrapped linear index is always within the grid.
proof fn lemma_widx_bounds(n: int, i: int, j: int)
    requires
        n > 0,
    ensures
        0 <= widx(n, i, j) < n * n,
{
    assert(0 <= i % n < n);
    assert(0 <= j % n < n);
    assert(0 <= (i % n) * n + (j % n) < n * n) by (nonlinear_arith)
        requires
            0 <= i % n < n,
            0 <= j % n < n,
            n > 0,
    ;
}

/// With a zero coefficient the diffusion update returns the right-hand side
/// unchanged, channel by channel, whatever the surrounding field holds.
proof fn lemma_diffuse_cell_id(rhs: Cell, cur: Seq<Cell>, n: int, x: int, y: int, ad: int, av: int)
    ensures
        ad == 0 ==> diffuse_cell(rhs, cur, n, x, y, ad, av).density == rhs.density,
        av == 0 ==> diffuse_cell(rhs, cur, n, x, y, ad, av).vx == rhs.vx,
        av == 0 ==> diffuse_cell(rhs, cur, n, x, y, ad, av).vy == rhs.vy,
{
    lemma_fix_mul_zero(FOUR as int);
    lemma_fix_add_zero(ONE);
    if ad == 0 {
        let sd = fix_add(
            fix_add(
                fix_add(nb(cur, n, x - 1, y).density as int, nb(cur, n, x + 1, y).density as int),
                nb(cur, n, x, y - 1).density as int,
            ),
            nb(cur, n, x, y + 1).density as int,
        );
        lemma_fix_mul_zero(sd);
        lemma_fix_add_zero(rhs.density);
        lemma_fix_div_one(rhs.density);
    }
    if av == 0 {
        let sx = fix_add(
            fix_add(
                fix_add(nb(cur, n, x - 1, y).vx as int, nb(cur, n, x + 1, y).vx as int),
                nb(cur, n, x, y - 1).vx as int,
            ),
            nb(cur, n, x, y + 1).vx as int,
        );
        let sy = fix_add(
            fix_add(
                fix_add(nb(cur, n, x - 1, y).vy as int, nb(cur, n, x + 1, y).vy as int),
                nb(cur, n, x, y - 1).vy as int,
            ),
            nb(cur, n, x, y + 1).vy as int,
        );
        lemma_fix_mul_zero(sx);
        lemma_fix_mul_zero(sy);
        lemma_fix_add_zero(rhs.vx);
        lemma_fix_add_zero(rhs.vy);
        lemma_fix_div_one(rhs.vx);
        lemma_fix_div_one(rhs.vy);
    }
}

/// A sweep prefix never changes the length, nor the cells it has not yet
/// reached.
proof fn lemma_diffuse_prefix_frame(rhs: Seq<Cell>, cur: Seq<Cell>, n: int, ad: int, av: int, k: int)
    requires
        k <= cur.len(),
    ensures
        diffuse_prefix(rhs, cur, n, ad, av, k).len() == cur.len(),
        forall|m: int| k <= m < cur.len() ==> diffuse_prefix(rhs, cur, n, ad, av, k)[m] == cur[m],
    decreases k,
{
    if k > 0 {
        lemma_diffuse_prefix_frame(rhs, cur, n, ad, av, k - 1);
    }
}

/// Cells a sweep prefix has reached hold the right-hand side value in every
/// channel whose coefficient is zero.
proof fn lemma_diffuse_prefix_id(rhs: Seq<Cell>, cur: Seq<Cell>, n: int, ad: int, av: int, k: int)
    requires
        0 <= k <= cur.len(),
        rhs.len() == cur.len(),
    ensures
        ad == 0 ==> forall|m: int| 0 <= m < k
            ==> diffuse_prefix(rhs, cur, n, ad, av, k)[m].density == rhs[m].density,
        av == 0 ==> forall|m: int| 0 <= m < k
            ==> diffuse_prefix(rhs, cur, n, ad, av, k)[m].vx == rhs[m].vx,
        av == 0 ==> forall|m: int| 0 <= m < k
            ==> diffuse_prefix(rhs, cur, n, ad, av, k)[m].vy == rhs[m].vy,
    decreases k,
{
    if k > 0 {
        lemma_diffuse_prefix_id(rhs, cur, n, ad, av, k - 1);
        lemma_diffuse_prefix_frame(rhs, cur, n, ad, av, k - 1);
        let c = diffuse_prefix(rhs, cur, n, ad, av, k - 1);
        lemma_diffuse_cell_id(rhs[k - 1], c, n, (k - 1) / n, (k - 1) % n, ad, av);
    }
}

/// Sweeps never change the length.
proof fn lemma_diffuse_sweeps_len(rhs: Seq<Cell>, cur: Seq<Cell>, n: int, ad: int, av: int, s: int)
    requires
        cur.len() == n * n,
        n > 0,
    ensures
        diffuse_sweeps(rhs, cur, n, ad, av, s).len() == n * n,
    decreases s,
{
    if s > 0 {
        lemma_diffuse_sweeps_len(rhs, cur, n, ad, av, s - 1);
        lemma_diffuse_prefix_frame(rhs, diffuse_sweeps(rhs, cur, n, ad, av, s - 1), n, ad, av, n * n);
    }
}

/// Diffusion identity at `a == 0`, channel by channel: after at least one
/// sweep, a channel whose coefficient is zero holds exactly the
/// pre-diffusion field (the fixed right-hand side), whatever the other
/// channel's coefficient does.
pub proof fn lemma_diffuse_identity_channels(rhs: Seq<Cell>, cur: Seq<Cell>, n: int, ad: int, av: int, s: int)
    requires
        n > 0,
        rhs.len() == n * n,
        cur.len() == n * n,
        s >= 1,
    ensures
        diffuse_sweeps(rhs, cur, n, ad, av, s).len() == n * n,
        ad == 0 ==> forall|m: int| 0 <= m < n * n
            ==> diffuse_sweeps(rhs, cur, n, ad, av, s)[m].density == rhs[m].density,
        av == 0 ==> forall|m: int| 0 <= m < n * n
            ==> diffuse_sweeps(rhs, cur, n, ad, av, s)[m].vx == rhs[m].vx,
        av == 0 ==> forall|m: int| 0 <= m < n * n
            ==> diffuse_sweeps(rhs, cur, n, ad, av, s)[m].vy == rhs[m].vy,
{
    let inner = diffuse_sweeps(rhs, cur, n, ad, av, s - 1);
    lemma_diffuse_sweeps_len(rhs, cur, n, ad, av, s - 1);
    lemma_diffuse_prefix_frame(rhs, inner, n, ad, av, n * n);
    lemma_diffuse_prefix_id(rhs, inner, n, ad, av, n * n);
}

/// Diffusion identity at `a == 0`: with both coefficients zero, the
/// diffusion stage returns the pre-diffusion field exactly, for any time
/// step and any sweep count of at least one.
pub proof fn lemma_diffuse_identity(rhs: Seq<Cell>, cur: Seq<Cell>, n: int, s: int)
    requires
        n > 0,
        rhs.len() == n * n,
        cur.len() == n * n,
        s >= 1,
    ensures
        diffuse_sweeps(rhs, cur, n, 0, 0, s) == rhs,
{
    lemma_diffuse_identity_channels(rhs, cur, n, 0, 0, s);
    assert(diffuse_sweeps(rhs, cur, n, 0, 0, s) =~= rhs);
}

/// The diffusion coefficient vanishes when either factor is zero.
pub proof fn lemma_diff_coeff_zero(dt: int, coeff: int, n: int)
    ensures
        dt == 0 ==> diff_coeff(dt, coeff, n) == 0,
        coeff == 0 ==> diff_coeff(dt, coeff, n) == 0,
{
    if dt == 0 {
        lemma_fix_mul_zero(coeff);
        lemma_fix_mul_zero(n * n * (ONE as int));
    }
    if coeff == 0 {
        lemma_fix_mul_zero(dt);
        lemma_fix_mul_zero(n * n * (ONE as int));
    }
}

/// The divergence of a field whose velocity is everywhere zero is the zero
/// scratch field.
proof fn lemma_div_field_zero_velocity(cells: Seq<Cell>, n: int, h: int)
    requires
        n > 0,
        cells.len() == n * n,
        forall|k: int| 0 <= k < n * n ==> cells[k].vx == 0 && cells[k].vy == 0,
    ensures
        div_field(cells, n, h) == zero_scalar_seq(n),
{
    assert forall|k: int| 0 <= k < n * n implies div_field(cells, n, h)[k] == 0i64 by {
        lemma_linidx(n, k);
        let x = k / n;
        let y = k % n;
        lemma_widx_bounds(n, x + 1, y);
        lemma_widx_bounds(n, x - 1, y);
        lemma_widx_bounds(n, x, y + 1);
        lemma_widx_bounds(n, x, y - 1);
        lemma_fix_mul_zero(fix_mul(-(HALF as int), h));
        assert(div_at(cells, n, h, x, y) == 0);
    }
    assert(div_field(cells, n, h) =~= zero_scalar_seq(n));
}

/// A potential relaxation over an all-zero divergence leaves an all-zero
/// potential all-zero: prefix form.
proof fn lemma_pot_prefix_zero(pot: Seq<i64>, n: int, k: int)
    requires
        n > 0,
        pot.len() == n * n,
        0 <= k <= n * n,
        forall|m: int| 0 <= m < n * n ==> pot[m] == 0i64,
    ensures
        pot_prefix(zero_scalar_seq(n), pot, n, k).len() == n * n,
        forall|m: int| 0 <= m < n * n ==> pot_prefix(zero_scalar_seq(n), pot, n, k)[m] == 0i64,
    decreases k,
{
    if k > 0 {
        lemma_pot_prefix_zero(pot, n, k - 1);
        let p = pot_prefix(zero_scalar_seq(n), pot, n, k - 1);
        let x = (k - 1) / n;
        let y = (k - 1) % n;
        lemma_linidx(n, k - 1);
        lemma_widx_bounds(n, x - 1, y);
        lemma_widx_bounds(n, x + 1, y);
        lemma_widx_bounds(n, x, y - 1);
        lemma_widx_bounds(n, x, y + 1);
        lemma_fix_mul_zero(QUARTER as int);
        assert(pot_at(zero_scalar_seq(n), p, n, x, y) == 0);
    }
}

/// A potential relaxation over an all-zero divergence stays all-zero, for
/// any sweep count.
proof fn lemma_pot_sweeps_zero(n: int, s: int)
    requires
        n > 0,
    ensures
        pot_sweeps(zero_scalar_seq(n), zero_scalar_seq(n), n, s) == zero_scalar_seq(n),
    decreases s,
{
    if s > 0 {
        lemma_pot_sweeps_zero(n, s - 1);
        lemma_pot_prefix_zero(zero_scalar_seq(n), n, n * n);
        assert(pot_prefix(zero_scalar_seq(n), zero_scalar_seq(n), n, n * n) =~= zero_scalar_seq(n));
    }
}

/// Subtracting the gradient of an all-zero potential changes nothing.
proof fn lemma_project_cells_zero_potential(cells: Seq<Cell>, n: int, h: int)
    requires
        n > 0,
        cells.len() == n * n,
    ensures
        project_cells(cells, zero_scalar_seq(n), n, h) == cells,
{
    assert forall|k: int| 0 <= k < n * n implies project_cells(cells, zero_scalar_seq(n), n, h)[k]
        == cells[k] by {
        lemma_linidx(n, k);
        let x = k / n;
        let y = k % n;
        lemma_widx_bounds(n, x + 1, y);
        lemma_widx_bounds(n, x - 1, y);
        lemma_widx_bounds(n, x, y + 1);
        lemma_widx_bounds(n, x, y - 1);
        lemma_fix_mul_zero(HALF as int);
        lemma_fix_div_zero(h);
        lemma_fix_sub_zero(cells[k].vx);
        lemma_fix_sub_zero(cells[k].vy);
        assert(grad_cell(cells[k], zero_scalar_seq(n), n, h, x, y) == cells[k]);
    }
    assert(project_cells(cells, zero_scalar_seq(n), n, h) =~= cells);
}

/// The projection stage never changes the density channel.
pub proof fn lemma_project_preserves_density(cells: Seq<Cell>, pot: Seq<i64>, n: int, h: int)
    ensures
        forall|k: int| 0 <= k < cells.len()
            ==> project_cells(cells, pot, n, h)[k].density == cells[k].density,
{
}

/// Advection is the identity wherever the backtrace displacement vanishes
/// in every cell: the source point then coincides exactly with the target.
proof fn lemma_advect_identity_general(prev: Seq<Cell>, n: int, dtn: int)
    requires
        0 < n <= 16384,
        prev.len() == n * n,
        forall|k: int| 0 <= k < n * n ==> fix_mul(dtn, (#[trigger] prev[k]).vx as int) == 0
            && fix_mul(dtn, prev[k].vy as int) == 0,
    ensures
        advect_field(prev, n, dtn) == prev,
{
    assert forall|k: int| 0 <= k < n * n implies advect_field(prev, n, dtn)[k] == prev[k] by {
        lemma_linidx(n, k);
        let x = k / n;
        let y = k % n;
        lemma_small_mod(x as nat, n as nat);
        lemma_small_mod(y as nat, n as nat);
        assert(x % n == x);
        assert(y % n == y);
        assert(widx(n, x, y) == x * n + y) by (nonlinear_arith)
            requires
                x % n == x,
                y % n == y,
                widx(n, x, y) == (x % n) * n + (y % n),
        ;
        let v = nb(prev, n, x, y);
        assert(v == prev[k]);
        assert(0 <= x * (ONE as int) <= 0x4000_0000_0000) by (nonlinear_arith)
            requires
                0 <= x <= 16384,
                ONE == 0x1_0000_0000,
        ;
        let sx = fix_sub(x * (ONE as int), fix_mul(dtn, v.vx as int));
        let sy = fix_sub(y * (ONE as int), fix_mul(dtn, v.vy as int));
        assert(sx == x * (ONE as int));
        assert(sy == y * (ONE as int));
        assert(x * (ONE as int) == (ONE as int) * x) by (nonlinear_arith);
        assert(y * (ONE as int) == (ONE as int) * y) by (nonlinear_arith);
        lemma_div_multiples_vanish(x, ONE as int);
        lemma_div_multiples_vanish(y, ONE as int);
        lemma_mod_multiples_basic(x, ONE as int);
        lemma_mod_multiples_basic(y, ONE as int);
        assert(sx / (ONE as int) == x);
        assert(sy / (ONE as int) == y);
        assert(sx % (ONE as int) == 0);
        assert(sy % (ONE as int) == 0);
        lemma_fix_sub_zero(ONE);
        let tl = nb(prev, n, x, y);
        lemma_fix_mul_one(tl.density);
        lemma_fix_mul_one(tl.vx);
        lemma_fix_mul_one(tl.vy);
        lemma_fix_mul_zero(nb(prev, n, x, y + 1).density as int);
        lemma_fix_mul_zero(nb(prev, n, x, y + 1).vx as int);
        lemma_fix_mul_zero(nb(prev, n, x, y + 1).vy as int);
        lemma_fix_add_zero(tl.density);
        lemma_fix_add_zero(tl.vx);
        lemma_fix_add_zero(tl.vy);
        lemma_fix_mul_zero(
            fix_add(
                fix_mul(fix_sub(ONE as int, 0), nb(prev, n, x + 1, y).density as int),
                fix_mul(0, nb(prev, n, x + 1, y + 1).density as int),
            ),
        );
        assert(advect_cell(prev, n, dtn, x, y).density == tl.density);
        assert(advect_cell(prev, n, dtn, x, y).vx == tl.vx);
        assert(advect_cell(prev, n, dtn, x, y).vy == tl.vy);
        assert(advect_cell(prev, n, dtn, x, y) == prev[k]);
    }
    assert(advect_field(prev, n, dtn) =~= prev);
}

/// Advection mass preservation under zero velocity: with a uniformly zero
/// velocity field, advection is the identity transform on density and
/// velocity, for any time step.
pub proof fn lemma_advect_zero_velocity_identity(prev: Seq<Cell>, n: int, dtn: int)
    requires
        0 < n <= 16384,
        prev.len() == n * n,
        forall|k: int| 0 <= k < n * n ==> (#[trigger] prev[k]).vx == 0 && prev[k].vy == 0,
    ensures
        advect_field(prev, n, dtn) == prev,
{
    assert forall|k: int| 0 <= k < n * n implies fix_mul(dtn, (#[trigger] prev[k]).vx as int) == 0
        && fix_mul(dtn, prev[k].vy as int) == 0 by {
        assert(prev[k].vx == 0);
        assert(prev[k].vy == 0);
        lemma_fix_mul_zero(dtn);
    }
    lemma_advect_identity_general(prev, n, dtn);
}

/// Advection at a zero time step is the identity transform, whatever the
/// velocity field holds: the backtraced source is exactly the target.
pub proof fn lemma_advect_zero_dt_identity(prev: Seq<Cell>, n: int)
    requires
        0 < n <= 16384,
        prev.len() == n * n,
    ensures
        advect_field(prev, n, 0) == prev,
{
    assert forall|k: int| 0 <= k < n * n implies fix_mul(0, (#[trigger] prev[k]).vx as int) == 0
        && fix_mul(0, prev[k].vy as int) == 0 by {
        lemma_fix_mul_zero(prev[k].vx as int);
        lemma_fix_mul_zero(prev[k].vy as int);
    }
    lemma_advect_identity_general(prev, n, 0);
}

/// Zero invariance: an all-zero solver state with zero diffusion and
/// viscosity stays exactly all-zero under a whole tick, for any time step
/// and any sweep budget.
pub proof fn lemma_step_zero_invariance(f: Fluid, dt: i64)
    requires
        f.wf(),
        f.diffusion == 0,
        f.viscosity == 0,
        all_zero(f.cells@),
        all_zero(f.prev_cells@),
    ensures
        all_zero(step_model(f, dt)),
{
    let n = f.size as int;
    let sw = f.sweeps as int;
    let h = grid_h(n);
    lemma_diff_coeff_zero(dt as int, 0, n);
    let c1 = diffuse_sweeps(f.cells@, f.prev_cells@, n, 0, 0, sw);
    if sw >= 1 {
        lemma_diffuse_identity(f.cells@, f.prev_cells@, n, sw);
        assert(c1 == f.cells@);
    } else {
        assert(c1 == f.prev_cells@);
    }
    assert(all_zero(c1));
    assert(c1.len() == n * n);
    lemma_div_field_zero_velocity(c1, n, h);
    lemma_pot_sweeps_zero(n, sw);
    lemma_project_cells_zero_potential(c1, n, h);
    let c2 = project_cells(c1, pot_sweeps(div_field(c1, n, h), zero_scalar_seq(n), n, sw), n, h);
    assert(c2 == c1);
    lemma_advect_zero_velocity_identity(c2, n, fix_mul(dt as int, n * (ONE as int)));
    let c3 = advect_field(c2, n, fix_mul(dt as int, n * (ONE as int)));
    assert(c3 == c2);
    lemma_div_field_zero_velocity(c3, n, h);
    lemma_pot_sweeps_zero(n, sw);
    lemma_project_cells_zero_potential(c3, n, h);
    assert(step_model(f, dt) == c3);
}

/// A whole tick with a zero time step never changes the density channel,
/// whatever the grid holds: both relaxation coefficients vanish and the
/// advection backtrace is exact, while projection touches only velocity.
pub proof fn lemma_step_zero_dt_preserves_density(f: Fluid)
    requires
        f.wf(),
        f.sweeps >= 1,
    ensures
        step_model(f, 0).len() == f.size * f.size,
        forall|k: int| 0 <= k < f.cells@.len()
            ==> step_model(f, 0)[k].density == f.cells@[k].density,
{
    let n = f.size as int;
    let sw = f.sweeps as int;
    let h = grid_h(n);
    lemma_diff_coeff_zero(0, f.diffusion as int, n);
    lemma_diff_coeff_zero(0, f.viscosity as int, n);
    let c1 = diffuse_sweeps(f.cells@, f.prev_cells@, n, 0, 0, sw);
    lemma_diffuse_identity(f.cells@, f.prev_cells@, n, sw);
    assert(c1 == f.cells@);
    let p1 = pot_sweeps(div_field(c1, n, h), zero_scalar_seq(n), n, sw);
    let c2 = project_cells(c1, p1, n, h);
    lemma_project_preserves_density(c1, p1, n, h);
    lemma_fix_mul_zero(n * (ONE as int));
    lemma_advect_zero_dt_identity(c2, n);
    let c3 = advect_field(c2, n, 0);
    assert(c3 == c2);
    let p2 = pot_sweeps(div_field(c3, n, h), zero_scalar_seq(n), n, sw);
    lemma_project_preserves_density(c3, p2, n, h);
    assert(step_model(f, 0) == project_cells(c3, p2, n, h));
}

/// No-op at a zero time step: on a grid whose velocity field is uniformly
/// zero, a whole tick with `dt == 0` changes nothing at all — density and
/// velocity are returned exactly.
pub proof fn lemma_step_zero_dt_noop(f: Fluid)
    requires
        f.wf(),
        f.sweeps >= 1,
        forall|k: int| 0 <= k < f.cells@.len() ==> (#[trigger] f.cells@[k]).vx == 0
            && f.cells@[k].vy == 0,
    ensures
        step_model(f, 0) == f.cells@,
{
    let n = f.size as int;
    let sw = f.sweeps as int;
    let h = grid_h(n);
    lemma_diff_coeff_zero(0, f.diffusion as int, n);
    lemma_diff_coeff_zero(0, f.viscosity as int, n);
    let c1 = diffuse_sweeps(f.cells@, f.prev_cells@, n, 0, 0, sw);
    lemma_diffuse_identity(f.cells@, f.prev_cells@, n, sw);
    assert(c1 == f.cells@);
    lemma_div_field_zero_velocity(c1, n, h);
    lemma_pot_sweeps_zero(n, sw);
    lemma_project_cells_zero_potential(c1, n, h);
    let c2 = project_cells(c1, pot_sweeps(div_field(c1, n, h), zero_scalar_seq(n), n, sw), n, h);
    assert(c2 == c1);
    lemma_fix_mul_zero(n * (ONE as int));
    lemma_advect_zero_dt_identity(c2, n);
    let c3 = advect_field(c2, n, 0);
    assert(c3 == c2);
    lemma_div_field_zero_velocity(c3, n, h);
    lemma_pot_sweeps_zero(n, sw);
    lemma_project_cells_zero_potential(c3, n, h);
    assert(step_model(f, 0) == c3);
}

} // verus!
