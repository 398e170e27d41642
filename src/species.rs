use vstd::prelude::*;
use crate::cell::{Cell, Velocity, SUBCELLS};
use crate::universe::{Move, Universe, index_of, lemma_index_in_range, same_species};
use crate::utils::{rand_dir, rand_dir_2, random_below};

verus! {

/// The material kinds a grid slot can hold.
#[derive(Clone, Copy, PartialEq, Eq, Debug, Structural)]
pub enum Species {
    Empty,
    Wall,
    Sand,
    Water,
}

/// What the rule of species `s` does to the grid, for the cell at `(x, y)`.
pub open spec fn species_step(
    s: Species,
    before: Universe,
    after: Universe,
    x: int,
    y: int,
    frame_ms: int,
) -> bool {
    match s {
        Species::Sand => sand_step(before, after, x, y, frame_ms),
        Species::Water => water_step(before, after, x, y),
        _ => after.spec_cells() == before.spec_cells() && after.spec_changes()
            == before.spec_changes(),
    }
}

/// The display colour of each species, as `0xRRGGBB`.
pub open spec fn color_of(s: Species) -> u32 {
    match s {
        Species::Empty => 0xFFFFFF,
        Species::Wall => 0x000000,
        Species::Sand => 0xC2B280,
        Species::Water => 0x1B7CED,
    }
}

impl Species {
    /// Runs the rule of this species for the cell at `(x, y)`: it stages
    /// the cell's move, if any, and may change velocities; Empty and Wall
    /// have no rule.
    pub fn update(&self, x: i32, y: i32, universe: &mut Universe, frame_ms: u32)
        requires
            old(universe).wf(),
            old(universe).spec_in_grid(x as int, y as int),
        ensures
            final(universe).wf(),
            final(universe).same_frame(old(universe)),
            same_species(final(universe).spec_cells(), old(universe).spec_cells()),
            species_step(*self, *old(universe), *final(universe), x as int, y as int, frame_ms as int),
    {
        match self {
            Species::Sand => update_sand(x, y, universe, frame_ms),
            Species::Water => update_water(x, y, universe),
            _ => {},
        }
    }

    /// The display colour of this species, as `0xRRGGBB`.
    pub fn color(&self) -> (r: u32)
        ensures
            r == color_of(*self),
    {
        match self {
            Species::Empty => 0xFFFFFF,
            Species::Wall => 0x000000,
            Species::Sand => 0xC2B280,
            Species::Water => 0x1B7CED,
        }
    }
}

/// The whole number of cells nearest to `v` thousandths of a cell, halves
/// rounding away from zero.
pub open spec fn rounded(v: int) -> int {
    if v >= 0 {
        (v + 500) / 1000
    } else {
        -((-v + 500) / 1000)
    }
}

/// `v` halved, rounding toward zero.
pub open spec fn halved(v: int) -> int {
    if v >= 0 {
        v / 2
    } else {
        -((-v) / 2)
    }
}

/// The vertical velocity after one frame of `dt` milliseconds under gravity
/// `g`, kept within `[-g, g]`, and halved when the cell rests on something.
pub open spec fn integrated(vy: int, g: int, dt: int, resting: bool) -> int {
    let raw = vy + g * dt / 1000;
    let c = if raw < -g {
        -g
    } else if raw > g {
        g
    } else {
        raw
    };
    if resting {
        halved(c)
    } else {
        c
    }
}

pub open spec fn speed_sq(v: Velocity) -> int {
    v.x * v.x + v.y * v.y
}

/// The speed of `a` exceeds that of `b` by more than `g` (`g >= 0`):
/// `|a| - |b| > g`, written over squares.
pub open spec fn outpaces(a: Velocity, b: Velocity, g: int) -> bool {
    let d = speed_sq(a) - speed_sq(b) - g * g;
    d > 0 && d * d > 4 * g * g * speed_sq(b)
}

pub fn round_cells(v: i32) -> (r: i64)
    ensures
        r == rounded(v as int),
{
    let w = v as i64;
    if w >= 0 {
        (w + 500) / 1000
    } else {
        -((-w + 500) / 1000)
    }
}

/// The vertical velocity of a sand cell after a frame of `frame_ms`
/// milliseconds under gravity `gravity`.
pub fn integrate(vy: i32, gravity: i32, frame_ms: u32, resting: bool) -> (r: i32)
    requires
        0 <= gravity,
    ensures
        r == integrated(vy as int, gravity as int, frame_ms as int, resting),
{
    let g = gravity as i64;
    let dt = frame_ms as i64;
    assert(0 <= g * dt <= 0x7fff_ffff * 0xffff_ffff) by (nonlinear_arith)
        requires
            0 <= g <= 0x7fff_ffff,
            0 <= dt <= 0xffff_ffff,
    ;
    let raw = vy as i64 + g * dt / 1000;
    let c = if raw < -g {
        -g
    } else if raw > g {
        g
    } else {
        raw
    };
    if resting {
        if c >= 0 {
            (c / 2) as i32
        } else {
            (-((-c) / 2)) as i32
        }
    } else {
        c as i32
    }
}

fn square(v: i32) -> (r: i128)
    ensures
        r == v * v,
        0 <= r <= 0x4000_0000_0000_0000,
{
    let w = v as i128;
    assert(0 <= w * w <= 0x4000_0000_0000_0000) by (nonlinear_arith)
        requires
            -0x8000_0000 <= w <= 0x7fff_ffff,
    ;
    w * w
}

/// Whether the speed of `a` exceeds that of `b` by more than `gravity`.
pub fn faster_by(a: Velocity, b: Velocity, gravity: i32) -> (r: bool)
    requires
        0 <= gravity,
    ensures
        r == outpaces(a, b, gravity as int),
{
    let sa = square(a.x) + square(a.y);
    let sb = square(b.x) + square(b.y);
    let gg = square(gravity);
    let d = sa - sb - gg;
    if d <= 0 {
        return false;
    }
    assert(d * d <= 0x8000_0000_0000_0000 * 0x8000_0000_0000_0000) by (nonlinear_arith)
        requires
            0 < d <= 0x8000_0000_0000_0000,
    ;
    assert(4 * gg * sb <= 4 * 0x4000_0000_0000_0000 * 0x8000_0000_0000_0000) by (nonlinear_arith)
        requires
            0 <= gg <= 0x4000_0000_0000_0000,
            0 <= sb <= 0x8000_0000_0000_0000,
    ;
    let dd = (d as u128) * (d as u128);
    let rhs = 4 * (gg as u128) * (sb as u128);
    let ghost g = gravity as int;
    assert(rhs == 4 * g * g * speed_sq(b)) by (nonlinear_arith)
        requires
            gg == g * g,
            sb == speed_sq(b),
            rhs == 4 * gg * sb,
    ;
    dd > rhs
}

/// Slot `(x, y)` holds no material (outside the grid stands the wall).
pub open spec fn empty_at(u: Universe, x: int, y: int) -> bool {
    u.spec_cell(x, y).specie == Species::Empty
}

/// A slot in wide coordinates.
pub open spec fn wide(p: Option<(i32, i32)>) -> Option<(int, int)> {
    match p {
        Some(q) => Some((q.0 as int, q.1 as int)),
        None => None,
    }
}

/// The column offset of the `k`-th slot searched in a row: 0, -1, 1, -2, 2, ...
pub open spec fn outward(k: int) -> int {
    if k % 2 == 1 {
        -((k + 1) / 2)
    } else {
        k / 2
    }
}

/// Number of rows above a displaced water cell searched for a place for it.
pub const SPLASH_ROWS: i64 = 10;

/// Number of slots searched in each of those rows: ten columns each side
/// and the centre.
pub const SPLASH_COLUMNS: i64 = 21;

/// The `k`-th slot searched for a place for water displaced from
/// `(tx, ty)`: the rows above it, nearest first, each outward from the
/// centre column.
pub open spec fn splash_slot(tx: int, ty: int, k: int) -> (int, int) {
    (tx + outward(k % SPLASH_COLUMNS as int), ty - 1 - k / SPLASH_COLUMNS as int)
}

/// The first empty slot from the `k`-th on in the search for a place for
/// water displaced from `(tx, ty)`.
pub open spec fn splash_from(u: Universe, tx: int, ty: int, k: int) -> Option<(int, int)>
    decreases SPLASH_ROWS * SPLASH_COLUMNS - k,
{
    if k < 0 || k >= SPLASH_ROWS * SPLASH_COLUMNS {
        None
    } else if empty_at(u, splash_slot(tx, ty, k).0, splash_slot(tx, ty, k).1) {
        Some(splash_slot(tx, ty, k))
    } else {
        splash_from(u, tx, ty, k + 1)
    }
}

/// What a sand cell at `(x, y)` with velocity `v` decides to do.
#[derive(Clone, Copy, PartialEq, Eq, Debug, Structural)]
pub enum SandPlan {
    /// Stay in place.
    Stay,
    /// Move to the given slot.
    Move(i32, i32),
    /// Enter the water at the first slot, sending that water up to the
    /// second.
    Displace(i32, i32, i32, i32),
}

/// The decision of a sand cell at `(x, y)` whose velocity is `v` (already
/// integrated for this frame), with diagonal direction `dx`.
pub open spec fn sand_plan(u: Universe, x: int, y: int, v: Velocity, dx: int) -> SandPlan {
    let tx = x + rounded(v.x as int);
    let ty = y + rounded(v.y as int);
    let t = u.spec_cell(tx, ty);
    if empty_at(u, tx, ty) {
        SandPlan::Move(tx as i32, ty as i32)
    } else if t.specie == Species::Water && outpaces(v, t.velocity, u.spec_gravity())
        && splash_from(u, tx, ty, 0) is Some {
        match splash_from(u, tx, ty, 0) {
            Some(f) => SandPlan::Displace(tx as i32, ty as i32, f.0 as i32, f.1 as i32),
            None => SandPlan::Stay,
        }
    } else if empty_at(u, x, y + 1) {
        SandPlan::Move(x as i32, (y + 1) as i32)
    } else if empty_at(u, x + dx, y + 1) {
        SandPlan::Move((x + dx) as i32, (y + 1) as i32)
    } else if u.spec_cell(x, y + 1).specie == Species::Water {
        SandPlan::Move(x as i32, (y + 1) as i32)
    } else {
        SandPlan::Stay
    }
}

/// The first empty slot in the search for a place for water displaced from
/// `(tx, ty)`.
fn splash_target(u: &Universe, tx: i32, ty: i32) -> (r: Option<(i32, i32)>)
    requires
        u.wf(),
    ensures
        wide(r) == splash_from(*u, tx as int, ty as int, 0),
        match r {
            Some(p) => u.spec_in_grid(p.0 as int, p.1 as int),
            None => true,
        },
{
    let mut k: i64 = 0;
    while k < SPLASH_ROWS * SPLASH_COLUMNS
        invariant
            0 <= k <= SPLASH_ROWS * SPLASH_COLUMNS,
            u.wf(),
            splash_from(*u, tx as int, ty as int, 0) == splash_from(*u, tx as int, ty as int, k as int),
        decreases SPLASH_ROWS * SPLASH_COLUMNS - k,
    {
        let c = k % SPLASH_COLUMNS;
        let off = if c % 2 == 1 {
            -((c + 1) / 2)
        } else {
            c / 2
        };
        let px = tx as i64 + off;
        let py = ty as i64 - 1 - k / SPLASH_COLUMNS;
        assert(off == outward(k as int % SPLASH_COLUMNS as int));
        if u.cell_wide(px, py).specie == Species::Empty {
            assert(u.spec_in_grid(px as int, py as int));
            assert((px as int, py as int) == splash_slot(tx as int, ty as int, k as int));
            return Some((px as i32, py as i32));
        }
        k += 1;
    }
    None
}

/// The decision of a sand cell at `(x, y)` whose velocity is `v`, with
/// diagonal direction `dx`.
pub fn plan_sand(u: &Universe, x: i32, y: i32, v: Velocity, dx: i32) -> (r: SandPlan)
    requires
        u.wf(),
        u.spec_in_grid(x as int, y as int),
        -1 <= dx <= 1,
    ensures
        r == sand_plan(*u, x as int, y as int, v, dx as int),
        match r {
            SandPlan::Stay => true,
            SandPlan::Move(a, b) => u.spec_in_grid(a as int, b as int),
            SandPlan::Displace(a, b, c, d) => u.spec_in_grid(a as int, b as int) && u.spec_in_grid(
                c as int,
                d as int,
            ),
        },
{
    let tx = x as i64 + round_cells(v.x);
    let ty = y as i64 + round_cells(v.y);
    let t = u.cell_wide(tx, ty);
    if t.specie == Species::Empty {
        return SandPlan::Move(tx as i32, ty as i32);
    }
    if t.specie == Species::Water && faster_by(v, t.velocity, u.gravity()) {
        match splash_target(u, tx as i32, ty as i32) {
            Some(f) => {
                return SandPlan::Displace(tx as i32, ty as i32, f.0, f.1);
            },
            None => {},
        }
    }
    if u.get_cell(x, y + 1).specie == Species::Empty {
        SandPlan::Move(x, y + 1)
    } else if u.get_cell(x + dx, y + 1).specie == Species::Empty {
        SandPlan::Move(x + dx, y + 1)
    } else if u.get_cell(x, y + 1).specie == Species::Water {
        SandPlan::Move(x, y + 1)
    } else {
        SandPlan::Stay
    }
}

/// How far, in cells, water looks sideways for an empty slot.
pub const SPREAD: i64 = 5;

/// The `t`-th slot of the widening sweep of water at `(x, y)`: distance
/// `t / 4 + 1`, first on side `side` then on the other, each time the row
/// below before the cell's own row.
pub open spec fn spread_slot(x: int, y: int, side: int, t: int) -> (int, int) {
    let k = t / 4 + 1;
    let s = if (t / 2) % 2 == 0 {
        side
    } else {
        -side
    };
    (x + s * k, if t % 2 == 0 {
        y + 1
    } else {
        y
    })
}

/// The first empty slot from the `t`-th on in the widening sweep.
pub open spec fn spread_from(u: Universe, x: int, y: int, side: int, t: int) -> Option<(int, int)>
    decreases 4 * SPREAD - t,
{
    if t < 0 || t >= 4 * SPREAD {
        None
    } else if empty_at(u, spread_slot(x, y, side, t).0, spread_slot(x, y, side, t).1) {
        Some(spread_slot(x, y, side, t))
    } else {
        spread_from(u, x, y, side, t + 1)
    }
}

/// Where a water cell at `(x, y)` goes, with random direction `dx` for the
/// diagonal and sideways steps and `side` for the widening sweep: the first
/// empty slot among below, the diagonal `dx`, the other diagonal, the side
/// `dx`, the other side, and then the sweep.
pub open spec fn water_plan(u: Universe, x: int, y: int, dx: int, side: int) -> Option<(int, int)> {
    if empty_at(u, x, y + 1) {
        Some((x, y + 1))
    } else if empty_at(u, x + dx, y + 1) {
        Some((x + dx, y + 1))
    } else if empty_at(u, x - dx, y + 1) {
        Some((x - dx, y + 1))
    } else if empty_at(u, x + dx, y) {
        Some((x + dx, y))
    } else if empty_at(u, x - dx, y) {
        Some((x - dx, y))
    } else {
        spread_from(u, x, y, side, 0)
    }
}

/// Where a water cell at `(x, y)` goes, if anywhere.
pub fn plan_water(u: &Universe, x: i32, y: i32, dx: i32, side: i32) -> (r: Option<(i32, i32)>)
    requires
        u.wf(),
        u.spec_in_grid(x as int, y as int),
        -1 <= dx <= 1,
        side == -1 || side == 1,
    ensures
        wide(r) == water_plan(*u, x as int, y as int, dx as int, side as int),
        match r {
            Some(p) => u.spec_in_grid(p.0 as int, p.1 as int),
            None => true,
        },
{
    if u.get_cell(x, y + 1).specie == Species::Empty {
        return Some((x, y + 1));
    }
    if u.get_cell(x + dx, y + 1).specie == Species::Empty {
        return Some((x + dx, y + 1));
    }
    if u.get_cell(x - dx, y + 1).specie == Species::Empty {
        return Some((x - dx, y + 1));
    }
    if u.get_cell(x + dx, y).specie == Species::Empty {
        return Some((x + dx, y));
    }
    if u.get_cell(x - dx, y).specie == Species::Empty {
        return Some((x - dx, y));
    }
    let mut t: i64 = 0;
    while t < 4 * SPREAD
        invariant
            0 <= t <= 4 * SPREAD,
            u.wf(),
            u.spec_in_grid(x as int, y as int),
            side == -1 || side == 1,
            water_plan(*u, x as int, y as int, dx as int, side as int) == spread_from(
                *u,
                x as int,
                y as int,
                side as int,
                t as int,
            ),
        decreases 4 * SPREAD - t,
    {
        let k = t / 4 + 1;
        let s = if (t / 2) % 2 == 0 {
            side as i64
        } else {
            -(side as i64)
        };
        assert(-SPREAD <= s * k <= SPREAD) by (nonlinear_arith)
            requires
                s == -1 || s == 1,
                1 <= k <= SPREAD,
        ;
        let px = x as i64 + s * k;
        let py = if t % 2 == 0 {
            y as i64 + 1
        } else {
            y as i64
        };
        if u.cell_wide(px, py).specie == Species::Empty {
            assert(u.spec_in_grid(px as int, py as int));
            assert((px as int, py as int) == spread_slot(x as int, y as int, side as int, t as int));
            return Some((px as i32, py as i32));
        }
        t += 1;
    }
    None
}

/// The index of slot `(x, y)` of `u`.
pub open spec fn slot(u: Universe, x: int, y: int) -> usize {
    index_of(u.spec_width(), x, y) as usize
}

/// The moves that a sand cell at `(x, y)` stages for `plan`.
pub open spec fn sand_moves(u: Universe, x: int, y: int, plan: SandPlan) -> Seq<Move> {
    match plan {
        SandPlan::Stay => seq![],
        SandPlan::Move(tx, ty) => seq![(slot(u, tx as int, ty as int), slot(u, x, y))],
        SandPlan::Displace(tx, ty, fx, fy) => seq![
            (slot(u, fx as int, fy as int), slot(u, tx as int, ty as int)),
            (slot(u, tx as int, ty as int), slot(u, x, y)),
        ],
    }
}

/// The move that a water cell at `(x, y)` stages to reach `to`, if any.
pub open spec fn water_moves(u: Universe, x: int, y: int, to: Option<(int, int)>) -> Seq<Move> {
    match to {
        Some(p) => seq![(slot(u, p.0, p.1), slot(u, x, y))],
        None => seq![],
    }
}

/// The cell at `(x, y)` was written during the sweep under way.
pub open spec fn moved_this_sweep(u: Universe, x: int, y: int) -> bool {
    u.spec_cell(x, y).clock == u.spec_generation() + 1
}

/// The velocity of the sand cell at `(x, y)` after a frame of `frame_ms`
/// milliseconds.
pub open spec fn sand_velocity(u: Universe, x: int, y: int, frame_ms: int) -> Velocity {
    let c = u.spec_cell(x, y);
    let below = u.spec_cell(x, y + 1);
    let resting = u.spec_in_grid(x, y + 1) && below.specie != Species::Empty && below.specie
        != Species::Water;
    Velocity {
        x: c.velocity.x,
        y: integrated(c.velocity.y as int, u.spec_gravity(), frame_ms, resting) as i32,
    }
}

/// The vertical velocity given to water that sand displaces: four cells
/// per tick upward.
pub const SPLASH_RISE: i32 = -4 * SUBCELLS;

/// The horizontal velocity of a splash of `k` cells per tick.
pub open spec fn splash_speed(k: int) -> int {
    k * SUBCELLS
}

/// Cell `c` splashed upward, with horizontal velocity `sx`.
pub open spec fn splashed(c: Cell, sx: int) -> Cell {
    Cell { specie: c.specie, velocity: Velocity { x: sx as i32, y: SPLASH_RISE }, clock: c.clock }
}

/// The cells of `u` after the sand rule for `(x, y)` carried out `plan`:
/// the cell at `(x, y)` has velocity `v`, the water it displaces, if any,
/// is splashed with horizontal velocity `sx`, and nothing else changes.
pub open spec fn sand_cells(u: Universe, x: int, y: int, v: Velocity, plan: SandPlan, sx: int) -> Seq<
    Cell,
> {
    let w = u.spec_width();
    let c = u.spec_cell(x, y);
    let splashed_cells = match plan {
        SandPlan::Displace(tx, ty, _, _) => u.spec_cells().update(
            index_of(w, tx as int, ty as int),
            splashed(u.spec_cell(tx as int, ty as int), sx),
        ),
        _ => u.spec_cells(),
    };
    splashed_cells.update(index_of(w, x, y), Cell { specie: c.specie, velocity: v, clock: c.clock })
}

/// What the sand rule does for the cell at `(x, y)`: nothing if the cell
/// was written during this sweep; otherwise it stores the cell's new
/// velocity, splashes the water it displaces, and stages the moves of its
/// plan, for a diagonal direction and a splash drawn at random.
pub open spec fn sand_step(before: Universe, after: Universe, x: int, y: int, frame_ms: int) -> bool {
    if moved_this_sweep(before, x, y) {
        after.spec_cells() == before.spec_cells() && after.spec_changes() == before.spec_changes()
    } else {
        let v = sand_velocity(before, x, y, frame_ms);
        exists|dx: int, k: int|
            (dx == -1 || dx == 1) && -2 <= k < 2 && after.spec_cells() == #[trigger] sand_cells(
                before,
                x,
                y,
                v,
                sand_plan(before, x, y, v, dx),
                splash_speed(k),
            ) && after.spec_changes() == before.spec_changes() + sand_moves(
                before,
                x,
                y,
                sand_plan(before, x, y, v, dx),
            )
    }
}

/// What the water rule does for the cell at `(x, y)`: the cells stay as
/// they are; unless the cell was written during this sweep, it stages the
/// move of its plan, for directions drawn at random.
pub open spec fn water_step(before: Universe, after: Universe, x: int, y: int) -> bool {
    &&& after.spec_cells() == before.spec_cells()
    &&& if moved_this_sweep(before, x, y) {
        after.spec_changes() == before.spec_changes()
    } else {
        exists|dx: int, side: int|
            -1 <= dx <= 1 && (side == -1 || side == 1) && after.spec_changes()
                == before.spec_changes() + water_moves(before, x, y, water_plan(before, x, y, dx, side))
    }
}

fn update_sand(x: i32, y: i32, universe: &mut Universe, frame_ms: u32)
    requires
        old(universe).wf(),
        old(universe).spec_in_grid(x as int, y as int),
    ensures
        final(universe).wf(),
        final(universe).same_frame(old(universe)),
        same_species(final(universe).spec_cells(), old(universe).spec_cells()),
        sand_step(*old(universe), *final(universe), x as int, y as int, frame_ms as int),
{
    let ghost before = *universe;
    let cell = universe.get_cell(x, y);
    if cell.clock as i64 == universe.generation() as i64 + 1 {
        return;
    }
    let below = universe.get_cell(x, y + 1);
    let resting = universe.in_bounds(x, y + 1) && below.specie != Species::Empty && below.specie
        != Species::Water;
    let v = Velocity {
        x: cell.velocity.x,
        y: integrate(cell.velocity.y, universe.gravity(), frame_ms, resting),
    };
    let dx = rand_dir_2();
    let plan = plan_sand(universe, x, y, v, dx);
    let ghost mut k: int = 0;
    proof {
        lemma_index_in_range(before.spec_width(), before.spec_height(), x as int, y as int);
    }
    match plan {
        SandPlan::Displace(tx, ty, _, _) => {
            let d = random_below(4) as i32 - 2;
            proof {
                k = d as int;
            }
            proof {
                lemma_index_in_range(before.spec_width(), before.spec_height(), tx as int, ty as int);
            }
            universe.set_velocity(tx, ty, Velocity { x: d * SUBCELLS, y: SPLASH_RISE });
            assert(universe.spec_cells() == before.spec_cells().update(
                index_of(before.spec_width(), tx as int, ty as int),
                splashed(before.spec_cell(tx as int, ty as int), splash_speed(k)),
            ));
        },
        _ => {},
    }
    universe.set_velocity(x, y, v);
    assert(universe.spec_cells() =~= sand_cells(before, x as int, y as int, v, plan, splash_speed(k)));
    match plan {
        SandPlan::Stay => {
            assert(universe.spec_changes() =~= before.spec_changes() + sand_moves(before, x as int, y as int, plan));
        },
        SandPlan::Move(tx, ty) => {
            universe.move_cell(x, y, tx, ty);
            assert(universe.spec_changes() =~= before.spec_changes() + sand_moves(before, x as int, y as int, plan));
        },
        SandPlan::Displace(tx, ty, fx, fy) => {
            universe.move_cell(tx, ty, fx, fy);
            universe.move_cell(x, y, tx, ty);
            assert(universe.spec_changes() =~= before.spec_changes() + sand_moves(before, x as int, y as int, plan));
        },
    }
    assert(sand_plan(before, x as int, y as int, v, dx as int) == plan);
}

fn update_water(x: i32, y: i32, universe: &mut Universe)
    requires
        old(universe).wf(),
        old(universe).spec_in_grid(x as int, y as int),
    ensures
        final(universe).wf(),
        final(universe).same_frame(old(universe)),
        water_step(*old(universe), *final(universe), x as int, y as int),
{
    let ghost before = *universe;
    let cell = universe.get_cell(x, y);
    if cell.clock as i64 == universe.generation() as i64 + 1 {
        return;
    }
    let dx = rand_dir();
    let side = rand_dir_2();
    let to = plan_water(universe, x, y, dx, side);
    match to {
        Some(p) => {
            universe.move_cell(x, y, p.0, p.1);
        },
        None => {},
    }
    assert(universe.spec_changes() =~= before.spec_changes() + water_moves(
        before,
        x as int,
        y as int,
        water_plan(before, x as int, y as int, dx as int, side as int),
    ));
}

} // verus!
