use vstd::prelude::*;
use vstd::arithmetic::div_mod::{lemma_fundamental_div_mod, lemma_fundamental_div_mod_converse};
use crate::cell::{Cell, Velocity, SUBCELLS, wall_cell, empty_cell};
use crate::species::{Species, species_step};
use crate::utils::random_below;
use crate::commit::{
    admitted, admitted_moves, apply_move, apply_moves, enterable_in, is_selection,
    lemma_apply_move_counts, lemma_apply_move_permutes, lemma_selection_same_moves, pick_winners, sort_by_destination,
};

verus! {

/// A staged move: the index of the destination slot, then that of the source.
pub type Move = (usize, usize);

/// `(x, y)` names a slot of a `w` by `h` grid.
pub open spec fn in_grid(w: int, h: int, x: int, y: int) -> bool {
    0 <= x < w && 0 <= y < h
}

/// The row-major index of slot `(x, y)` in a grid of width `w`.
pub open spec fn index_of(w: int, x: int, y: int) -> int {
    x + w * y
}

/// The slot `(x, y)` at row-major index `i` in a grid of width `w`.
pub open spec fn position_of(w: int, i: int) -> (int, int) {
    (i % w, i / w)
}

/// What a query of slot `(x, y)` answers: the stored cell, or the boundary
/// wall outside the grid.
pub open spec fn cell_at(w: int, h: int, cells: Seq<Cell>, x: int, y: int) -> Cell {
    if in_grid(w, h, x, y) {
        cells[index_of(w, x, y)]
    } else {
        wall_cell()
    }
}

/// How many cells of `cells` hold species `s`.
pub open spec fn count_of(cells: Seq<Cell>, s: Species) -> nat
    decreases cells.len(),
{
    if cells.len() == 0 {
        0
    } else {
        count_of(cells.drop_last(), s) + (if cells.last().specie == s { 1nat } else { 0nat })
    }
}

/// How many cells of `cells` hold some material.
pub open spec fn count_non_empty(cells: Seq<Cell>) -> int {
    cells.len() - count_of(cells, Species::Empty)
}

/// Every move of `moves` names two slots of a grid of `n` slots.
pub open spec fn moves_in_range(moves: Seq<Move>, n: int) -> bool {
    forall|k: int| 0 <= k < moves.len() ==> (#[trigger] moves[k]).0 < n && moves[k].1 < n
}

/// `a` and `b` hold the same species slot for slot.
pub open spec fn same_species(a: Seq<Cell>, b: Seq<Cell>) -> bool {
    a.len() == b.len() && forall|i: int| 0 <= i < a.len() ==> (#[trigger] a[i]).specie == b[i].specie
}

pub proof fn lemma_same_species_counts(a: Seq<Cell>, b: Seq<Cell>, s: Species)
    requires
        same_species(a, b),
    ensures
        count_of(a, s) == count_of(b, s),
    decreases a.len(),
{
    if a.len() > 0 {
        assert(a.last().specie == b.last().specie);
        lemma_same_species_counts(a.drop_last(), b.drop_last(), s);
    }
}

/// Slot `(px, py)` lies in the disc of radius `r` centred on `(cx, cy)`.
pub open spec fn in_disc(cx: int, cy: int, r: int, px: int, py: int) -> bool {
    (px - cx) * (px - cx) + (py - cy) * (py - cy) <= r * r
}

/// Painting `mat` over a slot of the disc that holds `c` writes it: when
/// erasing, or when the slot is empty; never when the slot already holds
/// `mat`.
pub open spec fn repainted(c: Species, mat: Species, inside: bool) -> bool {
    inside && mat != c && (c == Species::Empty || mat == Species::Empty)
}

/// `after` is what painting `mat` at generation `g` leaves of `before`.
pub open spec fn paint_ok(before: Cell, after: Cell, mat: Species, inside: bool, g: int) -> bool {
    if repainted(before.specie, mat, inside) {
        after.specie == mat && after.clock == g
    } else {
        after == before
    }
}

/// The disc of slot `i` in a grid of width `w`.
pub open spec fn index_in_disc(w: int, i: int, cx: int, cy: int, r: int) -> bool {
    in_disc(cx, cy, r, position_of(w, i).0, position_of(w, i).1)
}

/// The slot at the index of `(x, y)` is `(x, y)`.
pub proof fn lemma_position_of_index(w: int, x: int, y: int)
    requires
        0 <= x < w,
        0 <= y,
    ensures
        position_of(w, index_of(w, x, y)) == (x, y),
{
    assert(x + w * y == y * w + x) by (nonlinear_arith);
    lemma_fundamental_div_mod_converse(x + w * y, w, y, x);
}

/// The index of a slot of a `w` by `h` grid lies within its `w * h` cells.
pub proof fn lemma_index_in_range(w: int, h: int, x: int, y: int)
    requires
        in_grid(w, h, x, y),
    ensures
        0 <= index_of(w, x, y) < w * h,
{
    assert(0 <= x + w * y < w * h) by (nonlinear_arith)
        requires
            0 <= x < w,
            0 <= y < h,
    ;
}

/// Every index of a `w` by `h` grid is the index of its own slot.
pub proof fn lemma_index_position_round_trip(w: int, h: int, i: int)
    requires
        0 <= w,
        0 <= h,
        0 <= i < w * h,
    ensures
        index_of(w, position_of(w, i).0, position_of(w, i).1) == i,
        in_grid(w, h, position_of(w, i).0, position_of(w, i).1),
{
    assert(w > 0) by (nonlinear_arith)
        requires
            0 <= i < w * h,
            0 <= h,
    ;
    lemma_fundamental_div_mod(i, w);
    let q = i / w;
    let r = i % w;
    assert(q < h) by (nonlinear_arith)
        requires
            i == w * q + r,
            0 <= r < w,
            i < w * h,
    ;
    assert(q >= 0) by (nonlinear_arith)
        requires
            i == w * q + r,
            0 <= r < w,
            i >= 0,
    ;
}

/// A slot whose row lies outside the rows `lo..=hi` of the disc's bounding
/// box that meet the grid lies outside the disc; `a` is the radius's size.
proof fn lemma_row_outside_disc(w: int, h: int, j: int, cx: int, cy: int, r: int, a: int, lo: int, hi: int)
    requires
        w > 0,
        0 <= j < w * h,
        a == if r >= 0 { r } else { -r },
        lo == if cy - a > 0 { cy - a } else { 0 },
        hi == if cy + a < h - 1 { cy + a } else { h - 1 },
        lo > hi || j < w * lo || j >= w * (hi + 1),
    ensures
        !index_in_disc(w, j, cx, cy, r),
{
    lemma_fundamental_div_mod(j, w);
    let q = j / w;
    let m = j % w;
    let dx = m - cx;
    assert(0 <= q < h) by (nonlinear_arith)
        requires
            j == w * q + m,
            0 <= m < w,
            0 <= j < w * h,
    ;
    if j < w * lo {
        assert(q < lo) by (nonlinear_arith)
            requires
                j == w * q + m,
                0 <= m,
                j < w * lo,
                w > 0,
        ;
    } else if j >= w * (hi + 1) {
        assert(q > hi) by (nonlinear_arith)
            requires
                j == w * q + m,
                m < w,
                j >= w * (hi + 1),
                w > 0,
        ;
    }
    let dy = q - cy;
    assert(dy * dy > r * r) by (nonlinear_arith)
        requires
            dy > a || -dy > a,
            a >= 0,
            a == r || a == -r,
    ;
    assert(dx * dx >= 0) by (nonlinear_arith);
}

/// How many of the first `n` slots of a grid of width `w` lie in the disc
/// of radius `r` centred on `(cx, cy)`.
pub open spec fn disc_count(w: int, n: int, cx: int, cy: int, r: int) -> nat
    decreases n,
{
    if n <= 0 {
        0
    } else {
        disc_count(w, n - 1, cx, cy, r) + (if index_in_disc(w, n - 1, cx, cy, r) {
            1nat
        } else {
            0nat
        })
    }
}

pub proof fn lemma_count_uniform(cells: Seq<Cell>, s: Species)
    requires
        forall|i: int| 0 <= i < cells.len() ==> (#[trigger] cells[i]).specie == s,
    ensures
        count_of(cells, s) == cells.len(),
    decreases cells.len(),
{
    if cells.len() > 0 {
        lemma_count_uniform(cells.drop_last(), s);
    }
}

proof fn lemma_count_painted_prefix(
    cells: Seq<Cell>,
    w: int,
    cx: int,
    cy: int,
    r: int,
    mat: Species,
    k: int,
)
    requires
        mat != Species::Empty,
        0 <= k <= cells.len(),
        forall|i: int|
            0 <= i < cells.len() ==> (#[trigger] cells[i]).specie == if index_in_disc(w, i, cx, cy, r) {
                mat
            } else {
                Species::Empty
            },
    ensures
        count_of(cells.take(k), Species::Empty) + disc_count(w, k, cx, cy, r) == k,
    decreases k,
{
    if k > 0 {
        assert(cells.take(k).drop_last() =~= cells.take(k - 1));
        lemma_count_painted_prefix(cells, w, cx, cy, r, mat, k - 1);
    }
}

/// Painting a disc of a material onto an empty grid adds exactly the slots
/// of the grid within the disc to the count of occupied cells, and erasing
/// the same disc afterwards brings the count back to zero.
pub proof fn lemma_paint_conservation(
    w: int,
    h: int,
    cx: int,
    cy: int,
    r: int,
    mat: Species,
    g: int,
    before: Seq<Cell>,
    painted: Seq<Cell>,
    erased: Seq<Cell>,
)
    requires
        0 <= w,
        0 <= h,
        before.len() == w * h,
        forall|i: int| 0 <= i < before.len() ==> (#[trigger] before[i]).specie == Species::Empty,
        mat != Species::Empty,
        painted.len() == before.len(),
        forall|i: int|
            0 <= i < before.len() ==> paint_ok(
                before[i],
                #[trigger] painted[i],
                mat,
                index_in_disc(w, i, cx, cy, r),
                g,
            ),
        erased.len() == before.len(),
        forall|i: int|
            0 <= i < before.len() ==> paint_ok(
                painted[i],
                #[trigger] erased[i],
                Species::Empty,
                index_in_disc(w, i, cx, cy, r),
                g,
            ),
    ensures
        count_non_empty(before) == 0,
        count_non_empty(painted) == count_non_empty(before) + disc_count(w, w * h, cx, cy, r),
        count_non_empty(erased) == 0,
{
    lemma_count_uniform(before, Species::Empty);
    assert forall|i: int| 0 <= i < painted.len() implies (#[trigger] painted[i]).specie == if index_in_disc(
        w,
        i,
        cx,
        cy,
        r,
    ) {
        mat
    } else {
        Species::Empty
    } by {
        assert(before[i].specie == Species::Empty);
    }
    lemma_count_painted_prefix(painted, w, cx, cy, r, mat, painted.len() as int);
    assert(painted.take(painted.len() as int) =~= painted);
    assert forall|i: int| 0 <= i < erased.len() implies (#[trigger] erased[i]).specie == Species::Empty by {
        assert(before[i].specie == Species::Empty);
        assert(paint_ok(painted[i], erased[i], Species::Empty, index_in_disc(w, i, cx, cy, r), g));
    }
    lemma_count_uniform(erased, Species::Empty);
}

/// The `k`-th slot a sweep of a grid of height `h` visits: column by
/// column, top to bottom within a column.
pub open spec fn sweep_slot(h: int, k: int) -> (int, int) {
    (k / h, k % h)
}

/// `states[k + 1]` is what the rule of the cell found at the `k`-th slot
/// of the sweep makes of `states[k]`: the same grid, with the same species
/// in every slot, as that rule leaves it.
pub open spec fn visit_ok(states: Seq<Universe>, k: int, h: int, frame_ms: int) -> bool {
    let p = sweep_slot(h, k);
    &&& states[k + 1].wf()
    &&& states[k + 1].same_frame(&states[k])
    &&& same_species(states[k + 1].spec_cells(), states[k].spec_cells())
    &&& species_step(states[k].spec_cell(p.0, p.1).specie, states[k], states[k + 1], p.0, p.1, frame_ms)
}

/// `states` runs from `before` to `after` through one visit of each slot
/// of the grid, in sweep order.
pub open spec fn sweep_trace(before: Universe, after: Universe, frame_ms: int, states: Seq<Universe>) -> bool {
    let n = before.spec_width() * before.spec_height();
    &&& states.len() == n + 1
    &&& states[0] == before
    &&& states[n] == after
    &&& forall|k: int| 0 <= k < n ==> #[trigger] visit_ok(states, k, before.spec_height(), frame_ms)
}

/// `after` is what the sweep phase of a tick makes of `before`, for frames
/// of `frame_ms` milliseconds.
pub open spec fn is_sweep(before: Universe, after: Universe, frame_ms: int) -> bool {
    exists|states: Seq<Universe>| sweep_trace(before, after, frame_ms, states)
}

/// How many cells of `cells` hold a material that moves: sand or water.
pub open spec fn material_count(cells: Seq<Cell>) -> nat {
    count_of(cells, Species::Sand) + count_of(cells, Species::Water)
}

/// The empty grid of `n` slots.
pub open spec fn all_empty(n: int) -> Seq<Cell> {
    Seq::new(n as nat, |i: int| empty_cell())
}

pub proof fn lemma_count_update(cells: Seq<Cell>, i: int, c: Cell, s: Species)
    requires
        0 <= i < cells.len(),
    ensures
        count_of(cells.update(i, c), s) + (if cells[i].specie == s { 1int } else { 0int })
            == count_of(cells, s) + (if c.specie == s { 1int } else { 0int }),
    decreases cells.len(),
{
    let u = cells.update(i, c);
    if i == cells.len() - 1 {
        assert(u.drop_last() =~= cells.drop_last());
    } else {
        assert(u.drop_last() =~= cells.drop_last().update(i, c));
        lemma_count_update(cells.drop_last(), i, c, s);
    }
}

pub proof fn lemma_count_le_len(cells: Seq<Cell>, s: Species)
    ensures
        count_of(cells, s) <= cells.len(),
    decreases cells.len(),
{
    if cells.len() > 0 {
        lemma_count_le_len(cells.drop_last(), s);
    }
}

pub proof fn lemma_count_all_empty(n: nat)
    ensures
        count_of(all_empty(n as int), Species::Empty) == n,
    decreases n,
{
    if n > 0 {
        assert(all_empty(n as int).drop_last() =~= all_empty(n - 1));
        lemma_count_all_empty((n - 1) as nat);
    }
}

/// The grid: a row-major array of cells, the generation counter, and the
/// moves staged during the current sweep.
pub struct Universe {
    width: i32,
    height: i32,
    cells: Vec<Cell>,
    changes: Vec<Move>,
    generation: i32,
    scale: u32,
    gravity: i32,
    non_empty_cells: u32,
}

impl Universe {
    pub closed spec fn spec_width(&self) -> int {
        self.width as int
    }

    pub closed spec fn spec_height(&self) -> int {
        self.height as int
    }

    pub closed spec fn spec_cells(&self) -> Seq<Cell> {
        self.cells@
    }

    pub closed spec fn spec_changes(&self) -> Seq<Move> {
        self.changes@
    }

    pub closed spec fn spec_generation(&self) -> int {
        self.generation as int
    }

    pub closed spec fn spec_gravity(&self) -> int {
        self.gravity as int
    }

    pub closed spec fn spec_scale(&self) -> int {
        self.scale as int
    }

    pub closed spec fn spec_non_empty(&self) -> int {
        self.non_empty_cells as int
    }

    /// What a query of slot `(x, y)` answers in this grid.
    pub open spec fn spec_cell(&self, x: int, y: int) -> Cell {
        cell_at(self.spec_width(), self.spec_height(), self.spec_cells(), x, y)
    }

    pub open spec fn spec_in_grid(&self, x: int, y: int) -> bool {
        in_grid(self.spec_width(), self.spec_height(), x, y)
    }

    /// The grid's invariant.
    pub open spec fn wf(&self) -> bool {
        &&& 0 <= self.spec_width() <= i32::MAX
        &&& 0 <= self.spec_height() <= i32::MAX
        &&& self.spec_width() * self.spec_height() <= i32::MAX
        &&& self.spec_cells().len() == self.spec_width() * self.spec_height()
        &&& 0 <= self.spec_generation()
        &&& 0 <= self.spec_gravity()
        &&& self.spec_non_empty() == count_non_empty(self.spec_cells())
        &&& forall|i: int|
            0 <= i < self.spec_cells().len() ==> (#[trigger] self.spec_cells()[i]).clock
                <= self.spec_generation() + 1
        &&& moves_in_range(self.spec_changes(), self.spec_cells().len() as int)
    }

    /// The same grid but for its cells, count of occupied cells and staged
    /// moves.
    pub open spec fn same_frame(&self, other: &Universe) -> bool {
        &&& self.spec_width() == other.spec_width()
        &&& self.spec_height() == other.spec_height()
        &&& self.spec_generation() == other.spec_generation()
        &&& self.spec_gravity() == other.spec_gravity()
        &&& self.spec_scale() == other.spec_scale()
    }

    /// An all-Empty grid of `width` by `height` cells at generation 0.
    /// `gravity` is in thousandths of a cell: each frame adds it, times the
    /// frame's length in seconds, to a sand cell's vertical velocity, which
    /// it also bounds. `scale` is the size of a cell on screen, for the
    /// renderer.
    pub fn new(width: i32, height: i32, gravity: i32, scale: u32) -> (r: Universe)
        requires
            0 <= width,
            0 <= height,
            width * height <= i32::MAX,
            0 <= gravity,
        ensures
            r.wf(),
            r.spec_width() == width,
            r.spec_height() == height,
            r.spec_gravity() == gravity,
            r.spec_scale() == scale,
            r.spec_generation() == 0,
            r.spec_cells() == all_empty(width * height),
            r.spec_changes().len() == 0,
            r.spec_non_empty() == 0,
    {
        let n: usize = (width * height) as usize;
        let mut cells: Vec<Cell> = Vec::new();
        while cells.len() < n
            invariant
                cells.len() <= n,
                forall|i: int| 0 <= i < cells.len() ==> cells@[i] == empty_cell(),
            decreases n - cells.len(),
        {
            cells.push(Cell::empty());
        }
        assert(cells@ =~= all_empty(n as int));
        proof {
            lemma_count_all_empty(n as nat);
        }
        Universe {
            width,
            height,
            cells,
            changes: Vec::new(),
            generation: 0,
            scale,
            gravity,
            non_empty_cells: 0,
        }
    }

    pub fn width(&self) -> (r: i32)
        ensures
            r == self.spec_width(),
    {
        self.width
    }

    pub fn height(&self) -> (r: i32)
        ensures
            r == self.spec_height(),
    {
        self.height
    }

    pub fn scale(&self) -> (r: u32)
        ensures
            r == self.spec_scale(),
    {
        self.scale
    }

    pub fn generation(&self) -> (r: i32)
        ensures
            r == self.spec_generation(),
    {
        self.generation
    }

    /// Gravity, in thousandths of a cell per second per second.
    pub fn gravity(&self) -> (r: i32)
        ensures
            r == self.spec_gravity(),
    {
        self.gravity
    }

    /// How many cells hold some material.
    pub fn non_empty_cells(&self) -> (r: u32)
        requires
            self.wf(),
        ensures
            r == count_non_empty(self.spec_cells()),
    {
        self.non_empty_cells
    }

    /// How many moves are staged.
    pub fn pending_moves(&self) -> (r: usize)
        ensures
            r == self.spec_changes().len(),
    {
        self.changes.len()
    }

    pub fn in_bounds(&self, x: i32, y: i32) -> (r: bool)
        ensures
            r == self.spec_in_grid(x as int, y as int),
    {
        0 <= x && x < self.width && 0 <= y && y < self.height
    }

    /// The row-major index of slot `(x, y)`.
    pub fn get_index(&self, x: i32, y: i32) -> (r: usize)
        requires
            self.wf(),
            self.spec_in_grid(x as int, y as int),
        ensures
            r == index_of(self.spec_width(), x as int, y as int),
            r < self.spec_cells().len(),
    {
        let w = self.width;
        let h = self.height;
        assert(0 <= x + w * y < w * h) by (nonlinear_arith)
            requires
                0 <= x < w,
                0 <= y < h,
        ;
        (x + self.width * y) as usize
    }

    /// The slot at row-major index `index`.
    pub fn get_position(&self, index: i32) -> (r: (i32, i32))
        requires
            self.wf(),
            0 <= index,
            0 < self.spec_width(),
        ensures
            r.0 == position_of(self.spec_width(), index as int).0,
            r.1 == position_of(self.spec_width(), index as int).1,
    {
        (index % self.width, index / self.width)
    }

    /// The cell at `(x, y)`, or the boundary wall outside the grid.
    pub fn get_cell(&self, x: i32, y: i32) -> (r: Cell)
        requires
            self.wf(),
        ensures
            r == self.spec_cell(x as int, y as int),
            r.clock <= self.spec_generation() + 1,
            !self.spec_in_grid(x as int, y as int) ==> r == wall_cell(),
    {
        if !self.in_bounds(x, y) {
            return Cell::wall();
        }
        let i = self.get_index(x, y);
        self.cells[i]
    }

    /// The cell at `(x, y)`, or the boundary wall outside the grid, for
    /// coordinates that may lie outside the range of `i32`.
    pub fn cell_wide(&self, x: i64, y: i64) -> (r: Cell)
        requires
            self.wf(),
        ensures
            r == self.spec_cell(x as int, y as int),
            r.clock <= self.spec_generation() + 1,
    {
        if i32::MIN as i64 <= x && x <= i32::MAX as i64 && i32::MIN as i64 <= y && y
            <= i32::MAX as i64 {
            self.get_cell(x as i32, y as i32)
        } else {
            Cell::wall()
        }
    }

    /// Whether `(x, y)` is a slot of the grid holding no material.
    pub fn is_empty(&self, x: i32, y: i32) -> (r: bool)
        requires
            self.wf(),
        ensures
            r == (self.spec_in_grid(x as int, y as int) && self.spec_cell(x as int, y as int).specie
                == Species::Empty),
    {
        self.in_bounds(x, y) && self.get_cell(x, y).specie == Species::Empty
    }

    /// Overwrites slot `(x, y)` with `cell`; outside the grid nothing changes.
    pub fn set(&mut self, x: i32, y: i32, cell: Cell)
        requires
            old(self).wf(),
            cell.clock <= old(self).spec_generation() + 1,
        ensures
            final(self).wf(),
            final(self).same_frame(old(self)),
            final(self).spec_changes() == old(self).spec_changes(),
            final(self).spec_cells() == if old(self).spec_in_grid(x as int, y as int) {
                old(self).spec_cells().update(
                    index_of(old(self).spec_width(), x as int, y as int),
                    cell,
                )
            } else {
                old(self).spec_cells()
            },
    {
        if self.in_bounds(x, y) {
            let i = self.get_index(x, y);
            self.put(i, cell);
        }
    }

    /// Gives the cell at `(x, y)` velocity `v`; outside the grid nothing
    /// changes.
    pub fn set_velocity(&mut self, x: i32, y: i32, v: Velocity)
        requires
            old(self).wf(),
        ensures
            final(self).wf(),
            final(self).same_frame(old(self)),
            final(self).spec_changes() == old(self).spec_changes(),
            same_species(final(self).spec_cells(), old(self).spec_cells()),
            final(self).spec_cells() == if old(self).spec_in_grid(x as int, y as int) {
                old(self).spec_cells().update(
                    index_of(old(self).spec_width(), x as int, y as int),
                    Cell { velocity: v, ..old(self).spec_cell(x as int, y as int) },
                )
            } else {
                old(self).spec_cells()
            },
    {
        if self.in_bounds(x, y) {
            let i = self.get_index(x, y);
            let c = self.cells[i];
            self.put(i, Cell { specie: c.specie, velocity: v, clock: c.clock });
        }
    }

    /// Overwrites the slot at index `i` with `cell`, keeping the count of
    /// occupied cells.
    fn put(&mut self, i: usize, cell: Cell)
        requires
            old(self).wf(),
            i < old(self).spec_cells().len(),
            cell.clock <= old(self).spec_generation() + 1,
        ensures
            final(self).wf(),
            final(self).same_frame(old(self)),
            final(self).spec_changes() == old(self).spec_changes(),
            final(self).spec_cells() == old(self).spec_cells().update(i as int, cell),
    {
        let prev = self.cells[i];
        proof {
            lemma_count_update(self.cells@, i as int, cell, Species::Empty);
            lemma_count_le_len(self.cells@, Species::Empty);
            lemma_count_le_len(self.cells@.update(i as int, cell), Species::Empty);
        }
        let mut count = self.non_empty_cells;
        if cell.specie != Species::Empty {
            count = count + 1;
        }
        if prev.specie != Species::Empty {
            count = count - 1;
        }
        self.non_empty_cells = count;
        self.cells[i] = cell;
    }

    /// Stages a move of the cell at `(x, y)` to `(xto, yto)`; the grid is
    /// not touched. A move with an end outside the grid is not staged.
    pub fn move_cell(&mut self, x: i32, y: i32, xto: i32, yto: i32)
        requires
            old(self).wf(),
        ensures
            final(self).wf(),
            final(self).same_frame(old(self)),
            final(self).spec_cells() == old(self).spec_cells(),
            final(self).spec_changes() == if old(self).spec_in_grid(x as int, y as int)
                && old(self).spec_in_grid(xto as int, yto as int) {
                old(self).spec_changes().push(
                    (
                        index_of(old(self).spec_width(), xto as int, yto as int) as usize,
                        index_of(old(self).spec_width(), x as int, y as int) as usize,
                    ),
                )
            } else {
                old(self).spec_changes()
            },
    {
        if self.in_bounds(x, y) && self.in_bounds(xto, yto) {
            let dst = self.get_index(xto, yto);
            let src = self.get_index(x, y);
            self.changes.push((dst, src));
        }
    }

    /// Carries out the staged moves and clears them. Moves into a slot that
    /// holds neither nothing nor water are dropped; of the moves into one
    /// slot exactly one, drawn uniformly at random, goes ahead, and the
    /// others leave their cells where they are. The survivors are carried
    /// out in ascending order of destination, each swapping its two slots.
    pub fn commit_changes(&mut self)
        requires
            old(self).wf(),
        ensures
            final(self).wf(),
            final(self).same_frame(old(self)),
            final(self).spec_changes().len() == 0,
            exists|w: Seq<Move>|
                is_selection(admitted(old(self).spec_cells(), old(self).spec_changes()), w)
                    && final(self).spec_cells() == apply_moves(old(self).spec_cells(), w),
            final(self).spec_cells().to_multiset() == old(self).spec_cells().to_multiset(),
            forall|s: Species| count_of(final(self).spec_cells(), s) == count_of(old(self).spec_cells(), s),
    {
        let ghost c0 = self.cells@;
        let ghost moves0 = self.changes@;
        let admitted_list = admitted_moves(&self.cells, &self.changes);
        let sorted = sort_by_destination(&admitted_list);
        let winners = pick_winners(&sorted);
        proof {
            lemma_selection_same_moves(sorted@, admitted_list@, winners@);
        }
        let mut j: usize = 0;
        while j < winners.len()
            invariant
                self.wf(),
                self.same_frame(old(self)),
                self.spec_changes() == moves0,
                j <= winners.len(),
                is_selection(admitted(c0, moves0), winners@),
                c0 == old(self).spec_cells(),
                c0.len() == self.spec_cells().len(),
                moves_in_range(moves0, c0.len() as int),
                moves0 == old(self).spec_changes(),
                self.spec_cells() == apply_moves(c0, winners@.take(j as int)),
                self.spec_cells().to_multiset() == c0.to_multiset(),
                forall|s: Species| count_of(self.spec_cells(), s) == count_of(c0, s),
            decreases winners.len() - j,
        {
            let m = winners[j];
            proof {
                assert(admitted(c0, moves0).contains(winners@[j as int]));
                moves0.lemma_filter_contains_rev(enterable_in(c0), m);
                let k = choose|k: int| 0 <= k < moves0.len() && moves0[k] == m;
                assert(moves0[k].0 < c0.len());
                assert(winners@.take(j + 1).drop_last() =~= winners@.take(j as int));
                assert forall|s: Species| count_of(apply_move(self.cells@, m), s) == count_of(c0, s) by {
                    lemma_apply_move_counts(self.cells@, m, s);
                }
                lemma_apply_move_permutes(self.cells@, m);
            }
            let (dst, src) = m;
            let mover = self.cells[src];
            let there = self.cells[dst];
            self.put(src, there);
            self.put(dst, mover);
            j += 1;
        }
        assert(winners@.take(winners.len() as int) =~= winners@);
        self.changes = Vec::new();
    }

    /// Advances the simulation by one generation: every cell, column by
    /// column and top to bottom within a column, runs its species' rule,
    /// which stages moves; then the generation counter goes up (it stops at
    /// `i32::MAX`) and the staged moves are committed. `frame_ms` is the
    /// length of the frame in milliseconds, over which gravity acts.
    pub fn tick(&mut self, frame_ms: u32)
        requires
            old(self).wf(),
        ensures
            final(self).wf(),
            final(self).spec_width() == old(self).spec_width(),
            final(self).spec_height() == old(self).spec_height(),
            final(self).spec_gravity() == old(self).spec_gravity(),
            final(self).spec_scale() == old(self).spec_scale(),
            final(self).spec_generation() == if old(self).spec_generation() < i32::MAX {
                old(self).spec_generation() + 1
            } else {
                old(self).spec_generation()
            },
            final(self).spec_changes().len() == 0,
            forall|s: Species| count_of(final(self).spec_cells(), s) == count_of(old(self).spec_cells(), s),
            material_count(final(self).spec_cells()) == material_count(old(self).spec_cells()),
            count_non_empty(final(self).spec_cells()) == count_non_empty(old(self).spec_cells()),
            exists|swept: Universe|
                is_sweep(*old(self), swept, frame_ms as int) && swept.same_frame(old(self)) && exists|
                    w: Seq<Move>,
                |
                    is_selection(admitted(swept.spec_cells(), swept.spec_changes()), w)
                        && final(self).spec_cells() == apply_moves(swept.spec_cells(), w),
    {
        let ghost start = *self;
        let ghost mut states: Seq<Universe> = seq![start];
        let h = self.height;
        let mut x: i32 = 0;
        while x < self.width
            invariant
                self.wf(),
                self.same_frame(old(self)),
                start == *old(self),
                h == start.spec_height(),
                same_species(self.spec_cells(), old(self).spec_cells()),
                0 <= x <= self.spec_width(),
                states.len() == x * h + 1,
                states[0] == start,
                states.last() == *self,
                forall|k: int| 0 <= k < x * h ==> #[trigger] visit_ok(states, k, h as int, frame_ms as int),
            decreases self.spec_width() - x,
        {
            let mut y: i32 = 0;
            while y < h
                invariant
                    self.wf(),
                    self.same_frame(old(self)),
                    start == *old(self),
                    h == start.spec_height(),
                    same_species(self.spec_cells(), old(self).spec_cells()),
                    0 <= x < self.spec_width(),
                    0 <= y <= h,
                    states.len() == x * h + y + 1,
                    states[0] == start,
                    states.last() == *self,
                    forall|k: int|
                        0 <= k < x * h + y ==> #[trigger] visit_ok(states, k, h as int, frame_ms as int),
                decreases h - y,
            {
                let ghost before = *self;
                let cell = self.get_cell(x, y);
                cell.update(x, y, self, frame_ms);
                proof {
                    let k = x * h + y;
                    lemma_fundamental_div_mod_converse(k, h as int, x as int, y as int);
                    let prev = states;
                    states = states.push(*self);
                    assert(states[k] == before);
                    assert(visit_ok(states, k, h as int, frame_ms as int));
                    assert forall|j: int| 0 <= j < k + 1 implies #[trigger] visit_ok(
                        states,
                        j,
                        h as int,
                        frame_ms as int,
                    ) by {
                        if j < k {
                            assert(visit_ok(prev, j, h as int, frame_ms as int));
                            assert(states[j] == prev[j]);
                            assert(states[j + 1] == prev[j + 1]);
                        }
                    }
                }
                y += 1;
            }
            proof {
                assert((x + 1) * h == x * h + h) by (nonlinear_arith);
            }
            x += 1;
        }
        let ghost swept = *self;
        proof {
            assert(sweep_trace(start, swept, frame_ms as int, states));
        }
        if self.generation < i32::MAX {
            self.generation = self.generation + 1;
        }
        self.commit_changes();
        proof {
            assert forall|s: Species| count_of(self.spec_cells(), s) == count_of(old(self).spec_cells(), s) by {
                lemma_same_species_counts(swept.spec_cells(), old(self).spec_cells(), s);
            }
        }
    }

    /// Paints a disc of `mat` of radius `radius` (its size, whatever the
    /// sign) centred on `(x, y)`: each
    /// slot of the grid within it is overwritten when `mat` is Empty (an
    /// erase) or when the slot is empty, and left alone when it holds `mat`
    /// already. A written cell is stamped with the current generation and,
    /// for the sand rule, gets a small random velocity.
    pub fn paint(&mut self, x: i32, y: i32, radius: i32, mat: Species)
        requires
            old(self).wf(),
        ensures
            final(self).wf(),
            final(self).same_frame(old(self)),
            final(self).spec_changes() == old(self).spec_changes(),
            final(self).spec_cells().len() == old(self).spec_cells().len(),
            forall|i: int|
                0 <= i < old(self).spec_cells().len() ==> paint_ok(
                    old(self).spec_cells()[i],
                    #[trigger] final(self).spec_cells()[i],
                    mat,
                    index_in_disc(old(self).spec_width(), i, x as int, y as int, radius as int),
                    old(self).spec_generation(),
                ),
    {
        let ghost c0 = self.cells@;
        let n = self.cells.len();
        let w = self.width;
        let h = self.height;
        if n == 0 {
            return;
        }
        let reach: i64 = if radius >= 0 {
            radius as i64
        } else {
            -(radius as i64)
        };
        proof {
            assert(w > 0) by (nonlinear_arith)
                requires
                    n == w * h,
                    n > 0,
                    w >= 0,
                    h >= 0,
            ;
        }
        // The rows of the disc's bounding box that lie in the grid.
        let lo: i64 = if y as i64 - reach > 0 {
            y as i64 - reach
        } else {
            0
        };
        let hi: i64 = if (y as i64 + reach) < h as i64 - 1 {
            y as i64 + reach
        } else {
            h as i64 - 1
        };
        if lo > hi {
            proof {
                assert forall|j: int| 0 <= j < n implies paint_ok(
                    c0[j],
                    #[trigger] self.spec_cells()[j],
                    mat,
                    index_in_disc(w as int, j, x as int, y as int, radius as int),
                    self.spec_generation(),
                ) by {
                    lemma_row_outside_disc(w as int, h as int, j, x as int, y as int, radius as int, reach as int, lo as int, hi as int);
                }
            }
            return;
        }
        proof {
            assert(w * lo <= w * (hi + 1) <= w * h) by (nonlinear_arith)
                requires
                    w > 0,
                    0 <= lo <= hi,
                    hi < h,
            ;
        }
        let first = (w as i64 * lo) as usize;
        let last = (w as i64 * (hi + 1)) as usize;
        let mut i: usize = first;
        let mut px: i32 = 0;
        let mut py: i32 = lo as i32;
        while i < last
            invariant
                self.wf(),
                self.same_frame(old(self)),
                self.spec_changes() == old(self).spec_changes(),
                c0 == old(self).spec_cells(),
                n == c0.len(),
                w == self.spec_width(),
                w > 0,
                self.spec_cells().len() == n,
                first <= i <= last <= n,
                i == px + w * py,
                0 <= py,
                0 <= px < w,
                forall|j: int|
                    first <= j < i ==> paint_ok(
                        c0[j],
                        #[trigger] self.spec_cells()[j],
                        mat,
                        index_in_disc(w as int, j, x as int, y as int, radius as int),
                        self.spec_generation(),
                    ),
                forall|j: int|
                    (0 <= j < first || i <= j < n) ==> #[trigger] self.spec_cells()[j] == c0[j],
            decreases last - i,
        {
            proof {
                lemma_position_of_index(w as int, px as int, py as int);
            }
            let dx = px as i128 - x as i128;
            let dy = py as i128 - y as i128;
            let r = radius as i128;
            proof {
                assert(0 <= dx * dx <= 0x1_0000_0000_0000_0000) by (nonlinear_arith)
                    requires
                        -0x1_0000_0000 <= dx <= 0x1_0000_0000,
                ;
                assert(0 <= dy * dy <= 0x1_0000_0000_0000_0000) by (nonlinear_arith)
                    requires
                        -0x1_0000_0000 <= dy <= 0x1_0000_0000,
                ;
                assert(0 <= r * r <= 0x1_0000_0000_0000_0000) by (nonlinear_arith)
                    requires
                        -0x1_0000_0000 <= r <= 0x1_0000_0000,
                ;
            }
            let inside = dx * dx + dy * dy <= r * r;
            let current = self.cells[i].specie;
            if inside && mat != current && (current == Species::Empty || mat == Species::Empty) {
                let vx = random_below(2 * SUBCELLS as usize) as i32 - SUBCELLS;
                let vy = random_below(7 * SUBCELLS as usize) as i32 - 2 * SUBCELLS;
                self.put(
                    i,
                    Cell { specie: mat, velocity: Velocity { x: vx, y: vy }, clock: self.generation },
                );
            }
            i += 1;
            if px + 1 == w {
                px = 0;
                py += 1;
                assert(i == px + w * py) by (nonlinear_arith)
                    requires
                        i == w + w * (py - 1),
                        px == 0,
                ;
            } else {
                px += 1;
            }
        }
        proof {
            assert forall|j: int| 0 <= j < n implies paint_ok(
                c0[j],
                #[trigger] self.spec_cells()[j],
                mat,
                index_in_disc(w as int, j, x as int, y as int, radius as int),
                self.spec_generation(),
            ) by {
                if j < first || j >= last {
                    lemma_row_outside_disc(w as int, h as int, j, x as int, y as int, radius as int, reach as int, lo as int, hi as int);
                }
            }
        }
    }
}

} // verus!