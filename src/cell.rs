use vstd::prelude::*;
use crate::species::{Species, species_step};
use crate::universe::{Universe, same_species};

verus! {

/// Number of velocity units in one cell: velocities are kept in
/// thousandths of a cell.
pub const SUBCELLS: i32 = 1000;

/// A velocity in thousandths of a cell per tick.
#[derive(Clone, Copy, PartialEq, Eq, Debug, Structural)]
pub struct Velocity {
    pub x: i32,
    pub y: i32,
}

/// The state of one grid slot.
#[derive(Clone, Copy, Debug)]
pub struct Cell {
    /// The material held.
    pub specie: Species,
    /// The velocity, used by the sand rule.
    pub velocity: Velocity,
    /// The generation at which the cell was last written.
    pub clock: i32,
}

/// The empty cell: no material, at rest, never written.
pub open spec fn empty_cell() -> Cell {
    Cell { specie: Species::Empty, velocity: Velocity { x: 0, y: 0 }, clock: 0 }
}

/// The immovable wall that stands for every slot outside the grid.
pub open spec fn wall_cell() -> Cell {
    Cell { specie: Species::Wall, velocity: Velocity { x: 0, y: 0 }, clock: 0 }
}

impl Cell {
    pub fn new(specie: Species, clock: i32, velocity: Velocity) -> (r: Cell)
        ensures
            r == (Cell { specie, velocity, clock }),
    {
        Cell { specie, velocity, clock }
    }

    /// A copy of `c` whose clock has advanced by one generation.
    pub fn from(c: Cell) -> (r: Cell)
        requires
            c.clock < i32::MAX,
        ensures
            r.specie == c.specie,
            r.velocity == c.velocity,
            r.clock == c.clock + 1,
    {
        Cell { specie: c.specie, clock: c.clock + 1, velocity: c.velocity }
    }

    pub fn empty() -> (r: Cell)
        ensures
            r == empty_cell(),
    {
        Cell { specie: Species::Empty, velocity: Velocity { x: 0, y: 0 }, clock: 0 }
    }

    pub fn wall() -> (r: Cell)
        ensures
            r == wall_cell(),
    {
        Cell { specie: Species::Wall, velocity: Velocity { x: 0, y: 0 }, clock: 0 }
    }

    /// Runs the rule of this cell's species for the cell at `(x, y)`.
    pub fn update(&self, x: i32, y: i32, universe: &mut Universe, frame_ms: u32)
        requires
            old(universe).wf(),
            old(universe).spec_in_grid(x as int, y as int),
        ensures
            final(universe).wf(),
            final(universe).same_frame(old(universe)),
            same_species(final(universe).spec_cells(), old(universe).spec_cells()),
            species_step(
                self.specie,
                *old(universe),
                *final(universe),
                x as int,
                y as int,
                frame_ms as int,
            ),
    {
        self.specie.update(x, y, universe, frame_ms)
    }

    pub fn clock(&self) -> (r: i32)
        ensures
            r == self.clock,
    {
        self.clock
    }

    pub fn specie(&self) -> (r: Species)
        ensures
            r == self.specie,
    {
        self.specie
    }
}

} // verus!
