use sand_sim::cell::{Cell, Velocity};
use sand_sim::species::Species;
use sand_sim::universe::Universe;

const GRAVITY: i32 = 10_000;
const FRAME_MS: u32 = 16;

fn at_rest(specie: Species) -> Cell {
    Cell::new(specie, 0, Velocity { x: 0, y: 0 })
}

fn count(u: &Universe, specie: Species) -> usize {
    let mut n = 0;
    for x in 0..u.width() {
        for y in 0..u.height() {
            if u.get_cell(x, y).specie() == specie {
                n += 1;
            }
        }
    }
    n
}

#[test]
fn new_universe() {
    let u = Universe::new(433 / 5, 367 / 5, GRAVITY, 5);
    let len = (u.width() * u.height()) as usize;
    assert_eq!(len, 86 * 73);
    for i in 0..len {
        let xy = u.get_position(i as i32);

        let x = i % u.width() as usize;
        let y = i / u.width() as usize;

        assert_eq!((xy.0 as usize, xy.1 as usize), (x, y));
        assert_eq!(
            u.get_index(xy.0, xy.1),
            u.get_index(x as i32, y as i32),
            "Testing get_position"
        );
        assert_eq!(u.get_index(xy.0, xy.1), i, "Testing get_index");
    }
}

#[test]
fn new_grid_is_empty() {
    let u = Universe::new(4, 3, GRAVITY, 5);
    assert_eq!(u.width(), 4);
    assert_eq!(u.height(), 3);
    assert_eq!(u.generation(), 0);
    assert_eq!(u.gravity(), GRAVITY);
    assert_eq!(u.scale(), 5);
    assert_eq!(u.non_empty_cells(), 0);
    assert_eq!(count(&u, Species::Empty), 12);
    assert_eq!(u.pending_moves(), 0);
}

#[test]
fn zero_area_grid_ticks() {
    let mut u = Universe::new(0, 0, GRAVITY, 5);
    u.tick(FRAME_MS);
    u.paint(0, 0, 3, Species::Sand);
    assert_eq!(u.generation(), 1);
    assert_eq!(u.non_empty_cells(), 0);
    assert_eq!(u.get_cell(0, 0).specie(), Species::Wall);
}

#[test]
fn index_position_round_trip() {
    let u = Universe::new(7, 5, GRAVITY, 5);
    for i in 0..35 {
        let (x, y) = u.get_position(i);
        assert_eq!(u.get_index(x, y), i as usize);
    }
    assert_eq!(u.get_position(9), (2, 1));
    assert_eq!(u.get_index(6, 4), 34);
}

#[test]
fn boundary_sentinel() {
    let mut u = Universe::new(3, 2, GRAVITY, 5);
    u.paint(1, 1, 5, Species::Sand);
    assert_eq!(u.non_empty_cells(), 6);
    for (x, y) in [(-1, 0), (3, 0), (0, -1), (0, 2), (i32::MIN, i32::MAX), (i32::MAX, 0)] {
        let c = u.get_cell(x, y);
        assert_eq!(c.specie(), Species::Wall);
        assert_eq!(c.clock(), 0);
        assert!(!u.in_bounds(x, y));
        assert!(!u.is_empty(x, y));
    }
}

#[test]
fn set_outside_grid_changes_nothing() {
    let mut u = Universe::new(3, 3, GRAVITY, 5);
    u.set(3, 0, at_rest(Species::Sand));
    u.set(-1, 2, at_rest(Species::Sand));
    assert_eq!(u.non_empty_cells(), 0);
    u.set(2, 2, at_rest(Species::Sand));
    assert_eq!(u.non_empty_cells(), 1);
    assert_eq!(u.get_cell(2, 2).specie(), Species::Sand);
    u.set(2, 2, at_rest(Species::Empty));
    assert_eq!(u.non_empty_cells(), 0);
}

#[test]
fn paint_counts_disc_cells() {
    let mut u = Universe::new(20, 20, GRAVITY, 5);
    u.paint(10, 10, 3, Species::Sand);
    assert_eq!(u.non_empty_cells(), 29);
    assert_eq!(count(&u, Species::Sand), 29);
    assert_eq!(u.get_cell(13, 10).specie(), Species::Sand);
    assert_eq!(u.get_cell(12, 13).specie(), Species::Empty);
    assert_eq!(u.get_cell(12, 12).specie(), Species::Sand);
    u.paint(10, 10, 3, Species::Empty);
    assert_eq!(u.non_empty_cells(), 0);
    assert_eq!(count(&u, Species::Empty), 400);
}

#[test]
fn paint_clipped_by_grid_edge() {
    let mut u = Universe::new(5, 5, GRAVITY, 5);
    u.paint(0, 0, 2, Species::Water);
    assert_eq!(u.non_empty_cells(), 6);
    assert_eq!(count(&u, Species::Water), 6);
    u.paint(-10, -10, 2, Species::Water);
    assert_eq!(u.non_empty_cells(), 6);
    u.paint(4, 4, -1, Species::Water);
    assert_eq!(u.non_empty_cells(), 9);
    assert_eq!(u.get_cell(3, 4).specie(), Species::Water);
    assert_eq!(u.get_cell(3, 3).specie(), Species::Empty);
}

#[test]
fn paint_never_clobbers_material() {
    let mut u = Universe::new(5, 5, GRAVITY, 5);
    u.set(2, 2, at_rest(Species::Water));
    u.set(2, 3, at_rest(Species::Wall));
    u.paint(2, 2, 1, Species::Sand);
    assert_eq!(u.get_cell(2, 2).specie(), Species::Water);
    assert_eq!(u.get_cell(2, 3).specie(), Species::Wall);
    assert_eq!(u.get_cell(2, 1).specie(), Species::Sand);
    assert_eq!(u.get_cell(2, 1).clock(), 0);
    assert_eq!(u.non_empty_cells(), 5);
    u.paint(2, 2, 0, Species::Water);
    assert_eq!(u.non_empty_cells(), 5);
    u.paint(2, 3, 0, Species::Empty);
    assert_eq!(u.get_cell(2, 3).specie(), Species::Empty);
    assert_eq!(u.non_empty_cells(), 4);
}

#[test]
fn sand_falls_to_the_floor() {
    let mut u = Universe::new(3, 3, GRAVITY, 5);
    u.set(1, 0, at_rest(Species::Sand));
    u.tick(FRAME_MS);
    assert_eq!(u.get_cell(1, 1).specie(), Species::Sand);
    assert_eq!(u.get_cell(1, 0).specie(), Species::Empty);
    assert_eq!(u.get_cell(1, 1).clock(), 0);
    u.tick(FRAME_MS);
    assert_eq!(u.get_cell(1, 2).specie(), Species::Sand);
    u.tick(FRAME_MS);
    assert_eq!(u.get_cell(1, 2).specie(), Species::Sand);
    assert_eq!(count(&u, Species::Sand), 1);
    assert_eq!(u.generation(), 3);
}

#[test]
fn two_grains_contend_for_one_slot() {
    let mut contested = 0;
    for seed in 0..200u64 {
        macroquad::rand::srand(seed);
        let mut u = Universe::new(3, 2, GRAVITY, 5);
        u.set(0, 1, at_rest(Species::Wall));
        u.set(2, 1, at_rest(Species::Wall));
        u.set(0, 0, at_rest(Species::Sand));
        u.set(2, 0, at_rest(Species::Sand));
        u.tick(FRAME_MS);
        assert_eq!(count(&u, Species::Sand), 2);
        assert_eq!(count(&u, Species::Wall), 2);
        if u.get_cell(1, 1).specie() == Species::Sand {
            contested += 1;
            let left = u.get_cell(0, 0).specie() == Species::Sand;
            let right = u.get_cell(2, 0).specie() == Species::Sand;
            assert!(left != right);
        } else {
            assert_eq!(u.get_cell(0, 0).specie(), Species::Sand);
            assert_eq!(u.get_cell(2, 0).specie(), Species::Sand);
        }
    }
    assert!(contested > 0);
}

#[test]
fn water_spreads_sideways() {
    for seed in 0..100u64 {
        macroquad::rand::srand(seed);
        let mut u = Universe::new(5, 1, GRAVITY, 5);
        u.set(2, 0, at_rest(Species::Water));
        u.tick(FRAME_MS);
        assert_eq!(u.get_cell(2, 0).specie(), Species::Empty);
        let left = u.get_cell(1, 0).specie() == Species::Water;
        let right = u.get_cell(3, 0).specie() == Species::Water;
        assert!(left != right);
        assert_eq!(count(&u, Species::Water), 1);
    }
}

#[test]
fn commit_applies_one_of_two_contenders() {
    let mut wins_left = 0;
    let trials = 1000;
    for seed in 0..trials {
        macroquad::rand::srand(seed);
        let mut u = Universe::new(3, 2, GRAVITY, 5);
        u.set(0, 0, at_rest(Species::Sand));
        u.set(2, 0, Cell::new(Species::Sand, 0, Velocity { x: 7, y: 0 }));
        u.move_cell(0, 0, 1, 1);
        u.move_cell(2, 0, 1, 1);
        assert_eq!(u.pending_moves(), 2);
        u.commit_changes();
        assert_eq!(u.pending_moves(), 0);
        assert_eq!(u.get_cell(1, 1).specie(), Species::Sand);
        let left = u.get_cell(0, 0).specie() == Species::Sand;
        let right = u.get_cell(2, 0).specie() == Species::Sand;
        assert!(left != right);
        assert_eq!(u.get_cell(1, 1).clock(), 0);
        if right {
            wins_left += 1;
            assert_eq!(u.get_cell(1, 1).velocity.x, 0);
            assert_eq!(u.get_cell(2, 0).velocity.x, 7);
        } else {
            assert_eq!(u.get_cell(1, 1).velocity.x, 7);
        }
    }
    assert!(wins_left > 400 && wins_left < 600, "left won {} of {}", wins_left, trials);
}

#[test]
fn commit_drops_moves_into_solid_slots() {
    let mut u = Universe::new(3, 3, GRAVITY, 5);
    u.set(1, 0, at_rest(Species::Sand));
    u.set(1, 1, at_rest(Species::Wall));
    u.set(0, 0, at_rest(Species::Sand));
    u.set(0, 1, at_rest(Species::Water));
    u.move_cell(1, 0, 1, 1);
    u.move_cell(0, 0, 0, 1);
    u.commit_changes();
    assert_eq!(u.get_cell(1, 0).specie(), Species::Sand);
    assert_eq!(u.get_cell(1, 1).specie(), Species::Wall);
    assert_eq!(u.get_cell(0, 1).specie(), Species::Sand);
    assert_eq!(u.get_cell(0, 0).specie(), Species::Water);
}

#[test]
fn move_outside_grid_is_not_staged() {
    let mut u = Universe::new(3, 3, GRAVITY, 5);
    u.move_cell(0, 0, -1, 0);
    u.move_cell(3, 0, 0, 0);
    assert_eq!(u.pending_moves(), 0);
    u.move_cell(0, 0, 0, 1);
    assert_eq!(u.pending_moves(), 1);
}

#[test]
fn tick_conserves_material() {
    macroquad::rand::srand(7);
    let mut u = Universe::new(12, 10, GRAVITY, 5);
    u.paint(3, 2, 2, Species::Sand);
    u.paint(8, 3, 2, Species::Water);
    for x in 0..12 {
        u.set(x, 7, at_rest(Species::Wall));
    }
    u.set(5, 7, at_rest(Species::Empty));
    let sand = count(&u, Species::Sand);
    let water = count(&u, Species::Water);
    let walls = count(&u, Species::Wall);
    let occupied = u.non_empty_cells();
    for _ in 0..60 {
        u.tick(FRAME_MS);
        assert_eq!(count(&u, Species::Sand), sand);
        assert_eq!(count(&u, Species::Water), water);
        assert_eq!(count(&u, Species::Wall), walls);
        assert_eq!(u.non_empty_cells(), occupied);
        assert_eq!(u.pending_moves(), 0);
    }
    assert_eq!(u.generation(), 60);
}

#[test]
fn sand_sinks_through_water() {
    let mut u = Universe::new(1, 2, GRAVITY, 5);
    u.set(0, 0, at_rest(Species::Sand));
    u.set(0, 1, at_rest(Species::Water));
    u.tick(FRAME_MS);
    assert_eq!(u.get_cell(0, 1).specie(), Species::Sand);
    assert_eq!(u.get_cell(0, 0).specie(), Species::Water);
}
