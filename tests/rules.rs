use sand_sim::cell::{Cell, Velocity};
use sand_sim::species::{
    faster_by, integrate, plan_sand, plan_water, round_cells, SandPlan, Species,
};
use sand_sim::universe::Universe;
use sand_sim::utils::{color_channels, direction_of, rand_dir, rand_dir_2, ternary_of};

fn at_rest(specie: Species) -> Cell {
    Cell::new(specie, 0, Velocity { x: 0, y: 0 })
}

#[test]
fn species_colors() {
    assert_eq!(Species::Empty.color(), 0xFFFFFF);
    assert_eq!(Species::Wall.color(), 0x000000);
    assert_eq!(Species::Sand.color(), 0xC2B280);
    assert_eq!(Species::Water.color(), 0x1B7CED);
    assert_eq!(color_channels(0x1B7CED), (0x1B, 0x7C, 0xED));
    assert_eq!(color_channels(Species::Sand.color()), (194, 178, 128));
}

#[test]
fn cell_accessors() {
    let c = Cell::new(Species::Water, 4, Velocity { x: 1, y: -2 });
    assert_eq!(c.specie(), Species::Water);
    assert_eq!(c.clock(), 4);
    let d = Cell::from(c);
    assert_eq!(d.clock(), 5);
    assert_eq!(d.specie(), Species::Water);
    assert_eq!(d.velocity, Velocity { x: 1, y: -2 });
}

#[test]
fn random_directions_in_range() {
    macroquad::rand::srand(3);
    let mut seen = [false; 3];
    let mut seen2 = [false; 2];
    for _ in 0..300 {
        let d = rand_dir();
        assert!((-1..=1).contains(&d));
        seen[(d + 1) as usize] = true;
        let e = rand_dir_2();
        assert!(e == -1 || e == 1);
        seen2[((e + 1) / 2) as usize] = true;
    }
    assert!(seen.iter().all(|s| *s));
    assert!(seen2.iter().all(|s| *s));
}

#[test]
fn rounding_and_integration() {
    assert_eq!(round_cells(1500), 2);
    assert_eq!(round_cells(1499), 1);
    assert_eq!(round_cells(-1500), -2);
    assert_eq!(round_cells(-499), 0);
    assert_eq!(integrate(0, 10_000, 16, false), 160);
    assert_eq!(integrate(9_990, 10_000, 16, false), 10_000);
    assert_eq!(integrate(-20_000, 10_000, 0, false), -10_000);
    assert_eq!(integrate(-301, 10_000, 0, true), -150);
    assert_eq!(integrate(100, 10_000, 16, true), 130);
}

#[test]
fn speed_comparison() {
    let still = Velocity { x: 0, y: 0 };
    let fast = Velocity { x: 0, y: 2_000 };
    assert!(faster_by(fast, still, 1_000));
    assert!(!faster_by(fast, still, 2_000));
    assert!(!faster_by(still, fast, 0));
    assert!(faster_by(Velocity { x: 3_000, y: 4_000 }, Velocity { x: 0, y: 3_000 }, 1_999));
    assert!(!faster_by(Velocity { x: 3_000, y: 4_000 }, Velocity { x: 0, y: 3_000 }, 2_000));
}

#[test]
fn sand_plan_falls_then_slides() {
    let mut u = Universe::new(3, 3, 10_000, 5);
    u.set(1, 0, at_rest(Species::Sand));
    let v = Velocity { x: 0, y: 160 };
    assert_eq!(plan_sand(&u, 1, 0, v, 1), SandPlan::Move(1, 1));
    u.set(1, 1, at_rest(Species::Wall));
    assert_eq!(plan_sand(&u, 1, 0, v, 1), SandPlan::Move(2, 1));
    assert_eq!(plan_sand(&u, 1, 0, v, -1), SandPlan::Move(0, 1));
    u.set(0, 1, at_rest(Species::Wall));
    assert_eq!(plan_sand(&u, 1, 0, v, -1), SandPlan::Stay);
    let quick = Velocity { x: 0, y: 2_000 };
    assert_eq!(plan_sand(&u, 1, 0, quick, -1), SandPlan::Move(1, 2));
}

#[test]
fn sand_plan_displaces_slow_water() {
    let mut u = Universe::new(5, 5, 1_000, 5);
    u.set(2, 1, at_rest(Species::Sand));
    u.set(2, 3, at_rest(Species::Water));
    u.set(2, 2, at_rest(Species::Wall));
    let v = Velocity { x: 0, y: 2_000 };
    assert_eq!(plan_sand(&u, 2, 1, v, 1), SandPlan::Displace(2, 3, 1, 2));
    u.set(1, 2, at_rest(Species::Wall));
    assert_eq!(plan_sand(&u, 2, 1, v, 1), SandPlan::Displace(2, 3, 3, 2));
    let slow = Velocity { x: 0, y: 1_400 };
    assert_eq!(plan_sand(&u, 2, 1, slow, 1), SandPlan::Move(3, 2));
}

#[test]
fn water_plan_order() {
    let mut u = Universe::new(5, 2, 10_000, 5);
    u.set(2, 0, at_rest(Species::Water));
    assert_eq!(plan_water(&u, 2, 0, 1, 1), Some((2, 1)));
    u.set(2, 1, at_rest(Species::Wall));
    assert_eq!(plan_water(&u, 2, 0, 1, 1), Some((3, 1)));
    assert_eq!(plan_water(&u, 2, 0, -1, 1), Some((1, 1)));
    u.set(3, 1, at_rest(Species::Wall));
    assert_eq!(plan_water(&u, 2, 0, 1, 1), Some((1, 1)));
    u.set(1, 1, at_rest(Species::Wall));
    assert_eq!(plan_water(&u, 2, 0, 1, -1), Some((3, 0)));
    assert_eq!(plan_water(&u, 2, 0, -1, 1), Some((1, 0)));
    assert_eq!(plan_water(&u, 2, 0, 0, 1), Some((3, 0)));
    assert_eq!(plan_water(&u, 2, 0, 0, -1), Some((1, 0)));
    u.set(1, 0, at_rest(Species::Wall));
    u.set(3, 0, at_rest(Species::Wall));
    assert_eq!(plan_water(&u, 2, 0, 1, 1), Some((4, 1)));
    assert_eq!(plan_water(&u, 2, 0, 1, -1), Some((0, 1)));
}

#[test]
fn water_plan_boxed_in() {
    let mut u = Universe::new(1, 1, 10_000, 5);
    u.set(0, 0, at_rest(Species::Water));
    assert_eq!(plan_water(&u, 0, 0, 1, 1), None);
    u.tick(16);
    assert_eq!(u.get_cell(0, 0).specie(), Species::Water);
}

#[test]
fn rule_dispatch_leaves_walls() {
    let mut u = Universe::new(2, 2, 10_000, 5);
    u.set(0, 0, at_rest(Species::Wall));
    let c = u.get_cell(0, 0);
    c.update(0, 0, &mut u, 16);
    Species::Empty.update(1, 1, &mut u, 16);
    assert_eq!(u.pending_moves(), 0);
    Species::Sand.update(1, 0, &mut u, 16);
    assert_eq!(u.pending_moves(), 1);
}

#[test]
fn draws_map_to_directions() {
    assert_eq!(direction_of(0), -1);
    assert_eq!(direction_of(7), 1);
    assert_eq!(direction_of(u32::MAX), 1);
    assert_eq!(ternary_of(0), -1);
    assert_eq!(ternary_of(4), 0);
    assert_eq!(ternary_of(5), 1);
    assert_eq!(ternary_of(u32::MAX), -1);
}
