use infinite_life::geometry::Cell;
use infinite_life::world::World;

fn listed(world: &World) -> Vec<(i32, i32)> {
    let mut cells: Vec<(i32, i32)> = world.cells().iter().map(|c| (c.x, c.y)).collect();
    cells.sort();
    cells
}

#[test]
fn new_world_is_empty() {
    let world = World::new();
    assert_eq!(world.live_count(), 0);
    assert!(world.cells().is_empty());
    assert!(!world.contains(Cell::new(0, 0)));
}

#[test]
fn insert_makes_a_cell_live_once() {
    let mut world = World::new();
    world.insert(Cell::new(3, -4));
    world.insert(Cell::new(3, -4));
    assert!(world.contains(Cell::new(3, -4)));
    assert!(!world.contains(Cell::new(-4, 3)));
    assert_eq!(world.live_count(), 1);
    assert_eq!(listed(&world), vec![(3, -4)]);
}

#[test]
fn remove_makes_a_cell_dead() {
    let mut world = World::new();
    world.insert(Cell::new(1, 1));
    world.insert(Cell::new(2, 2));
    world.remove(Cell::new(1, 1));
    world.remove(Cell::new(9, 9));
    assert_eq!(listed(&world), vec![(2, 2)]);
}

#[test]
fn toggle_inserts_a_dead_cell_and_removes_a_live_one() {
    let mut world = World::new();
    assert!(world.toggle(Cell::new(5, 6)));
    assert!(world.contains(Cell::new(5, 6)));
    assert!(!world.toggle(Cell::new(5, 6)));
    assert!(!world.contains(Cell::new(5, 6)));
    assert_eq!(world.live_count(), 0);
}

#[test]
fn toggling_twice_restores_the_world() {
    let mut world = World::new();
    world.insert(Cell::new(0, 0));
    world.insert(Cell::new(-7, 12));
    let before = listed(&world);
    world.toggle(Cell::new(-7, 12));
    assert_eq!(listed(&world), vec![(0, 0)]);
    world.toggle(Cell::new(-7, 12));
    assert_eq!(listed(&world), before);
    world.toggle(Cell::new(100, 100));
    assert_eq!(world.live_count(), 3);
    world.toggle(Cell::new(100, 100));
    assert_eq!(listed(&world), before);
}

#[test]
fn clear_kills_every_cell() {
    let mut world = World::new();
    for i in 0..10 {
        world.insert(Cell::new(i, -i));
    }
    assert_eq!(world.live_count(), 10);
    world.clear();
    assert_eq!(world.live_count(), 0);
    assert!(!world.contains(Cell::new(3, -3)));
}

#[test]
fn cells_at_the_corners_of_the_range_are_kept_apart() {
    let corners = [
        (i32::MIN, i32::MIN),
        (i32::MIN, i32::MAX),
        (i32::MAX, i32::MIN),
        (i32::MAX, i32::MAX),
        (0, -1),
        (-1, 0),
    ];
    let mut world = World::new();
    for (x, y) in corners {
        world.insert(Cell::new(x, y));
    }
    assert_eq!(world.live_count(), 6);
    for (x, y) in corners {
        assert!(world.contains(Cell::new(x, y)));
    }
    assert!(!world.contains(Cell::new(-1, -1)));
    assert!(!world.contains(Cell::new(0, 0)));
    let mut expected = corners.to_vec();
    expected.sort();
    assert_eq!(listed(&world), expected);
}

#[test]
fn cells_lists_each_live_cell_once() {
    let mut world = World::new();
    for x in -3..3 {
        for y in -3..3 {
            world.insert(Cell::new(x, y));
        }
    }
    let cells = listed(&world);
    assert_eq!(cells.len(), 36);
    assert_eq!(world.live_count(), 36);
    let mut unique = cells.clone();
    unique.dedup();
    assert_eq!(unique, cells);
}
