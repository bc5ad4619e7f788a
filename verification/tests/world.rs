use game_of_life::{Cell, SizeError, World};

fn live_cells(world: &World) -> Vec<(usize, usize)> {
    let mut found = Vec::new();
    for y in 0..world.height() {
        for x in 0..world.width() {
            if world.get(x as isize, y as isize) == Cell::Live {
                found.push((x, y));
            }
        }
    }
    found
}

fn world_with(width: usize, height: usize, cells: &[(isize, isize)]) -> World {
    let mut world = World::new(width, height).unwrap();
    for &(x, y) in cells {
        world.set(x, y, Cell::Live);
    }
    world
}

#[test]
fn new_world_is_all_dead() {
    let world = World::new(8, 6).unwrap();
    assert_eq!(world.width(), 8);
    assert_eq!(world.height(), 6);
    assert_eq!(live_cells(&world), vec![]);
}

#[test]
fn new_rejects_dimensions_above_the_signed_maximum() {
    let too_large = isize::MAX as usize + 1;
    assert_eq!(World::new(too_large, 6).err(), Some(SizeError));
    assert_eq!(World::new(8, too_large).err(), Some(SizeError));
    assert_eq!(World::new(usize::MAX, usize::MAX).err(), Some(SizeError));
    assert!(World::new(too_large, too_large).is_err());
}

#[test]
fn new_rejects_empty_dimensions() {
    assert_eq!(World::new(0, 6).err(), Some(SizeError));
    assert_eq!(World::new(8, 0).err(), Some(SizeError));
    assert_eq!(World::new(0, 0).err(), Some(SizeError));
}

#[test]
fn new_accepts_the_smallest_world() {
    let world = World::new(1, 1).unwrap();
    assert_eq!(world.get(0, 0), Cell::Dead);
    assert_eq!(world.get(-3, 12), Cell::Dead);
}

#[test]
fn written_cell_is_read_at_congruent_coordinates() {
    let mut world = World::new(8, 6).unwrap();
    world.set(2, 1, Cell::Live);
    assert_eq!(world.get(2, 1), Cell::Live);
    assert_eq!(world.get(10, 7), Cell::Live);
    assert_eq!(world.get(-6, -5), Cell::Live);
    assert_eq!(world.get(2 - 8 * 5, 1 + 6 * 9), Cell::Live);
    assert_eq!(world.get(3, 1), Cell::Dead);
    assert_eq!(world.get(2, 2), Cell::Dead);
    assert_eq!(live_cells(&world), vec![(2, 1)]);
}

#[test]
fn written_cell_can_be_cleared_again() {
    let mut world = World::new(8, 6).unwrap();
    world.set(-1, -1, Cell::Live);
    assert_eq!(world.get(7, 5), Cell::Live);
    world.set(15, 11, Cell::Dead);
    assert_eq!(world.get(7, 5), Cell::Dead);
    assert_eq!(live_cells(&world), vec![]);
}

#[test]
fn index_operators_read_and_write() {
    let mut world = World::new(8, 6).unwrap();
    world[(2, 1)] = Cell::Live;
    world[(-1, -1)] = Cell::Live;
    assert_eq!(world[(2, 1)], Cell::Live);
    assert_eq!(world[(10, -5)], Cell::Live);
    assert_eq!(world[(7, 5)], Cell::Live);
    assert_eq!(world[(0, 0)], Cell::Dead);
    world[(2, 1)] = Cell::Dead;
    assert_eq!(world.get(2, 1), Cell::Dead);
    assert_eq!(live_cells(&world), vec![(7, 5)]);
}

#[test]
fn origin_and_minus_one_are_two_distinct_cells() {
    let world = world_with(8, 6, &[(0, 0), (-1, -1)]);
    assert_eq!(live_cells(&world), vec![(0, 0), (7, 5)]);
    assert_eq!(world.get(world.width() as isize - 1, world.height() as isize - 1), Cell::Live);
}

#[test]
fn neighbors_are_counted_around_the_edges() {
    let world = world_with(8, 6, &[(7, 5), (0, 5), (1, 0), (7, 1)]);
    assert_eq!(world.live_neighbors(0, 0), 4);
    assert_eq!(world.live_neighbors(8, 6), 4);
    assert_eq!(world.live_neighbors(-8, -6), 4);
    assert_eq!(world.live_neighbors(7, 5), 1);
    assert_eq!(world.live_neighbors(3, 3), 0);
}

#[test]
fn neighbors_do_not_include_the_cell_itself() {
    let world = world_with(8, 6, &[(3, 3)]);
    assert_eq!(world.live_neighbors(3, 3), 0);
    assert_eq!(world.live_neighbors(2, 2), 1);
    assert_eq!(world.live_neighbors(4, 3), 1);
}

#[test]
fn all_eight_neighbors_are_counted() {
    let world = world_with(
        8,
        6,
        &[(2, 2), (3, 2), (4, 2), (2, 3), (4, 3), (2, 4), (3, 4), (4, 4)],
    );
    assert_eq!(world.live_neighbors(3, 3), 8);
}

#[test]
fn narrow_world_counts_a_cell_under_each_coordinate_that_reaches_it() {
    let world = world_with(2, 5, &[(1, 2)]);
    assert_eq!(world.live_neighbors(0, 2), 2);
    assert_eq!(world.live_neighbors(0, 1), 2);
    assert_eq!(world.live_neighbors(1, 1), 1);
    let single = world_with(1, 1, &[(0, 0)]);
    assert_eq!(single.live_neighbors(0, 0), 8);
}

#[test]
fn isolated_cell_dies() {
    let mut world = world_with(8, 6, &[(3, 3)]);
    assert_eq!(world.live_neighbors(3, 3), 0);
    world.cycle();
    assert_eq!(world.get(3, 3), Cell::Dead);
    assert_eq!(live_cells(&world), vec![]);
}

#[test]
fn cell_with_one_neighbor_dies() {
    let mut world = world_with(8, 6, &[(3, 3), (4, 3)]);
    assert_eq!(world.live_neighbors(3, 3), 1);
    world.cycle();
    assert_eq!(world.get(3, 3), Cell::Dead);
    assert_eq!(world.get(4, 3), Cell::Dead);
}

#[test]
fn crowded_cell_dies() {
    let mut world = world_with(8, 6, &[(3, 3), (2, 2), (4, 2), (2, 4), (4, 4)]);
    assert_eq!(world.live_neighbors(3, 3), 4);
    world.cycle();
    assert_eq!(world.get(3, 3), Cell::Dead);
}

#[test]
fn dead_cell_with_three_neighbors_is_born() {
    let mut world = world_with(8, 6, &[(2, 2), (4, 2), (3, 4)]);
    assert_eq!(world.get(3, 3), Cell::Dead);
    assert_eq!(world.live_neighbors(3, 3), 3);
    world.cycle();
    assert_eq!(world.get(3, 3), Cell::Live);
}

#[test]
fn live_cell_with_two_or_three_neighbors_survives() {
    let mut two = world_with(8, 6, &[(3, 3), (2, 2), (4, 4)]);
    assert_eq!(two.live_neighbors(3, 3), 2);
    two.cycle();
    assert_eq!(two.get(3, 3), Cell::Live);
    let mut three = world_with(8, 6, &[(3, 3), (2, 2), (4, 4), (2, 4)]);
    assert_eq!(three.live_neighbors(3, 3), 3);
    three.cycle();
    assert_eq!(three.get(3, 3), Cell::Live);
}

#[test]
fn dead_cell_with_two_neighbors_stays_dead() {
    let mut world = world_with(8, 6, &[(2, 2), (4, 4)]);
    assert_eq!(world.live_neighbors(3, 3), 2);
    world.cycle();
    assert_eq!(world.get(3, 3), Cell::Dead);
}

#[test]
fn birth_happens_across_the_edges() {
    let mut world = world_with(8, 6, &[(7, 5), (1, 5), (0, 1)]);
    assert_eq!(world.live_neighbors(0, 0), 3);
    world.cycle();
    assert_eq!(world.get(0, 0), Cell::Live);
}

#[test]
fn step_reads_only_the_generation_before_it() {
    let mut world = world_with(8, 6, &[(1, 1), (2, 1), (3, 1), (4, 1)]);
    world.cycle();
    assert_eq!(
        live_cells(&world),
        vec![(2, 0), (3, 0), (2, 1), (3, 1), (2, 2), (3, 2)]
    );
}

#[test]
fn cells_can_be_written_between_steps() {
    let mut world = world_with(8, 6, &[(2, 1), (2, 2), (2, 3)]);
    world.cycle();
    world.set(2, 2, Cell::Dead);
    assert_eq!(live_cells(&world), vec![(1, 2), (3, 2)]);
    world.cycle();
    assert_eq!(live_cells(&world), vec![]);
}
