use game_of_life::{Cell, World};

#[test]
fn should_create_new_world() {
    let world = World::new(16, 16);
    assert_eq!(world.width, 16);
    assert_eq!(world.height, 16);
    assert_eq!(world.cells.len(), 256);
}

#[test]
fn should_get_cell() {
    let mut world = World::new(16, 16);
    world.cells[18] = Cell::Alive;
    assert_eq!(world.get_cell(1, 2).unwrap(), Cell::Alive);
    assert_eq!(world.get_cell(20, 1), None);
}

#[test]
fn should_write_cell() {
    let mut world = World::new(16, 16);
    world.write_cell(Cell::Alive, 2, 7);
    assert_eq!(world.get_cell(2, 7).unwrap(), Cell::Alive);
}

#[test]
fn should_iter_alive_cells() {
    let mut world = World::new(16, 16);
    world.write_cell(Cell::Alive, 2, 7);
    world.write_cell(Cell::Alive, 1, 2);
    assert_eq!(world.alive_cells().len(), 2);
}

#[test]
fn should_iter_dead_cells() {
    let mut world = World::new(16, 16);
    world.write_cell(Cell::Alive, 2, 7);
    world.write_cell(Cell::Alive, 1, 2);
    assert_eq!(world.dead_cells().len(), 254);
}

#[test]
fn should_get_last_row_and_columns() {
    let world = World::new(16, 20);
    assert_eq!(world.last_col(), 15);
    assert_eq!(world.last_row(), 19);
}

#[test]
fn should_get_neighbours() {
    let world = World::new(16, 16);
    assert_eq!(
        world.neighbours(2, 2),
        [
            world.index(1, 1),
            world.index(1, 2),
            world.index(1, 3),
            world.index(2, 1),
            world.index(2, 3),
            world.index(3, 1),
            world.index(3, 2),
            world.index(3, 3),
        ]
    );
}

#[test]
fn should_get_rows_and_columns_from_index() {
    let world = World::new(16, 16);
    assert_eq!(world.row_and_column(world.index(8, 13)), (8, 13));
}

#[test]
fn should_get_neighbours_over_lower_bounds() {
    let world = World::new(20, 20);
    assert_eq!(
        world.neighbours(19, 19),
        [
            world.index(18, 18),
            world.index(18, 19),
            world.index(18, 0),
            world.index(19, 18),
            world.index(19, 0),
            world.index(0, 18),
            world.index(0, 19),
            world.index(0, 0),
        ]
    );
}

#[test]
fn should_get_neighbours_over_upper_bounds() {
    let world = World::new(20, 20);
    assert_eq!(
        world.neighbours(0, 0),
        [
            world.index(19, 19),
            world.index(19, 0),
            world.index(19, 1),
            world.index(0, 19),
            world.index(0, 1),
            world.index(1, 19),
            world.index(1, 0),
            world.index(1, 1),
        ]
    );
}

#[test]
fn index_roundtrip_over_all_positions() {
    let world = World::new(7, 5);
    for row in 0..5 {
        for col in 0..7 {
            assert_eq!(world.row_and_column(world.index(row, col)), (row, col));
        }
    }
}

#[test]
fn alive_and_dead_cells_partition_every_position() {
    let mut world = World::new(16, 16);
    world.write_cell(Cell::Alive, 0, 0);
    world.write_cell(Cell::Alive, 3, 9);
    world.write_cell(Cell::Alive, 15, 15);
    let alive = world.alive_cells();
    let dead = world.dead_cells();
    assert_eq!(alive.len() + dead.len(), 256);
    for i in alive.iter() {
        assert!(!dead.contains(i));
    }
    for i in 0..256usize {
        assert!(alive.contains(&i) || dead.contains(&i));
    }
}

#[test]
fn write_cell_out_of_bounds_is_a_no_op() {
    let mut world = World::new(16, 16);
    world.write_cell(Cell::Alive, 16, 0);
    world.write_cell(Cell::Alive, 0, 16);
    world.write_cell(Cell::Alive, 99, 99);
    assert_eq!(world.alive_cells().len(), 0);
}

#[test]
fn render_draws_rows_of_glyphs() {
    let mut world = World::new(2, 2);
    world.write_cell(Cell::Alive, 0, 1);
    assert_eq!(world.render(), "◻◼\n◻◻\n");
}
