use game_of_life::{Cell, Game};

fn alive_at(game: &Game, row: u32, col: u32) -> bool {
    game.world.get_cell(row, col).unwrap() == Cell::Alive
}

#[test]
fn new_game_starts_at_generation_zero_with_all_dead() {
    let game = Game::new(16, 16);
    assert_eq!(game.turn, 0);
    assert_eq!(game.world.alive_cells().len(), 0);
}

#[test]
fn tick_counts_generations() {
    let mut game = Game::new(4, 4);
    game.tick();
    game.tick();
    game.tick();
    assert_eq!(game.turn, 3);
}

#[test]
fn blinker_rotates_and_returns() {
    let mut game = Game::new(16, 16);
    game.world.write_cell(Cell::Alive, 1, 2);
    game.world.write_cell(Cell::Alive, 2, 2);
    game.world.write_cell(Cell::Alive, 3, 2);

    game.tick();
    assert!(alive_at(&game, 2, 1));
    assert!(alive_at(&game, 2, 2));
    assert!(alive_at(&game, 2, 3));
    assert!(!alive_at(&game, 1, 2));
    assert!(!alive_at(&game, 3, 2));

    game.tick();
    assert!(alive_at(&game, 1, 2));
    assert!(alive_at(&game, 2, 2));
    assert!(alive_at(&game, 3, 2));
    assert!(!alive_at(&game, 2, 1));
    assert!(!alive_at(&game, 2, 3));
}

#[test]
fn lone_cell_dies_of_underpopulation() {
    let mut game = Game::new(9, 7);
    game.world.write_cell(Cell::Alive, 3, 4);
    game.tick();
    assert!(!alive_at(&game, 3, 4));
    assert_eq!(game.world.alive_cells().len(), 0);
}

#[test]
fn overcrowded_cell_dies() {
    let mut game = Game::new(16, 16);
    game.world.write_cell(Cell::Alive, 2, 2);
    game.world.write_cell(Cell::Alive, 1, 1);
    game.world.write_cell(Cell::Alive, 1, 2);
    game.world.write_cell(Cell::Alive, 1, 3);
    game.world.write_cell(Cell::Alive, 2, 1);
    game.tick();
    assert!(!alive_at(&game, 2, 2));
}

#[test]
fn dead_cell_with_three_neighbours_is_born() {
    let mut game = Game::new(16, 16);
    game.world.write_cell(Cell::Alive, 1, 1);
    game.world.write_cell(Cell::Alive, 1, 2);
    game.world.write_cell(Cell::Alive, 1, 3);
    game.tick();
    assert!(alive_at(&game, 2, 2));
}

#[test]
fn dead_cell_with_two_neighbours_stays_dead() {
    let mut game = Game::new(16, 16);
    game.world.write_cell(Cell::Alive, 1, 1);
    game.world.write_cell(Cell::Alive, 1, 3);
    game.tick();
    assert!(!alive_at(&game, 2, 2));
}

#[test]
fn dead_cell_with_four_neighbours_stays_dead() {
    let mut game = Game::new(16, 16);
    game.world.write_cell(Cell::Alive, 1, 1);
    game.world.write_cell(Cell::Alive, 1, 2);
    game.world.write_cell(Cell::Alive, 1, 3);
    game.world.write_cell(Cell::Alive, 2, 1);
    game.tick();
    assert!(!alive_at(&game, 2, 2));
}

#[test]
fn render_twice_without_tick_is_identical() {
    let mut game = Game::new(8, 8);
    game.world.write_cell(Cell::Alive, 4, 4);
    game.world.write_cell(Cell::Alive, 4, 5);
    let first = game.render();
    let second = game.render();
    assert_eq!(first, second);
}

#[test]
fn render_has_height_lines_of_width_glyphs() {
    let game = Game::new(5, 3);
    let text = game.render();
    let lines: Vec<&str> = text.split_terminator('\n').collect();
    assert_eq!(lines.len(), 3);
    for line in lines {
        assert_eq!(line.chars().count(), 5);
    }
    assert!(text.ends_with('\n'));
}

#[test]
fn block_is_a_still_life() {
    let mut game = Game::new(6, 6);
    game.world.write_cell(Cell::Alive, 2, 2);
    game.world.write_cell(Cell::Alive, 2, 3);
    game.world.write_cell(Cell::Alive, 3, 2);
    game.world.write_cell(Cell::Alive, 3, 3);
    let before = game.render();
    game.tick();
    assert_eq!(game.render(), before);
}
