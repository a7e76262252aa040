use game_of_life::Cell;

#[test]
fn should_tell_whether_cell_is_alive() {
    assert_eq!(Cell::Dead.is_alive(), false);
    assert_eq!(Cell::Alive.is_alive(), true);
}

#[test]
fn should_toggle_cell() {
    let mut cell = Cell::Alive;
    cell.toggle();
    assert_eq!(cell, Cell::Dead);
    cell.toggle();
    assert_eq!(cell, Cell::Alive);
}
