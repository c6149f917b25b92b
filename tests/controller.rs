use rsweeper::controller::{Cell, Click, GameboardController};
use rsweeper::{GameState, Gameboard, PlayerCell};

#[test]
fn new_controller_has_no_selection() {
    let gc = GameboardController::new(Gameboard::new(4, 4, 2).unwrap());
    assert_eq!(gc.selected_cell, None);
    assert_eq!(gc.gameboard.state, GameState::Initial);
}

#[test]
fn left_click_reveals() {
    let mut gc = GameboardController::new(Gameboard::new(6, 6, 4).unwrap());
    gc.event(2, 3, Click::Left);
    assert_eq!(gc.selected_cell, Some(Cell { row: 3, col: 2 }));
    assert_eq!(gc.gameboard.state, GameState::Alive);
    assert_eq!(gc.gameboard.get_cell(2, 3).get_player_cell(), PlayerCell::Revealed);
}

#[test]
fn right_click_cycles_marks() {
    let mut b = Gameboard::new(7, 1, 2).unwrap();
    b.reveal_with_bombs(0, 0, &vec![(3, 0), (6, 0)]);
    let mut gc = GameboardController::new(b);
    gc.event(4, 0, Click::Right);
    assert_eq!(gc.selected_cell, Some(Cell { row: 0, col: 4 }));
    assert_eq!(gc.gameboard.get_cell(4, 0).get_player_cell(), PlayerCell::Flagged);
    assert_eq!(gc.gameboard.flagged, 1);
    gc.event(4, 0, Click::Right);
    assert_eq!(gc.gameboard.get_cell(4, 0).get_player_cell(), PlayerCell::Question);
    gc.event(4, 0, Click::Right);
    assert_eq!(gc.gameboard.get_cell(4, 0).get_player_cell(), PlayerCell::NotDetermined);
    gc.event(0, 0, Click::Right);
    assert_eq!(gc.gameboard.get_cell(0, 0).get_player_cell(), PlayerCell::Revealed);
    assert_eq!(gc.selected_cell, Some(Cell { row: 0, col: 0 }));
}

#[test]
fn right_click_before_the_game_does_nothing() {
    let mut gc = GameboardController::new(Gameboard::new(4, 4, 2).unwrap());
    gc.event(1, 1, Click::Right);
    assert_eq!(gc.gameboard.state, GameState::Initial);
    assert_eq!(gc.gameboard.get_cell(1, 1).get_player_cell(), PlayerCell::NotDetermined);
    assert_eq!(gc.gameboard.flagged, 0);
}
