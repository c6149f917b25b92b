use rsweeper::{Cell, CellContent, ConstructionError, GameState, Gameboard, Paint, PlayerCell};

/// Everything a board holds, to compare two boards.
fn snapshot(b: &Gameboard) -> (Vec<Cell>, [usize; 2], usize, usize, GameState) {
    let mut cells = Vec::new();
    for row in 0..b.size[1] {
        for col in 0..b.size[0] {
            cells.push(*b.get_cell(col, row));
        }
    }
    (cells, b.size, b.bombs, b.flagged, b.state)
}

fn is_bomb(b: &Gameboard, col: usize, row: usize) -> bool {
    b.get_cell(col, row).get_content() == CellContent::Bomb
}

fn player(b: &Gameboard, col: usize, row: usize) -> PlayerCell {
    b.get_cell(col, row).get_player_cell()
}

/// The 3 by 3 board with its bomb at (2, 2), opened at (0, 0).
fn opened_corner_board() -> Gameboard {
    let mut b = Gameboard::new(3, 3, 1).unwrap();
    b.reveal_with_bombs(0, 0, &vec![(2, 2)]);
    b
}

/// A board of one row, `.` for a free cell, `*` for a bomb, opened at its
/// first cell.
fn opened_row(cells: &str) -> Gameboard {
    let layout: Vec<(usize, usize)> =
        cells.chars().enumerate().filter(|(_, c)| *c == '*').map(|(i, _)| (i, 0)).collect();
    let mut b = Gameboard::new(cells.len(), 1, layout.len()).unwrap();
    b.reveal_with_bombs(0, 0, &layout);
    b
}

#[test]
fn new_board_is_blank() {
    let b = Gameboard::new(4, 3, 5).unwrap();
    assert_eq!(b.size, [4, 3]);
    assert_eq!(b.bombs, 5);
    assert_eq!(b.flagged, 0);
    assert_eq!(b.state, GameState::Initial);
    for row in 0..3 {
        for col in 0..4 {
            assert_eq!(player(&b, col, row), PlayerCell::NotDetermined);
            assert_eq!(b.get_cell(col, row).get_content(), CellContent::Nothing(0));
        }
    }
}

#[test]
fn too_many_bombs_is_refused() {
    assert_eq!(Gameboard::new(3, 3, 9).err(), Some(ConstructionError::TooManyBombs));
    assert_eq!(Gameboard::new(3, 3, 10).err(), Some(ConstructionError::TooManyBombs));
    assert_eq!(Gameboard::new(0, 5, 0).err(), Some(ConstructionError::TooManyBombs));
    assert!(Gameboard::new(3, 3, 8).is_ok());
}

#[test]
fn only_a_reveal_starts_the_game() {
    let mut b = Gameboard::new(5, 5, 3).unwrap();
    let before = snapshot(&b);
    b.set(1, 1, PlayerCell::Flagged);
    b.annotate_cycle(2, 2);
    b.set(3, 3, PlayerCell::Question);
    assert_eq!(snapshot(&b), before);
}

#[test]
fn opening_corner_cascades() {
    let b = opened_corner_board();
    assert_eq!(b.get_cell(0, 0).get_content(), CellContent::Nothing(0));
    for row in 0..3 {
        for col in 0..3 {
            if (col, row) == (2, 2) {
                assert_eq!(player(&b, col, row), PlayerCell::NotDetermined);
                assert!(is_bomb(&b, col, row));
            } else {
                assert_eq!(player(&b, col, row), PlayerCell::Revealed);
            }
        }
    }
    assert_eq!(b.get_cell(1, 1).get_content(), CellContent::Nothing(1));
    assert_eq!(b.get_cell(2, 1).get_content(), CellContent::Nothing(1));
    assert_eq!(b.get_cell(1, 2).get_content(), CellContent::Nothing(1));
    assert_eq!(b.get_cell(2, 0).get_content(), CellContent::Nothing(0));
    assert_eq!(b.state, GameState::Alive);
    assert_eq!(b.flagged, 0);
}

#[test]
fn flagging_last_bomb_wins() {
    let mut b = opened_corner_board();
    b.annotate_cycle(2, 2);
    assert_eq!(player(&b, 2, 2), PlayerCell::Flagged);
    assert_eq!(b.flagged, 1);
    assert_eq!(b.state, GameState::Won);
}

#[test]
fn revealing_bomb_loses_and_freezes() {
    let mut b = opened_corner_board();
    b.set(2, 2, PlayerCell::Revealed);
    assert_eq!(b.state, GameState::Lost);
    assert_eq!(player(&b, 2, 2), PlayerCell::Revealed);
    let lost = snapshot(&b);
    b.set(0, 0, PlayerCell::Revealed);
    assert_eq!(snapshot(&b), lost);
    for row in 0..3 {
        for col in 0..3 {
            b.annotate_cycle(col, row);
            b.set(col, row, PlayerCell::Flagged);
            assert_eq!(snapshot(&b), lost);
        }
    }
}

#[test]
fn won_game_is_frozen() {
    let mut b = opened_corner_board();
    b.annotate_cycle(2, 2);
    let won = snapshot(&b);
    b.annotate_cycle(2, 2);
    b.set(2, 2, PlayerCell::Revealed);
    assert_eq!(snapshot(&b), won);
}

#[test]
fn revealing_a_revealed_cell_twice_changes_nothing() {
    let mut b = opened_row(".....*..*");
    assert_eq!(player(&b, 2, 0), PlayerCell::Revealed);
    let first = snapshot(&b);
    b.set(2, 0, PlayerCell::Revealed);
    assert_eq!(snapshot(&b), first);
    b.set(2, 0, PlayerCell::Revealed);
    assert_eq!(snapshot(&b), first);
    b.annotate_cycle(2, 0);
    assert_eq!(snapshot(&b), first);
}

#[test]
fn flag_cap_refuses_extra_flag() {
    // ...*..*: the opening reveals cells 0 to 2; cells 4 and 5 stay hidden.
    let mut b = opened_row("...*..*");
    assert_eq!(player(&b, 2, 0), PlayerCell::Revealed);
    assert_eq!(player(&b, 4, 0), PlayerCell::NotDetermined);
    b.annotate_cycle(4, 0);
    b.annotate_cycle(5, 0);
    assert_eq!(b.flagged, 2);
    assert_eq!(b.state, GameState::Alive);
    b.annotate_cycle(3, 0);
    assert_eq!(player(&b, 3, 0), PlayerCell::NotDetermined);
    assert_eq!(b.flagged, 2);
    b.set(6, 0, PlayerCell::Flagged);
    assert_eq!(player(&b, 6, 0), PlayerCell::NotDetermined);
    assert_eq!(b.flagged, 2);
}

#[test]
fn mark_cycle_goes_round() {
    let mut b = opened_row("...*..*");
    b.annotate_cycle(4, 0);
    assert_eq!(player(&b, 4, 0), PlayerCell::Flagged);
    assert_eq!(b.flagged, 1);
    b.annotate_cycle(4, 0);
    assert_eq!(player(&b, 4, 0), PlayerCell::Question);
    assert_eq!(b.flagged, 0);
    b.annotate_cycle(4, 0);
    assert_eq!(player(&b, 4, 0), PlayerCell::NotDetermined);
    assert_eq!(b.flagged, 0);
}

#[test]
fn revealing_last_free_cell_wins() {
    let mut b = opened_row("...*..*");
    b.annotate_cycle(3, 0);
    b.annotate_cycle(6, 0);
    b.set(4, 0, PlayerCell::Revealed);
    assert_eq!(b.state, GameState::Alive);
    b.set(5, 0, PlayerCell::Revealed);
    assert_eq!(b.state, GameState::Won);
}

#[test]
fn wrong_flags_do_not_win() {
    let mut b = opened_row("...*..*");
    b.annotate_cycle(4, 0);
    b.annotate_cycle(5, 0);
    b.set(3, 0, PlayerCell::Revealed);
    assert_eq!(b.state, GameState::Lost);
    assert_eq!(b.flagged, 2);
}

#[test]
fn revealing_a_flag_drops_it_from_the_count() {
    let mut b = opened_row("...*..*");
    b.annotate_cycle(4, 0);
    assert_eq!(b.flagged, 1);
    b.set(4, 0, PlayerCell::Revealed);
    assert_eq!(player(&b, 4, 0), PlayerCell::Revealed);
    assert_eq!(b.flagged, 0);
    assert_eq!(b.state, GameState::Alive);
}

#[test]
fn board_without_bombs_is_won_at_once() {
    let mut b = Gameboard::new(4, 4, 0).unwrap();
    b.set(1, 2, PlayerCell::Revealed);
    assert_eq!(b.state, GameState::Won);
    for row in 0..4 {
        for col in 0..4 {
            assert_eq!(player(&b, col, row), PlayerCell::Revealed);
        }
    }
}

#[test]
fn cascade_over_ten_thousand_cells() {
    let mut b = Gameboard::new(100, 100, 2).unwrap();
    b.reveal_with_bombs(0, 0, &vec![(99, 99), (50, 99)]);
    assert_eq!(b.state, GameState::Alive);
    let mut hidden = 0;
    for row in 0..100 {
        for col in 0..100 {
            if player(&b, col, row) != PlayerCell::Revealed {
                hidden += 1;
                assert!(is_bomb(&b, col, row));
            }
        }
    }
    assert_eq!(hidden, 2);
    b.annotate_cycle(99, 99);
    b.annotate_cycle(50, 99);
    assert_eq!(b.state, GameState::Won);
}

#[test]
fn random_opening_is_safe_and_counted() {
    for _ in 0..20 {
        let mut b = Gameboard::new(20, 20, 80).unwrap();
        assert!(b.has_room_around(10, 7));
        b.set(10, 7, PlayerCell::Revealed);
        assert_eq!(b.state, GameState::Alive);
        assert_eq!(player(&b, 10, 7), PlayerCell::Revealed);
        let mut bombs = 0;
        for row in 0..20usize {
            for col in 0..20usize {
                let near = col.abs_diff(10) <= 1 && row.abs_diff(7) <= 1;
                if is_bomb(&b, col, row) {
                    bombs += 1;
                    assert!(!near);
                    assert_ne!(player(&b, col, row), PlayerCell::Revealed);
                } else {
                    let mut around = 0;
                    for r in row.saturating_sub(1)..=(row + 1).min(19) {
                        for c in col.saturating_sub(1)..=(col + 1).min(19) {
                            if (c, r) != (col, row) && is_bomb(&b, c, r) {
                                around += 1;
                            }
                        }
                    }
                    assert_eq!(b.get_cell(col, row).get_content(), CellContent::Nothing(around));
                }
            }
        }
        assert_eq!(bombs, 80);
        assert_eq!(b.get_cell(10, 7).get_content(), CellContent::Nothing(0));
    }
}

#[test]
fn random_opening_on_a_full_board() {
    // Every cell away from the corner gets a bomb.
    let mut b = Gameboard::new(3, 3, 5).unwrap();
    b.set(0, 0, PlayerCell::Revealed);
    for (col, row) in [(2, 0), (2, 1), (2, 2), (0, 2), (1, 2)] {
        assert!(is_bomb(&b, col, row));
    }
    assert_eq!(b.get_cell(0, 0).get_content(), CellContent::Nothing(0));
    assert_eq!(b.get_cell(1, 1).get_content(), CellContent::Nothing(5));
    assert_eq!(b.state, GameState::Alive);
}

#[test]
fn room_around_an_opening() {
    let b = Gameboard::new(3, 3, 5).unwrap();
    assert!(b.has_room_around(0, 0));
    assert!(!b.has_room_around(1, 1));
    assert!(!b.has_room_around(1, 0));
    let b = Gameboard::new(3, 3, 1).unwrap();
    assert!(!b.has_room_around(1, 1));
    let b = Gameboard::new(3, 3, 0).unwrap();
    assert!(b.has_room_around(1, 1));
}

#[test]
fn looks_during_the_game() {
    let mut b = opened_row("...*..*");
    assert_eq!(b.char_and_colors(0, 0), (None, Paint::RevealedBackground));
    assert_eq!(b.char_and_colors(2, 0), (Some(('1', Paint::Digit(1))), Paint::RevealedBackground));
    assert_eq!(b.char_and_colors(4, 0), (None, Paint::HiddenBackground));
    b.annotate_cycle(4, 0);
    assert_eq!(b.char_and_colors(4, 0), (Some(('F', Paint::Ink)), Paint::FlaggedBackground));
    b.annotate_cycle(4, 0);
    assert_eq!(b.char_and_colors(4, 0), (Some(('?', Paint::Ink)), Paint::QuestionBackground));
    b.set(5, 0, PlayerCell::Revealed);
    assert_eq!(b.char_and_colors(5, 0), (Some(('1', Paint::Digit(1))), Paint::RevealedBackground));
}

#[test]
fn looks_of_digits() {
    // Eight bombs round (4, 4), far from the opening at (0, 0).
    let ring = vec![(3, 3), (4, 3), (5, 3), (3, 4), (5, 4), (3, 5), (4, 5), (5, 5)];
    let mut b = Gameboard::new(7, 7, 8).unwrap();
    b.reveal_with_bombs(0, 0, &ring);
    assert_eq!(b.get_cell(4, 4).get_content(), CellContent::Nothing(8));
    assert_eq!(b.get_cell(2, 2).get_content(), CellContent::Nothing(1));
    assert_eq!(b.get_cell(2, 3).get_content(), CellContent::Nothing(2));
    assert_eq!(b.char_and_colors(2, 3), (Some(('2', Paint::Digit(2))), Paint::RevealedBackground));
    assert_eq!(b.char_and_colors(4, 4), (None, Paint::HiddenBackground));
    b.set(4, 4, PlayerCell::Revealed);
    assert_eq!(b.state, GameState::Alive);
    assert_eq!(b.char_and_colors(4, 4), (Some(('8', Paint::Digit(8))), Paint::RevealedBackground));
}

#[test]
fn looks_after_a_loss() {
    let mut b = opened_row("...*..*");
    b.annotate_cycle(5, 0);
    b.set(3, 0, PlayerCell::Revealed);
    assert_eq!(b.state, GameState::Lost);
    assert_eq!(b.char_and_colors(3, 0), (Some(('B', Paint::Ink)), Paint::WrongBackground));
    assert_eq!(b.char_and_colors(6, 0), (Some(('B', Paint::Ink)), Paint::BombBackground));
    assert_eq!(b.char_and_colors(5, 0), (Some(('X', Paint::Ink)), Paint::WrongBackground));
    assert_eq!(b.char_and_colors(4, 0), (None, Paint::HiddenBackground));
    assert_eq!(b.char_and_colors(2, 0), (Some(('1', Paint::Digit(1))), Paint::RevealedBackground));
    assert_eq!(b.char_and_colors(0, 0), (None, Paint::RevealedBackground));
}

#[test]
fn looks_of_a_flagged_bomb_after_a_loss() {
    let mut b = opened_row("...*..*");
    b.annotate_cycle(6, 0);
    b.set(3, 0, PlayerCell::Revealed);
    assert_eq!(b.char_and_colors(6, 0), (Some(('F', Paint::Ink)), Paint::FlaggedBackground));
}

#[test]
fn cell_defaults() {
    assert_eq!(Cell::default().get_player_cell(), PlayerCell::NotDetermined);
    assert_eq!(Cell::default().get_content(), CellContent::Nothing(0));
    assert_eq!(PlayerCell::default(), PlayerCell::NotDetermined);
    assert_eq!(CellContent::default(), CellContent::Nothing(0));
}

#[test]
fn get_mut_cell_writes_the_cell() {
    let mut b = Gameboard::new(2, 2, 1).unwrap();
    b.get_mut_cell(1, 0).player = PlayerCell::Question;
    assert_eq!(player(&b, 1, 0), PlayerCell::Question);
    assert_eq!(player(&b, 0, 1), PlayerCell::NotDetermined);
}

#[test]
fn question_marks_keep_their_look_after_a_loss() {
    let mut b = opened_row("...*..*");
    b.annotate_cycle(4, 0);
    b.annotate_cycle(4, 0);
    assert_eq!(player(&b, 4, 0), PlayerCell::Question);
    b.annotate_cycle(6, 0);
    b.annotate_cycle(6, 0);
    assert_eq!(player(&b, 6, 0), PlayerCell::Question);
    let before = b.char_and_colors(4, 0);
    assert_eq!(before, (Some(('?', Paint::Ink)), Paint::QuestionBackground));
    b.set(3, 0, PlayerCell::Revealed);
    assert_eq!(b.state, GameState::Lost);
    // A questioned cell without a bomb keeps its question mark.
    assert_eq!(b.char_and_colors(4, 0), before);
    // A questioned bomb shows as a bomb the player missed.
    assert_eq!(b.char_and_colors(6, 0), (Some(('B', Paint::Ink)), Paint::BombBackground));
}
