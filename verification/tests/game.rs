use ultimate_tic_tac_toe::board::{Element, State};
use ultimate_tic_tac_toe::game::{GameError, GameState, Outcome, Status};

fn mv(game: &mut GameState, path: &[(u8, u8)]) -> Result<Status, GameError> {
    let path: Vec<(u8, u8)> = path.to_vec();
    game.apply_move(&path)
}

#[test]
fn new_game_rejects_depth_zero() {
    match GameState::new_game(0) {
        Err(GameError::InvalidDepth) => {}
        _ => panic!("expected InvalidDepth"),
    }
}

#[test]
fn new_game_counts_one_empty_leaf_per_cell() {
    // Every leaf of a fresh tree sits at the configured depth, so the
    // count of possible moves is nine to that power.
    assert_eq!(GameState::new_game(1).unwrap().remaining_moves(), 9);
    assert_eq!(GameState::new_game(2).unwrap().remaining_moves(), 81);
    assert_eq!(GameState::new_game(3).unwrap().remaining_moves(), 729);
    assert_eq!(GameState::new_game(4).unwrap().remaining_moves(), 6561);
}

#[test]
fn new_game_starts_with_circle_in_progress() {
    let game = GameState::new_game(2).unwrap();
    assert_eq!(game.current_turn(), State::Circle);
    assert_eq!(game.status(), Status::InProgress);
    assert_eq!(game.moves_made(), 0);
    assert_eq!(game.depth(), 2);
}

#[test]
fn depth_one_column_win_for_first_player() {
    let mut game = GameState::new_game(1).unwrap();
    assert_eq!(mv(&mut game, &[(0, 0)]), Ok(Status::InProgress));
    assert_eq!(game.current_turn(), State::Cross);
    assert_eq!(mv(&mut game, &[(1, 1)]), Ok(Status::InProgress));
    assert_eq!(mv(&mut game, &[(0, 1)]), Ok(Status::InProgress));
    assert_eq!(mv(&mut game, &[(1, 0)]), Ok(Status::InProgress));
    // Circle completes column x = 0.
    assert_eq!(
        mv(&mut game, &[(0, 2)]),
        Ok(Status::Over(Outcome::Won(State::Circle)))
    );
    assert_eq!(game.status(), Status::Over(Outcome::Won(State::Circle)));
    // No collapse happens at depth 1: the count drops by exactly the five
    // moves made.
    assert_eq!(game.remaining_moves(), 4);
    assert_eq!(game.moves_made(), 5);
    // The turn flips even on the move that ends the game.
    assert_eq!(game.current_turn(), State::Cross);
}

#[test]
fn depth_one_draw_is_stalemate() {
    let mut game = GameState::new_game(1).unwrap();
    // Fill all nine cells without completing a line for either player;
    // the final grid, by columns, is C O C | O O C | C C O.
    let moves: [(u8, u8); 9] = [
        (0, 0), // Circle
        (1, 0), // Cross
        (2, 0), // Circle
        (0, 1), // Cross
        (2, 1), // Circle
        (1, 1), // Cross
        (0, 2), // Circle
        (2, 2), // Cross
        (1, 2), // Circle
    ];
    for (k, &step) in moves.iter().enumerate() {
        let r = mv(&mut game, &[step]).unwrap();
        if k < 8 {
            assert_eq!(r, Status::InProgress);
        } else {
            assert_eq!(r, Status::Over(Outcome::Stalemate));
        }
    }
    assert_eq!(game.status(), Status::Over(Outcome::Stalemate));
    assert_eq!(game.remaining_moves(), 0);
}

#[test]
fn occupied_cell_is_rejected_and_nothing_changes() {
    let mut game = GameState::new_game(1).unwrap();
    assert_eq!(mv(&mut game, &[(0, 0)]), Ok(Status::InProgress));
    // Second attempts the same cell.
    assert_eq!(mv(&mut game, &[(0, 0)]), Err(GameError::InvalidPath));
    assert_eq!(game.current_turn(), State::Cross);
    assert_eq!(game.status(), Status::InProgress);
    assert_eq!(game.moves_made(), 1);
    assert_eq!(game.remaining_moves(), 8);
}

#[test]
fn wrong_length_and_out_of_range_paths_are_rejected() {
    let mut game = GameState::new_game(2).unwrap();
    assert_eq!(mv(&mut game, &[(0, 0)]), Err(GameError::InvalidPath));
    assert_eq!(
        mv(&mut game, &[(0, 0), (1, 1), (2, 2)]),
        Err(GameError::InvalidPath)
    );
    assert_eq!(mv(&mut game, &[(3, 0), (0, 0)]), Err(GameError::InvalidPath));
    assert_eq!(mv(&mut game, &[(0, 3), (0, 0)]), Err(GameError::InvalidPath));
    assert_eq!(game.moves_made(), 0);
    assert_eq!(game.remaining_moves(), 81);
}

#[test]
fn no_move_is_accepted_once_the_game_is_over() {
    let mut game = GameState::new_game(1).unwrap();
    mv(&mut game, &[(0, 0)]).unwrap();
    mv(&mut game, &[(1, 1)]).unwrap();
    mv(&mut game, &[(0, 1)]).unwrap();
    mv(&mut game, &[(1, 0)]).unwrap();
    mv(&mut game, &[(0, 2)]).unwrap();
    assert_eq!(game.status(), Status::Over(Outcome::Won(State::Circle)));
    assert_eq!(mv(&mut game, &[(2, 2)]), Err(GameError::GameOver));
    assert_eq!(game.moves_made(), 5);
}

#[test]
fn depth_two_sub_board_win_collapses_and_absorbs_empty_leaves() {
    let mut game = GameState::new_game(2).unwrap();
    assert_eq!(game.remaining_moves(), 81);
    // Circle drives the sub-board at outer (0,0) to a column win while
    // Cross plays in the sub-board at outer (1,1).
    mv(&mut game, &[(0, 0), (0, 0)]).unwrap();
    mv(&mut game, &[(1, 1), (0, 0)]).unwrap();
    mv(&mut game, &[(0, 0), (0, 1)]).unwrap();
    mv(&mut game, &[(1, 1), (1, 0)]).unwrap();
    assert_eq!(mv(&mut game, &[(0, 0), (0, 2)]), Ok(Status::InProgress));
    // The decided sub-board is now a resolved cell marked by Circle, no
    // longer a nested board.
    match game.board().child(0, 0) {
        Element::State(Some(State::Circle)) => {}
        _ => panic!("expected the won sub-board to be a resolved cell"),
    }
    // The collapse absorbed the six leaves still empty in that sub-board:
    // the count dropped from 81 by the five marks and the six absorbed
    // leaves, not just by five.
    assert_eq!(game.remaining_moves(), 70);
    assert_eq!(game.moves_made(), 5);
    assert_eq!(game.status(), Status::InProgress);
    // Moving into the collapsed sub-board is now invalid.
    assert_eq!(mv(&mut game, &[(0, 0), (1, 1)]), Err(GameError::InvalidPath));
}

#[test]
fn depth_two_outer_win_ends_the_game() {
    let mut game = GameState::new_game(2).unwrap();
    // Circle (moving first, third, ...) wins the sub-boards at outer
    // (0,0), (0,1) and (0,2) -- the outer column x = 0 -- while Cross
    // scatters marks that never complete a line.
    let moves: [((u8, u8), (u8, u8)); 16] = [
        ((0, 0), (0, 0)), // Circle
        ((1, 0), (0, 0)), // Cross
        ((0, 0), (0, 1)), // Circle
        ((1, 0), (1, 0)), // Cross
        ((0, 0), (0, 2)), // Circle wins sub-board (0,0)
        ((1, 1), (0, 0)), // Cross
        ((0, 1), (0, 0)), // Circle
        ((1, 1), (1, 0)), // Cross
        ((0, 1), (0, 1)), // Circle
        ((2, 1), (0, 0)), // Cross
        ((0, 1), (0, 2)), // Circle wins sub-board (0,1)
        ((2, 1), (1, 0)), // Cross
        ((0, 2), (0, 0)), // Circle
        ((2, 2), (0, 0)), // Cross
        ((0, 2), (0, 1)), // Circle
        ((2, 2), (1, 0)), // Cross
    ];
    for &(outer, inner) in moves.iter() {
        assert_eq!(mv(&mut game, &[outer, inner]), Ok(Status::InProgress));
    }
    // Circle completes sub-board (0,2) and with it the outer column.
    assert_eq!(
        mv(&mut game, &[(0, 2), (0, 2)]),
        Ok(Status::Over(Outcome::Won(State::Circle)))
    );
    assert_eq!(game.status(), Status::Over(Outcome::Won(State::Circle)));
}
