use ultimate_tic_tac_toe::board::{Board, Element, State};

#[test]
fn nothing() {
    let board = Board {
        elements: vec![
            Element::State(None),
            Element::State(None),
            Element::State(None),
            Element::State(None),
            Element::State(None),
            Element::State(None),
            Element::State(None),
            Element::State(None),
            Element::State(None),
        ],
    };
    assert!(board.get_winner().is_none());
    assert!(!board.is_stalemate());
}

#[test]
fn cross_horizontal_win() {
    let board = Board {
        elements: vec![
            Element::State(Some(State::Cross)),
            Element::State(None),
            Element::State(None),
            Element::State(Some(State::Cross)),
            Element::State(None),
            Element::State(None),
            Element::State(Some(State::Cross)),
            Element::State(None),
            Element::State(None),
        ],
    };
    assert_eq!(board.get_winner(), Some(State::Cross));
    assert!(!board.is_stalemate());
}

#[test]
fn circle_diagonal_win() {
    let board = Board {
        elements: vec![
            Element::State(Some(State::Cross)),
            Element::State(None),
            Element::State(None),
            Element::State(None),
            Element::State(Some(State::Cross)),
            Element::State(None),
            Element::State(None),
            Element::State(None),
            Element::State(Some(State::Cross)),
        ],
    };
    assert_eq!(board.get_winner(), Some(State::Cross));
    assert!(!board.is_stalemate());
}

#[test]
fn circle_column_win() {
    // Column x = 0 holds three Circle marks: indices 0, 1, 2.
    let board = Board {
        elements: vec![
            Element::State(Some(State::Circle)),
            Element::State(Some(State::Circle)),
            Element::State(Some(State::Circle)),
            Element::State(None),
            Element::State(Some(State::Cross)),
            Element::State(None),
            Element::State(None),
            Element::State(None),
            Element::State(Some(State::Cross)),
        ],
    };
    assert_eq!(board.get_winner(), Some(State::Circle));
}

#[test]
fn anti_diagonal_win() {
    // The (2,0), (1,1), (0,2) diagonal: indices 6, 4, 2.
    let board = Board {
        elements: vec![
            Element::State(None),
            Element::State(None),
            Element::State(Some(State::Circle)),
            Element::State(None),
            Element::State(Some(State::Circle)),
            Element::State(None),
            Element::State(Some(State::Circle)),
            Element::State(None),
            Element::State(None),
        ],
    };
    assert_eq!(board.get_winner(), Some(State::Circle));
}

#[test]
fn circle_takes_priority_when_both_lines_present() {
    // Such a board is never reached in valid play; the detector is still
    // defined to check Circle's lines first.
    let board = Board {
        elements: vec![
            Element::State(Some(State::Circle)),
            Element::State(Some(State::Circle)),
            Element::State(Some(State::Circle)),
            Element::State(Some(State::Cross)),
            Element::State(Some(State::Cross)),
            Element::State(Some(State::Cross)),
            Element::State(None),
            Element::State(None),
            Element::State(None),
        ],
    };
    assert_eq!(board.get_winner(), Some(State::Circle));
}

#[test]
fn full_board_without_line_is_stalemate() {
    let c = |s: State| Element::State(Some(s));
    // Columns: C O C | O O C | C C O -- no line for either player.
    let board = Board {
        elements: vec![
            c(State::Circle),
            c(State::Cross),
            c(State::Circle),
            c(State::Cross),
            c(State::Cross),
            c(State::Circle),
            c(State::Circle),
            c(State::Circle),
            c(State::Cross),
        ],
    };
    assert!(board.get_winner().is_none());
    assert!(board.is_stalemate());
}

#[test]
fn nested_element_state_is_sub_winner() {
    // A nested board that Cross has won reports Cross as its effective mark;
    // an undecided nested board reports none.
    let won = Board {
        elements: vec![
            Element::State(Some(State::Cross)),
            Element::State(None),
            Element::State(None),
            Element::State(Some(State::Cross)),
            Element::State(None),
            Element::State(None),
            Element::State(Some(State::Cross)),
            Element::State(None),
            Element::State(None),
        ],
    };
    let nested = Element::Board(Box::new(won));
    assert_eq!(nested.get_state(), Some(State::Cross));

    let open = Element::Board(Box::new(Board::build(1)));
    assert_eq!(open.get_state(), None);

    assert_eq!(Element::default().get_state(), None);
}

#[test]
fn build_depth_one_is_nine_empty_cells() {
    let board = Board::build(1);
    assert_eq!(board.count_remaining(), 9);
    for x in 0..3 {
        for y in 0..3 {
            match board.child(x, y) {
                Element::State(None) => {}
                _ => panic!("expected an empty cell"),
            }
        }
    }
}

#[test]
fn build_depth_two_nests_boards() {
    let board = Board::build(2);
    assert_eq!(board.count_remaining(), 81);
    match board.child(2, 1) {
        Element::Board(sub) => {
            assert_eq!(sub.count_remaining(), 9);
            match sub.child(0, 0) {
                Element::State(None) => {}
                _ => panic!("expected an empty cell"),
            }
        }
        _ => panic!("expected a nested board"),
    }
}

#[test]
fn collapse_rewrites_decided_sub_board() {
    // A sub-board won by Circle collapses into a resolved cell; the
    // surrounding board keeps its shape.
    let make = || {
        let mut elements = vec![Element::Board(Box::new(Board {
            elements: vec![
                Element::State(Some(State::Circle)),
                Element::State(Some(State::Circle)),
                Element::State(Some(State::Circle)),
                Element::State(None),
                Element::State(None),
                Element::State(None),
                Element::State(None),
                Element::State(None),
                Element::State(None),
            ],
        }))];
        for _ in 1..9 {
            elements.push(Element::Board(Box::new(Board::build(1))));
        }
        Board { elements }
    };
    let mut board = make();
    board.collapse_states();
    match board.child(0, 0) {
        Element::State(Some(State::Circle)) => {}
        _ => panic!("expected the decided sub-board to be a resolved cell"),
    }
    assert_eq!(board.count_remaining(), 72);
}

#[test]
fn collapse_twice_equals_collapse_once() {
    // Collapse idempotence on concrete values: a second run changes nothing.
    let make = || {
        let mut elements = vec![Element::Board(Box::new(Board {
            elements: vec![
                Element::State(Some(State::Cross)),
                Element::State(None),
                Element::State(Some(State::Circle)),
                Element::State(Some(State::Cross)),
                Element::State(None),
                Element::State(None),
                Element::State(Some(State::Cross)),
                Element::State(Some(State::Circle)),
                Element::State(None),
            ],
        }))];
        for _ in 1..9 {
            elements.push(Element::Board(Box::new(Board::build(1))));
        }
        Board { elements }
    };
    let mut once = make();
    once.collapse_states();
    let mut twice = make();
    twice.collapse_states();
    twice.collapse_states();
    assert!(once.same_as(&twice));
}
