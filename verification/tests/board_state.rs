use lgame::board::BoardState;
use lgame::moves::BoardMove;

#[test]
fn move_is_applied_correctly_no_score() {
    let board_state = BoardState::new();

    let board_move = BoardMove{lPiece: [[0,2], [1,2], [2,2], [2,3]], neutralPieces: [[0,0], [3,0]]};

    let new_state = board_state.apply_move(&board_move);

    assert_eq!(new_state.codes(), [4, 0, 0, 4, 0, 2, 2, 2, 1, 1, 1, 2, 0, 0, 1, 0]);
    assert_eq!(new_state.current_player.code(), 2);
    assert_eq!(new_state.scores, (0, 0));
}

#[test]
fn move_is_applied_correctly_score() {
    let current_board_state = BoardState::new();

    // move player 1's l-piece downward
    let board_move = BoardMove{lPiece: [[0,2], [0,3], [1,3], [2,3]], neutralPieces: [[0,0], [3,0]]};
    let current_board_state = current_board_state.apply_move(&board_move);

    assert_eq!(current_board_state.codes(), [4, 0, 0, 4, 0, 2, 2, 2, 1, 0, 0, 2, 1, 1, 1, 0]);
    assert_eq!(current_board_state.current_player.code(), 2);
    assert_eq!(current_board_state.scores, (1, 0));

    // move player 2's l-piece downward
    let board_move = BoardMove{lPiece: [[1,2], [2,2], [3,2], [3,3]], neutralPieces: [[0,0], [3,0]]};
    let current_board_state = current_board_state.apply_move(&board_move);

    assert_eq!(current_board_state.codes(), [4, 0, 0, 4, 0, 0, 0, 0, 1, 2, 2, 2, 1, 1, 1, 2]);
    assert_eq!(current_board_state.current_player.code(), 1);
    assert_eq!(current_board_state.scores, (1, 1));
}

#[test]
fn losing_state_has_no_more_moves() {
    let current_board_state = BoardState::from_codes([0, 0, 4, 0,
                                                      2, 2, 2, 0,
                                                      1, 0, 2, 0,
                                                      1, 1, 1, 4],
                                                     1,
                                                     (0,0)).unwrap();


    assert_eq!(current_board_state.calculate_legal_moves(), vec![]);

    let current_board_state = BoardState::from_codes([0, 0, 2, 0,
                                                      0, 4, 2, 0,
                                                      4, 1, 2, 2,
                                                      0, 1, 1, 1],
                                                     1,
                                                     (0,0)).unwrap();

    assert_eq!(current_board_state.calculate_legal_moves(), vec![]);
}

#[test]
fn state_has_moves() {
    let current_board_state = BoardState::new();

    assert_eq!(current_board_state.calculate_legal_moves().len(), 5 * 13);

    assert_eq!(current_board_state.calculate_legal_moves(), vec![BoardMove { lPiece: [[0, 2], [0, 3], [1, 2], [2, 2]], neutralPieces: [[0, 0], [3, 3]] }, BoardMove { lPiece: [[0, 2], [0, 3], [1, 2], [2, 2]], neutralPieces: [[1, 0], [3, 3]] }, BoardMove { lPiece: [[0, 2], [0, 3], [1, 2], [2, 2]], neutralPieces: [[2, 0], [3, 3]] }, BoardMove { lPiece: [[0, 2], [0, 3], [1, 2], [2, 2]], neutralPieces: [[3, 0], [3, 3]] }, BoardMove { lPiece: [[0, 2], [0, 3], [1, 2], [2, 2]], neutralPieces: [[0, 1], [3, 3]] }, BoardMove { lPiece: [[0, 2], [0, 3], [1, 2], [2, 2]], neutralPieces: [[1, 3], [3, 3]] }, BoardMove { lPiece: [[0, 2], [0, 3], [1, 2], [2, 2]], neutralPieces: [[2, 3], [3, 3]] }, BoardMove { lPiece: [[0, 2], [0, 3], [1, 2], [2, 2]], neutralPieces: [[0, 0], [1, 0]] }, BoardMove { lPiece: [[0, 2], [0, 3], [1, 2], [2, 2]], neutralPieces: [[0, 0], [2, 0]] }, BoardMove { lPiece: [[0, 2], [0, 3], [1, 2], [2, 2]], neutralPieces: [[0, 0], [3, 0]] }, BoardMove { lPiece: [[0, 2], [0, 3], [1, 2], [2, 2]], neutralPieces: [[0, 0], [0, 1]] }, BoardMove { lPiece: [[0, 2], [0, 3], [1, 2], [2, 2]], neutralPieces: [[0, 0], [1, 3]] }, BoardMove { lPiece: [[0, 2], [0, 3], [1, 2], [2, 2]], neutralPieces: [[0, 0], [2, 3]] }, BoardMove { lPiece: [[2, 2], [2, 3], [1, 2], [0, 2]], neutralPieces: [[0, 0], [3, 3]] }, BoardMove { lPiece: [[2, 2], [2, 3], [1, 2], [0, 2]], neutralPieces: [[1, 0], [3, 3]] }, BoardMove { lPiece: [[2, 2], [2, 3], [1, 2], [0, 2]], neutralPieces: [[2, 0], [3, 3]] }, BoardMove { lPiece: [[2, 2], [2, 3], [1, 2], [0, 2]], neutralPieces: [[3, 0], [3, 3]] }, BoardMove { lPiece: [[2, 2], [2, 3], [1, 2], [0, 2]], neutralPieces: [[0, 1], [3, 3]] }, BoardMove { lPiece: [[2, 2], [2, 3], [1, 2], [0, 2]], neutralPieces: [[0, 3], [3, 3]] }, BoardMove { lPiece: [[2, 2], [2, 3], [1, 2], [0, 2]], neutralPieces: [[1, 3], [3, 3]] }, BoardMove { lPiece: [[2, 2], [2, 3], [1, 2], [0, 2]], neutralPieces: [[0, 0], [1, 0]] }, BoardMove { lPiece: [[2, 2], [2, 3], [1, 2], [0, 2]], neutralPieces: [[0, 0], [2, 0]] }, BoardMove { lPiece: [[2, 2], [2, 3], [1, 2], [0, 2]], neutralPieces: [[0, 0], [3, 0]] }, BoardMove { lPiece: [[2, 2], [2, 3], [1, 2], [0, 2]], neutralPieces: [[0, 0], [0, 1]] }, BoardMove { lPiece: [[2, 2], [2, 3], [1, 2], [0, 2]], neutralPieces: [[0, 0], [0, 3]] }, BoardMove { lPiece: [[2, 2], [2, 3], [1, 2], [0, 2]], neutralPieces: [[0, 0], [1, 3]] }, BoardMove { lPiece: [[0, 3], [1, 3], [0, 2], [0, 1]], neutralPieces: [[0, 0], [3, 3]] }, BoardMove { lPiece: [[0, 3], [1, 3], [0, 2], [0, 1]], neutralPieces: [[1, 0], [3, 3]] }, BoardMove { lPiece: [[0, 3], [1, 3], [0, 2], [0, 1]], neutralPieces: [[2, 0], [3, 3]] }, BoardMove { lPiece: [[0, 3], [1, 3], [0, 2], [0, 1]], neutralPieces: [[3, 0], [3, 3]] }, BoardMove { lPiece: [[0, 3], [1, 3], [0, 2], [0, 1]], neutralPieces: [[1, 2], [3, 3]] }, BoardMove { lPiece: [[0, 3], [1, 3], [0, 2], [0, 1]], neutralPieces: [[2, 2], [3, 3]] }, BoardMove { lPiece: [[0, 3], [1, 3], [0, 2], [0, 1]], neutralPieces: [[2, 3], [3, 3]] }, BoardMove { lPiece: [[0, 3], [1, 3], [0, 2], [0, 1]], neutralPieces: [[0, 0], [1, 0]] }, BoardMove { lPiece: [[0, 3], [1, 3], [0, 2], [0, 1]], neutralPieces: [[0, 0], [2, 0]] }, BoardMove { lPiece: [[0, 3], [1, 3], [0, 2], [0, 1]], neutralPieces: [[0, 0], [3, 0]] }, BoardMove { lPiece: [[0, 3], [1, 3], [0, 2], [0, 1]], neutralPieces: [[0, 0], [1, 2]] }, BoardMove { lPiece: [[0, 3], [1, 3], [0, 2], [0, 1]], neutralPieces: [[0, 0], [2, 2]] }, BoardMove { lPiece: [[0, 3], [1, 3], [0, 2], [0, 1]], neutralPieces: [[0, 0], [2, 3]] }, BoardMove { lPiece: [[0, 3], [0, 2], [1, 3], [2, 3]], neutralPieces: [[0, 0], [3, 3]] }, BoardMove { lPiece: [[0, 3], [0, 2], [1, 3], [2, 3]], neutralPieces: [[1, 0], [3, 3]] }, BoardMove { lPiece: [[0, 3], [0, 2], [1, 3], [2, 3]], neutralPieces: [[2, 0], [3, 3]] }, BoardMove { lPiece: [[0, 3], [0, 2], [1, 3], [2, 3]], neutralPieces: [[3, 0], [3, 3]] }, BoardMove { lPiece: [[0, 3], [0, 2], [1, 3], [2, 3]], neutralPieces: [[0, 1], [3, 3]] }, BoardMove { lPiece: [[0, 3], [0, 2], [1, 3], [2, 3]], neutralPieces: [[1, 2], [3, 3]] }, BoardMove { lPiece: [[0, 3], [0, 2], [1, 3], [2, 3]], neutralPieces: [[2, 2], [3, 3]] }, BoardMove { lPiece: [[0, 3], [0, 2], [1, 3], [2, 3]], neutralPieces: [[0, 0], [1, 0]] }, BoardMove { lPiece: [[0, 3], [0, 2], [1, 3], [2, 3]], neutralPieces: [[0, 0], [2, 0]] }, BoardMove { lPiece: [[0, 3], [0, 2], [1, 3], [2, 3]], neutralPieces: [[0, 0], [3, 0]] }, BoardMove { lPiece: [[0, 3], [0, 2], [1, 3], [2, 3]], neutralPieces: [[0, 0], [0, 1]] }, BoardMove { lPiece: [[0, 3], [0, 2], [1, 3], [2, 3]], neutralPieces: [[0, 0], [1, 2]] }, BoardMove { lPiece: [[0, 3], [0, 2], [1, 3], [2, 3]], neutralPieces: [[0, 0], [2, 2]] }, BoardMove { lPiece: [[2, 3], [2, 2], [1, 3], [0, 3]], neutralPieces: [[0, 0], [3, 3]] }, BoardMove { lPiece: [[2, 3], [2, 2], [1, 3], [0, 3]], neutralPieces: [[1, 0], [3, 3]] }, BoardMove { lPiece: [[2, 3], [2, 2], [1, 3], [0, 3]], neutralPieces: [[2, 0], [3, 3]] }, BoardMove { lPiece: [[2, 3], [2, 2], [1, 3], [0, 3]], neutralPieces: [[3, 0], [3, 3]] }, BoardMove { lPiece: [[2, 3], [2, 2], [1, 3], [0, 3]], neutralPieces: [[0, 1], [3, 3]] }, BoardMove { lPiece: [[2, 3], [2, 2], [1, 3], [0, 3]], neutralPieces: [[0, 2], [3, 3]] }, BoardMove { lPiece: [[2, 3], [2, 2], [1, 3], [0, 3]], neutralPieces: [[1, 2], [3, 3]] }, BoardMove { lPiece: [[2, 3], [2, 2], [1, 3], [0, 3]], neutralPieces: [[0, 0], [1, 0]] }, BoardMove { lPiece: [[2, 3], [2, 2], [1, 3], [0, 3]], neutralPieces: [[0, 0], [2, 0]] }, BoardMove { lPiece: [[2, 3], [2, 2], [1, 3], [0, 3]], neutralPieces: [[0, 0], [3, 0]] }, BoardMove { lPiece: [[2, 3], [2, 2], [1, 3], [0, 3]], neutralPieces: [[0, 0], [0, 1]] }, BoardMove { lPiece: [[2, 3], [2, 2], [1, 3], [0, 3]], neutralPieces: [[0, 0], [0, 2]] }, BoardMove { lPiece: [[2, 3], [2, 2], [1, 3], [0, 3]], neutralPieces: [[0, 0], [1, 2]] }]);
}
