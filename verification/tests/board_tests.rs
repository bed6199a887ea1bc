use struggle_core::board::{Board, StruggleMove};
use struggle_core::color::PlayerColor;

#[test]
fn red_goal_move_1() {
    let mut board = Board::new(PlayerColor::Red, PlayerColor::Yellow);
    board.tiles[27] = Some(PlayerColor::Red);
    board.update_piece_cache();
    let moves = board.get_moves(1, PlayerColor::Red, PlayerColor::Yellow);

    assert_eq!(moves.len(), 1);
    assert_eq!(
        moves[0],
        StruggleMove::MoveToGoal {
            from_board: 27,
            to_goal: 0
        }
    );

    board.perform_move(PlayerColor::Red, &moves[0]);

    assert_eq!(board.tiles[27], None);
    assert_eq!(
        board.goals[PlayerColor::Red as usize][0],
        Some(PlayerColor::Red)
    );
}

#[test]
fn red_goal_move_2() {
    let mut board = Board::new(PlayerColor::Red, PlayerColor::Yellow);
    board.tiles[26] = Some(PlayerColor::Red);
    board.update_piece_cache();
    let moves = board.get_moves(2, PlayerColor::Red, PlayerColor::Yellow);

    assert_eq!(moves.len(), 1);
    assert_eq!(
        moves[0],
        StruggleMove::MoveToGoal {
            from_board: 26,
            to_goal: 0
        }
    );

    board.perform_move(PlayerColor::Red, &moves[0]);

    assert_eq!(board.tiles[27], None);
    assert_eq!(
        board.goals[PlayerColor::Red as usize][0],
        Some(PlayerColor::Red)
    );
}

#[test]
fn yellow_move_around_red_home() {
    let mut board = Board::new(PlayerColor::Red, PlayerColor::Yellow);
    board.tiles[27] = Some(PlayerColor::Yellow);
    board.update_piece_cache();
    let moves = board.get_moves(1, PlayerColor::Yellow, PlayerColor::Red);

    assert_eq!(moves.len(), 1);
    assert_eq!(
        moves[0],
        StruggleMove::MovePiece {
            from: 27,
            to: 0,
            eats: false
        }
    );

    board.perform_move(PlayerColor::Yellow, &moves[0]);

    assert_eq!(board.tiles[27], None);
    assert_eq!(board.tiles[0], Some(PlayerColor::Yellow));
}

#[test]
fn yellow_distance_to_goal() {
    let board = Board::new(PlayerColor::Red, PlayerColor::Yellow);
    assert_eq!(board.distance_to_goal_entrance(PlayerColor::Yellow, 0), 13);
    assert_eq!(board.distance_to_goal_entrance(PlayerColor::Yellow, 27), 14);
    assert_eq!(board.distance_to_goal_entrance(PlayerColor::Yellow, 13), 0);
    assert_eq!(board.distance_to_goal_entrance(PlayerColor::Yellow, 14), 27);
}

#[test]
fn red_distance_to_goal() {
    let board = Board::new(PlayerColor::Red, PlayerColor::Yellow);
    assert_eq!(board.distance_to_goal_entrance(PlayerColor::Red, 0), 27);
    assert_eq!(board.distance_to_goal_entrance(PlayerColor::Red, 1), 26);
    assert_eq!(board.distance_to_goal_entrance(PlayerColor::Red, 27), 0);
    assert_eq!(board.distance_to_goal_entrance(PlayerColor::Red, 26), 1);
}

#[test]
fn clockwise_distance_1() {
    let board = Board::new(PlayerColor::Red, PlayerColor::Yellow);
    assert_eq!(board.clockwise_distance(0, 1), 1);
    assert_eq!(board.clockwise_distance(0, 10), 10);
    assert_eq!(board.clockwise_distance(26, 27), 1);
    assert_eq!(board.clockwise_distance(27, 0), 1);
    assert_eq!(board.clockwise_distance(3, 0), 25);
}

#[test]
fn struggle_red_goal_move_1() {
    let mut board = Board::new(PlayerColor::Red, PlayerColor::Yellow);
    board.tiles[27] = Some(PlayerColor::Red);
    board.update_piece_cache();
    let moves = board.get_moves(1, PlayerColor::Red, PlayerColor::Yellow);

    assert_eq!(moves.len(), 1);
    assert_eq!(
        moves[0],
        StruggleMove::MoveToGoal {
            from_board: 27,
            to_goal: 0
        }
    );

    board.perform_move(PlayerColor::Red, &moves[0]);

    assert_eq!(board.tiles[27], None);
    assert_eq!(
        board.goals[PlayerColor::Red as usize][0],
        Some(PlayerColor::Red)
    );
}

#[test]
fn struggle_red_goal_move_2() {
    let mut board = Board::new(PlayerColor::Red, PlayerColor::Yellow);
    board.tiles[26] = Some(PlayerColor::Red);
    board.update_piece_cache();
    let moves = board.get_moves(2, PlayerColor::Red, PlayerColor::Yellow);

    assert_eq!(moves.len(), 1);
    assert_eq!(
        moves[0],
        StruggleMove::MoveToGoal {
            from_board: 26,
            to_goal: 0
        }
    );

    board.perform_move(PlayerColor::Red, &moves[0]);

    assert_eq!(board.tiles[27], None);
    assert_eq!(
        board.goals[PlayerColor::Red as usize][0],
        Some(PlayerColor::Red)
    );
}

#[test]
fn struggle_yellow_move_around_red_home() {
    let mut board = Board::new(PlayerColor::Red, PlayerColor::Yellow);
    board.tiles[27] = Some(PlayerColor::Yellow);
    board.update_piece_cache();
    let moves = board.get_moves(1, PlayerColor::Yellow, PlayerColor::Red);

    assert_eq!(moves.len(), 1);
    assert_eq!(
        moves[0],
        StruggleMove::MovePiece {
            from: 27,
            to: 0,
            eats: false
        }
    );

    board.perform_move(PlayerColor::Yellow, &moves[0]);

    assert_eq!(board.tiles[27], None);
    assert_eq!(board.tiles[0], Some(PlayerColor::Yellow));
}

#[test]
fn struggle_yellow_distance_to_goal() {
    let board = Board::new(PlayerColor::Red, PlayerColor::Yellow);
    assert_eq!(board.distance_to_goal_entrance(PlayerColor::Yellow, 0), 13);
    assert_eq!(board.distance_to_goal_entrance(PlayerColor::Yellow, 27), 14);
    assert_eq!(board.distance_to_goal_entrance(PlayerColor::Yellow, 13), 0);
    assert_eq!(board.distance_to_goal_entrance(PlayerColor::Yellow, 14), 27);
}

#[test]
fn struggle_red_distance_to_goal() {
    let board = Board::new(PlayerColor::Red, PlayerColor::Yellow);
    assert_eq!(board.distance_to_goal_entrance(PlayerColor::Red, 0), 27);
    assert_eq!(board.distance_to_goal_entrance(PlayerColor::Red, 1), 26);
    assert_eq!(board.distance_to_goal_entrance(PlayerColor::Red, 27), 0);
    assert_eq!(board.distance_to_goal_entrance(PlayerColor::Red, 26), 1);
}

#[test]
fn struggle_clockwise_distance_1() {
    let board = Board::new(PlayerColor::Red, PlayerColor::Yellow);
    assert_eq!(board.clockwise_distance(0, 1), 1);
    assert_eq!(board.clockwise_distance(0, 10), 10);
    assert_eq!(board.clockwise_distance(26, 27), 1);
    assert_eq!(board.clockwise_distance(27, 0), 1);
    assert_eq!(board.clockwise_distance(3, 0), 25);
}
