use struggle_core::color::PlayerColor;
use struggle_core::twistboard::{
    ActionDie, ActionDieMove, DieResult, MoveFrom, NumberDieMove, SpinSection, TwistBoard,
    TwistMove, TwistRotation,
};
use struggle_core::twistmoves::{get_twist_moves, spin_is_nop};

const P1: PlayerColor = PlayerColor::Red;
const P2: PlayerColor = PlayerColor::Yellow;

/// The two move lists hold exactly the same moves, in any order.
fn assert_same_moves(actual: &[TwistMove], expected: &[TwistMove]) {
    assert_eq!(actual.len(), expected.len(), "{:?} vs {:?}", actual, expected);
    for m in expected {
        assert!(actual.contains(m), "missing {:?} in {:?}", m, actual);
    }
    for m in actual {
        assert!(expected.contains(m), "unexpected {:?}", m);
    }
}

fn default_move() -> TwistMove {
    TwistMove(NumberDieMove::DoNothing, ActionDieMove::DoNothing)
}

#[test]
fn get_winner_goal_filled() {
    let mut board = TwistBoard::new((P1, P2));

    board.goals[0][0] = Some(P1);
    board.goals[0][1] = Some(P1);
    board.goals[0][2] = Some(P1);
    board.update_piece_cache();

    // Winning requires all goals AND the goal entrance to be filled
    assert_eq!(board.get_winner(), None);
}

#[test]
fn get_winner_goal_entrance_filled() {
    let mut board = TwistBoard::new((P1, P2));

    board.goals[0][0] = Some(P1);
    board.goals[0][1] = Some(P1);
    board.goals[0][2] = Some(P1);
    let entrance = TwistBoard::get_goal_entrance(TwistRotation::Initial, P1) as usize;
    board.tiles[entrance] = Some(P1);
    board.update_piece_cache();

    assert_eq!(board.get_winner(), Some(P1));
}

#[test]
fn get_winner_goal_entrance_filled_yellow() {
    let mut board = TwistBoard::new((P1, P2));

    board.goals[2][0] = Some(P2);
    board.goals[2][1] = Some(P2);
    board.goals[2][2] = Some(P2);
    let entrance = TwistBoard::get_goal_entrance(TwistRotation::Initial, P2) as usize;
    board.tiles[entrance] = Some(P2);
    board.update_piece_cache();

    assert_eq!(board.get_winner(), Some(P2));
}

#[test]
fn get_winner_goal_entrance_filled_other_player() {
    let mut board = TwistBoard::new((P1, P2));

    board.goals[0][0] = Some(P1);
    board.goals[0][1] = Some(P1);
    board.goals[0][2] = Some(P1);
    let entrance = TwistBoard::get_goal_entrance(TwistRotation::Initial, P1) as usize;
    board.tiles[entrance] = Some(P2);
    board.update_piece_cache();

    assert_eq!(board.get_winner(), None);
}

#[test]
fn get_winner_rotate() {
    let mut board = TwistBoard::new((P1, P2));

    board.rotation = TwistRotation::Ccw90;
    board.goals[0][0] = Some(P1);
    board.goals[0][1] = Some(P1);
    board.goals[0][2] = Some(P1);
    let entrance = TwistBoard::get_goal_entrance(TwistRotation::Initial, P1) as usize;
    board.tiles[entrance] = Some(P1);
    board.update_piece_cache();

    assert_eq!(board.get_winner(), None);

    board.rotation = TwistRotation::Initial;
    board.update_piece_cache();

    assert_eq!(board.get_winner(), Some(PlayerColor::Red));
}

#[test]
fn test_add_new_piece() {
    let mut board = TwistBoard::new((P1, P2));

    let moves = get_twist_moves(
        &board,
        DieResult {
            number: 1,
            action: ActionDie::DoNothing,
        },
        P1,
        P2,
    );

    let expected_moves = vec![
        TwistMove(
            NumberDieMove::MovePiece {
                from: MoveFrom::Home,
                to: 0,
                eats: false,
            },
            ActionDieMove::DoNothing,
        ),
        default_move(),
    ];

    assert_same_moves(&moves, &expected_moves);

    board.perform_move(P1, &moves[0]);

    assert_eq!(board.tiles[0], Some(P1));
    assert_eq!(board.home_bases[P1 as usize].pieces_waiting, 3);
}

#[test]
fn add_new_piece_eats() {
    let mut board = TwistBoard::new((P1, P2));

    board.tiles[0] = Some(P2);
    board.home_bases[P2 as usize].pieces_waiting = 3;
    board.update_piece_cache();

    let moves = get_twist_moves(
        &board,
        DieResult {
            number: 1,
            action: ActionDie::DoNothing,
        },
        P1,
        P2,
    );

    let expected_moves = vec![
        TwistMove(
            NumberDieMove::MovePiece {
                from: MoveFrom::Home,
                to: 0,
                eats: true,
            },
            ActionDieMove::DoNothing,
        ),
        default_move(),
    ];

    assert_same_moves(&moves, &expected_moves);

    board.perform_move(P1, &moves[0]);

    assert_eq!(board.tiles[0], Some(P1));
    assert_eq!(board.home_bases[P1 as usize].pieces_waiting, 3);
    assert_eq!(board.home_bases[P2 as usize].pieces_waiting, 4);
}

#[test]
fn add_new_piece_own_already_in_start() {
    let mut board = TwistBoard::new((P1, P2));
    board.tiles[0] = Some(P1);
    board.home_bases[P1 as usize].pieces_waiting = 3;
    board.update_piece_cache();

    let moves = get_twist_moves(
        &board,
        DieResult {
            number: 6,
            action: ActionDie::DoNothing,
        },
        P1,
        P2,
    );

    let expected_moves = vec![
        TwistMove(
            NumberDieMove::MovePiece {
                from: MoveFrom::Board(0),
                to: 6,
                eats: false,
            },
            ActionDieMove::DoNothing,
        ),
        default_move(),
    ];

    assert_same_moves(&moves, &expected_moves);
}

#[test]
fn move_wrap_around() {
    let mut board = TwistBoard::new((P2, P1));
    board.tiles[31] = Some(P2);
    board.home_bases[P2 as usize].pieces_waiting = 3;
    board.update_piece_cache();

    let moves = get_twist_moves(
        &board,
        DieResult {
            number: 2,
            action: ActionDie::DoNothing,
        },
        P2,
        P1,
    );

    let expected_moves = vec![
        TwistMove(
            NumberDieMove::MovePiece {
                from: MoveFrom::Board(31),
                to: 1,
                eats: false,
            },
            ActionDieMove::DoNothing,
        ),
        default_move(),
    ];

    assert_same_moves(&moves, &expected_moves);

    board.perform_move(P2, &moves[0]);

    assert_eq!(board.tiles[1], Some(P2));
    assert_eq!(board.tiles[31], None);
    assert_eq!(board.home_bases[P2 as usize].pieces_waiting, 3);
}

fn get_approach_goal_state(
    distance: u8,
    die: u8,
    rotation: TwistRotation,
) -> (TwistBoard, Vec<TwistMove>) {
    let goal_entrance = TwistBoard::get_goal_entrance(rotation, P1);

    let mut board = TwistBoard::new((P1, P2));
    board.tiles[(goal_entrance - distance) as usize] = Some(P1);
    board.rotation = rotation;
    board.update_piece_cache();

    let moves = get_twist_moves(
        &board,
        DieResult {
            number: die,
            action: ActionDie::DoNothing,
        },
        P1,
        P2,
    );

    (board, moves)
}

#[test]
fn approach_goal_1() {
    let (mut board, moves) = get_approach_goal_state(1, 1, TwistRotation::Initial);
    let p1_goal_entrance = TwistBoard::get_goal_entrance(TwistRotation::Initial, P1);

    let expected_moves = vec![
        TwistMove(
            NumberDieMove::MovePiece {
                from: MoveFrom::Board(p1_goal_entrance - 1),
                to: p1_goal_entrance,
                eats: false,
            },
            ActionDieMove::DoNothing,
        ),
        default_move(),
    ];

    assert_same_moves(&moves, &expected_moves);

    board.perform_move(P1, &moves[0]);

    assert_eq!(board.tiles[p1_goal_entrance as usize], Some(P1));
    assert_eq!(board.tiles[(p1_goal_entrance - 1) as usize], None);
}

#[test]
fn enter_goal_1() {
    let (mut board, moves) = get_approach_goal_state(0, 1, TwistRotation::Initial);
    let p1_goal_entrance = TwistBoard::get_goal_entrance(TwistRotation::Initial, P1);

    let expected_moves = vec![
        TwistMove(
            NumberDieMove::MoveToGoal {
                from_board: p1_goal_entrance,
                to_goal: 0,
            },
            ActionDieMove::DoNothing,
        ),
        default_move(),
    ];

    assert_same_moves(&moves, &expected_moves);

    board.perform_move(P1, &moves[0]);

    assert_eq!(board.tiles[p1_goal_entrance as usize], None);
    assert_eq!(&board.goals[P1 as usize][..], &[Some(P1), None, None]);
}

#[test]
fn enter_goal_6() {
    let (mut board, moves) = get_approach_goal_state(0, 6, TwistRotation::Initial);
    let p1_goal_entrance = TwistBoard::get_goal_entrance(TwistRotation::Initial, P1);

    let expected_moves = vec![
        TwistMove(
            NumberDieMove::MovePiece {
                from: MoveFrom::Home,
                to: 0,
                eats: false,
            },
            ActionDieMove::DoNothing,
        ),
        TwistMove(
            NumberDieMove::MoveToGoal {
                from_board: p1_goal_entrance,
                to_goal: 2,
            },
            ActionDieMove::DoNothing,
        ),
        default_move(),
    ];

    assert_same_moves(&moves, &expected_moves);

    board.perform_move(P1, &moves[1]);

    assert_eq!(board.tiles[p1_goal_entrance as usize], None);
    assert_eq!(&board.goals[P1 as usize][..], &[None, None, Some(P1)]);
}

#[test]
fn enter_goal_1_rotated() {
    let (mut board, moves) = get_approach_goal_state(1, 4, TwistRotation::Ccw180);

    // When the board is rotated two quarter turns, the first color's goal
    // entrance sits where the third color's is in the initial orientation.
    let yellow_entrance = TwistBoard::get_goal_entrance(TwistRotation::Initial, PlayerColor::Yellow);

    let expected_moves = vec![
        TwistMove(
            NumberDieMove::MoveToGoal {
                from_board: yellow_entrance - 1,
                to_goal: 2,
            },
            ActionDieMove::DoNothing,
        ),
        default_move(),
    ];

    assert_same_moves(&moves, &expected_moves);

    board.perform_move(P1, &moves[0]);

    assert_eq!(board.tiles[(yellow_entrance - 1) as usize], None);
    assert_eq!(&board.goals[P1 as usize][..], &[None, None, Some(P1)]);
}

#[test]
fn rotate_board_1() {
    let mut board = TwistBoard::new((P1, P2));
    board.tiles[0] = Some(P1);
    board.home_bases[P1 as usize].pieces_waiting = 3;
    board.update_piece_cache();

    let moves = get_twist_moves(
        &board,
        DieResult {
            number: 1,
            action: ActionDie::RotateBoard,
        },
        P1,
        P2,
    );

    let number_move = NumberDieMove::MovePiece {
        from: MoveFrom::Board(0),
        to: 1,
        eats: false,
    };

    let action_move = ActionDieMove::RotateBoard;

    let expected_moves = vec![
        TwistMove(number_move, action_move),
        TwistMove(number_move, ActionDieMove::DoNothing),
        TwistMove(NumberDieMove::DoNothing, action_move),
        default_move(),
    ];

    assert_same_moves(&moves, &expected_moves);

    board.perform_move(P1, &moves[0]);

    assert_eq!(board.tiles[0], None);
    assert_eq!(board.tiles[1], Some(P1));
    assert_eq!(board.rotation, TwistRotation::Ccw90);
}

#[test]
fn spin_section_all_useless() {
    let mut board = TwistBoard::new((P1, P2));
    board.tiles[0] = Some(P1);
    board.home_bases[P1 as usize].pieces_waiting = 3;
    board.update_piece_cache();

    let moves = get_twist_moves(
        &board,
        DieResult {
            number: 1,
            action: ActionDie::SpinSection,
        },
        P1,
        P2,
    );

    let number_move = NumberDieMove::MovePiece {
        from: MoveFrom::Board(0),
        to: 1,
        eats: false,
    };

    // With no pieces on any arc, no spin changes anything
    let expected_moves = vec![
        TwistMove(number_move, ActionDieMove::DoNothing),
        default_move(),
    ];

    assert_same_moves(&moves, &expected_moves);
}

#[test]
fn spin_section_basic() {
    let mut board = TwistBoard::new((P1, P2));
    let (arc_start, _) = TwistBoard::get_spin_section_range(SpinSection::RedToBlue);
    board.tiles[arc_start] = Some(P1);
    board.tiles[arc_start + 4] = Some(P2);
    board.home_bases[P1 as usize].pieces_waiting = 3;
    board.home_bases[P2 as usize].pieces_waiting = 3;
    board.update_piece_cache();

    let moves = get_twist_moves(
        &board,
        DieResult {
            number: 1,
            action: ActionDie::SpinSection,
        },
        P1,
        P2,
    );

    let number_move = NumberDieMove::MovePiece {
        from: MoveFrom::Board(arc_start as u8),
        to: (arc_start + 1) as u8,
        eats: false,
    };

    let action_move = ActionDieMove::SpinSection(SpinSection::RedToBlue);

    let expected_moves = vec![
        TwistMove(number_move, action_move),
        TwistMove(number_move, ActionDieMove::DoNothing),
        TwistMove(NumberDieMove::DoNothing, action_move),
        default_move(),
    ];

    assert_same_moves(&moves, &expected_moves);

    board.perform_move(P1, &moves[0]);

    // The first color's piece went one forward, then the arc was reversed
    assert_eq!(
        board.get_spin_section(SpinSection::RedToBlue),
        vec![Some(P2), None, None, Some(P1), None]
    );
}

fn test_spin_section(initial: [Option<PlayerColor>; 5]) -> bool {
    let mut board = TwistBoard::new((P1, P2));
    let (arc_start, _) = TwistBoard::get_spin_section_range(SpinSection::RedToBlue);
    for (offset, cell) in initial.iter().enumerate() {
        board.tiles[arc_start + offset] = *cell;
    }
    board.update_piece_cache();

    spin_is_nop(&board, SpinSection::RedToBlue)
}

#[test]
fn test_spin_is_nop() {
    // Examples of useless spins
    assert!(test_spin_section([None, None, None, None, None]));
    assert!(test_spin_section([None, None, Some(P1), None, None]));
    assert!(test_spin_section([Some(P1), None, None, None, Some(P1)]));
    assert!(test_spin_section([
        Some(P1),
        None,
        Some(P2),
        None,
        Some(P1)
    ]));

    // Examples of useful spins
    assert!(!test_spin_section([Some(P1), None, None, None, None]));
    assert!(!test_spin_section([Some(P1), None, Some(P2), None, None]));
    assert!(!test_spin_section([Some(P1), None, None, None, Some(P2)]));
}

use rand::SeedableRng;
use struggle_core::turn::{next_twist_turn_result, TurnResult};
use struggle_core::twistplayers::{
    score_board, GameContext, TwistDoNothingPlayer, TwistPlayer, TwistScoreBoardPlayer,
    TwistScoreMovePlayer,
};

fn rng() -> rand::rngs::SmallRng {
    rand::rngs::SmallRng::seed_from_u64(11)
}

fn twist_total_pieces(board: &TwistBoard, c: PlayerColor) -> u32 {
    let on_ring = board
        .tiles
        .iter()
        .filter(|cell| **cell == Some(c))
        .count() as u32;
    let in_goal = board.goals[c as usize]
        .iter()
        .filter(|cell| cell.is_some())
        .count() as u32;
    on_ring + in_goal + board.home_bases[c as usize].pieces_waiting as u32
}

#[test]
fn twist_conservation_through_moves() {
    let mut board = TwistBoard::new((P1, P2));
    board.tiles[2] = Some(P1);
    board.home_bases[P1 as usize].pieces_waiting = 3;
    board.tiles[4] = Some(P2);
    board.home_bases[P2 as usize].pieces_waiting = 3;
    board.update_piece_cache();

    // A capture combined with an arc spin keeps every piece accounted for.
    let mov = TwistMove(
        NumberDieMove::MovePiece {
            from: MoveFrom::Board(2),
            to: 4,
            eats: true,
        },
        ActionDieMove::SpinSection(SpinSection::RedToBlue),
    );
    board.perform_move(P1, &mov);

    assert_eq!(twist_total_pieces(&board, P1), 4);
    assert_eq!(twist_total_pieces(&board, P2), 4);
    assert_eq!(board.home_bases[P2 as usize].pieces_waiting, 4);
}

#[test]
fn twist_do_nothing_player_passes() {
    let board = TwistBoard::new((P1, P2));
    let ctx = GameContext {
        die: DieResult {
            number: 1,
            action: ActionDie::DoNothing,
        },
        current_player: P1,
        other_player: P2,
    };
    let moves = get_twist_moves(&board, ctx.die, P1, P2);
    let mut player = TwistDoNothingPlayer;
    let idx = player.select_move(&ctx, &board, &moves, &mut rng());
    assert_eq!(moves[idx], default_move());
}

#[test]
fn twist_score_move_player_never_rotates() {
    let mut board = TwistBoard::new((P1, P2));
    board.tiles[0] = Some(P1);
    board.home_bases[P1 as usize].pieces_waiting = 3;
    board.update_piece_cache();

    let ctx = GameContext {
        die: DieResult {
            number: 1,
            action: ActionDie::RotateBoard,
        },
        current_player: P1,
        other_player: P2,
    };
    let moves = get_twist_moves(&board, ctx.die, P1, P2);
    assert!(moves
        .iter()
        .any(|m| m.1 == ActionDieMove::RotateBoard));
    let mut player = TwistScoreMovePlayer;
    let idx = player.select_move(&ctx, &board, &moves, &mut rng());
    assert!(moves[idx].1 != ActionDieMove::RotateBoard);
}

#[test]
fn twist_score_board_player_picks_a_move() {
    let mut board = TwistBoard::new((P1, P2));
    board.tiles[0] = Some(P1);
    board.home_bases[P1 as usize].pieces_waiting = 3;
    board.update_piece_cache();

    let ctx = GameContext {
        die: DieResult {
            number: 2,
            action: ActionDie::DoNothing,
        },
        current_player: P1,
        other_player: P2,
    };
    let moves = get_twist_moves(&board, ctx.die, P1, P2);
    let mut player = TwistScoreBoardPlayer;
    let idx = player.select_move(&ctx, &board, &moves, &mut rng());
    assert!(idx < moves.len());

    // Advancing scores better than standing still one ply deep.
    let advanced = board.with_move(P1, &moves[idx]);
    let idle = board.with_move(P1, &default_move());
    assert!(score_board(&advanced, &ctx) >= score_board(&idle, &ctx));
}

#[test]
fn twist_turn_results_follow_the_die_and_the_winner() {
    let mut board = TwistBoard::new((P1, P2));
    assert_eq!(
        next_twist_turn_result(&board, P2, 2),
        TurnResult::PassTo(P2)
    );
    assert_eq!(
        next_twist_turn_result(&board, P2, 6),
        TurnResult::<PlayerColor>::PlayAgain
    );

    board.goals[0][0] = Some(P1);
    board.goals[0][1] = Some(P1);
    board.goals[0][2] = Some(P1);
    let entrance = TwistBoard::get_goal_entrance(TwistRotation::Initial, P1) as usize;
    board.tiles[entrance] = Some(P1);
    board.home_bases[P1 as usize].pieces_waiting = 0;
    board.update_piece_cache();
    assert_eq!(
        next_twist_turn_result(&board, P2, 2),
        TurnResult::EndGame { winner: P1 }
    );
}

#[test]
fn action_die_faces_stay_in_range() {
    let mut r = rng();
    for _ in 0..50 {
        let face = ActionDie::get_random(&mut r);
        assert!(matches!(
            face,
            ActionDie::DoNothing | ActionDie::SpinSection | ActionDie::RotateBoard
        ));
    }
}
