use rand::SeedableRng;
use struggle_core::board::{Board, HomeBase, PiecePosition, StruggleMove};
use struggle_core::boardhash::get_board_hash;
use struggle_core::color::PlayerColor;
use struggle_core::eval::{
    count_moves_heuristic, default_heuristic, minimal_heuristic, Evaluator, MinimalEvaluator,
    WIN_SCORE,
};
use struggle_core::players::{
    score_move, AiStrugglePlayer, GameContext, RandomEaterPlayer, RandomPlayer, ScoreMovePlayer,
    StrugglePlayer,
};
use struggle_core::search::{expectiminimax, worst_expectiminimax, GameTreePlayer};
use struggle_core::tcache::TranspositionTable;
use struggle_core::turn::{next_turn_result, NamedPlayer, TurnResult};
use struggle_core::twistboard::TwistRotation;

const RED: PlayerColor = PlayerColor::Red;
const YELLOW: PlayerColor = PlayerColor::Yellow;

fn rng() -> rand::rngs::SmallRng {
    rand::rngs::SmallRng::seed_from_u64(7)
}

/// Pieces of `c` on the ring, in its goal, and waiting at home, summed.
fn total_pieces(board: &Board, c: PlayerColor) -> u32 {
    let on_ring = board
        .tiles
        .iter()
        .filter(|cell| **cell == Some(c))
        .count() as u32;
    let in_goal = board.goals[c as usize]
        .iter()
        .filter(|cell| cell.is_some())
        .count() as u32;
    on_ring + in_goal + board.home_bases[c as usize].pieces_waiting as u32
}

#[test]
fn conservation_through_a_scripted_game() {
    let mut board = Board::new(RED, YELLOW);
    // Mobilize a red piece, walk it, mobilize yellow, capture it.
    let entry = StruggleMove::AddNewPiece { eats: false };
    board.perform_move(RED, &entry);
    for c in [RED, YELLOW] {
        assert_eq!(total_pieces(&board, c), 4);
    }
    board.perform_move(
        RED,
        &StruggleMove::MovePiece {
            from: 0,
            to: 6,
            eats: false,
        },
    );
    board.perform_move(YELLOW, &StruggleMove::AddNewPiece { eats: false });
    for c in [RED, YELLOW] {
        assert_eq!(total_pieces(&board, c), 4);
    }
}

#[test]
fn capture_returns_exactly_one_piece_home() {
    let mut board = Board::new(RED, YELLOW);
    board.tiles[0] = Some(RED);
    board.home_bases[RED as usize].pieces_waiting = 3;
    board.tiles[1] = Some(YELLOW);
    board.home_bases[YELLOW as usize].pieces_waiting = 3;
    board.update_piece_cache();

    let moves = board.get_moves(1, RED, YELLOW);
    let capture = moves.iter().find(|m| m.eats()).expect("a capture is legal");
    board.perform_move(RED, capture);

    assert_eq!(board.home_bases[YELLOW as usize].pieces_waiting, 4);
    assert_eq!(board.tiles[1], Some(RED));
    assert_eq!(total_pieces(&board, YELLOW), 4);
    assert_eq!(total_pieces(&board, RED), 4);
}

#[test]
fn skip_sentinel_is_the_only_move_when_nothing_is_legal() {
    let mut board = Board::new(RED, YELLOW);
    // One red piece five steps before wrapping into an occupied goal slot;
    // the die overshoots every other option.
    board.tiles[26] = Some(RED);
    board.goals[RED as usize][3] = Some(RED);
    board.home_bases[RED as usize].pieces_waiting = 2;
    board.update_piece_cache();

    let moves = board.get_moves(5, RED, YELLOW);
    assert_eq!(moves.len(), 1);
    assert_eq!(moves[0], StruggleMove::SkipTurn);

    // The sentinel leaves the board unchanged.
    board.perform_move(RED, &moves[0]);
    assert_eq!(board.tiles[26], Some(RED));
}

#[test]
fn search_at_depth_zero_equals_the_heuristic() {
    let mut board = Board::new(RED, YELLOW);
    board.tiles[5] = Some(RED);
    board.home_bases[RED as usize].pieces_waiting = 3;
    board.tiles[13] = Some(YELLOW);
    board.home_bases[YELLOW as usize].pieces_waiting = 3;
    board.update_piece_cache();

    let mut player = expectiminimax(0);
    let value = player.expectiminimax(
        &board,
        RED,
        RED,
        YELLOW,
        0,
        0,
        -WIN_SCORE - 1,
        WIN_SCORE + 1,
    );
    assert_eq!(value, default_heuristic(&board, RED, YELLOW));

    let mut basic = GameTreePlayer::new(MinimalEvaluator, 0, "Basic");
    let value2 = basic.expectiminimax(
        &board,
        YELLOW,
        RED,
        YELLOW,
        0,
        0,
        -WIN_SCORE - 1,
        WIN_SCORE + 1,
    );
    assert_eq!(value2, minimal_heuristic(&board, RED, YELLOW));
    assert_eq!(value2, MinimalEvaluator.evaluate(&board, RED, YELLOW));
}

#[test]
fn pruned_search_equals_full_expansion() {
    let mut board = Board::new(RED, YELLOW);
    board.tiles[5] = Some(RED);
    board.tiles[10] = Some(RED);
    board.home_bases[RED as usize].pieces_waiting = 2;
    board.tiles[13] = Some(YELLOW);
    board.home_bases[YELLOW as usize].pieces_waiting = 3;
    board.update_piece_cache();

    for depth in [1u8, 2u8] {
        let mut pruned = expectiminimax(depth);
        let mut full = expectiminimax(depth).without_pruning();
        let a = pruned.expectiminimax(
            &board,
            RED,
            RED,
            YELLOW,
            depth,
            0,
            -WIN_SCORE - 1,
            WIN_SCORE + 1,
        );
        let b = full.expectiminimax(
            &board,
            RED,
            RED,
            YELLOW,
            depth,
            0,
            -WIN_SCORE - 1,
            WIN_SCORE + 1,
        );
        assert_eq!(a, b, "depth {}", depth);
    }
}

#[test]
fn cache_keeps_the_deeper_entry() {
    let mut cache = TranspositionTable::new();
    let board = Board::new(RED, YELLOW);
    let h = get_board_hash(&board, RED, false);

    cache.insert_if_better(h, 10, 3);
    assert_eq!(cache.get(h, 2), Some(10));
    assert_eq!(cache.get(h, 3), Some(10));
    // A lookup needing more depth than recorded finds nothing.
    assert_eq!(cache.get(h, 4), None);

    // A shallower store attempt changes neither value nor depth.
    cache.insert_if_better(h, 99, 1);
    assert_eq!(cache.get(h, 2), Some(10));
    assert_eq!(cache.get(h, 4), None);

    // A deeper store overwrites.
    cache.insert_if_better(h, 77, 5);
    assert_eq!(cache.get(h, 5), Some(77));
}

#[test]
fn board_hash_is_a_function_of_the_position() {
    let mut a = Board::new(RED, YELLOW);
    a.tiles[5] = Some(RED);
    a.home_bases[RED as usize].pieces_waiting = 3;
    a.update_piece_cache();

    let mut b = Board::new(RED, YELLOW);
    b.tiles[5] = Some(RED);
    b.home_bases[RED as usize].pieces_waiting = 3;
    b.update_piece_cache();

    assert_eq!(get_board_hash(&a, RED, false), get_board_hash(&b, RED, false));
    // However the position was reached, the hash only reads the content.
    assert_eq!(get_board_hash(&a, RED, false), get_board_hash(&a, YELLOW, false));

    // The optional side-to-move bit separates the two movers.
    assert_ne!(
        get_board_hash(&a, YELLOW, true),
        get_board_hash(&a, RED, true)
    );

    b.tiles[5] = None;
    b.tiles[6] = Some(RED);
    b.update_piece_cache();
    assert_ne!(get_board_hash(&a, RED, false), get_board_hash(&b, RED, false));
}

#[test]
fn score_move_values() {
    assert_eq!(score_move(&StruggleMove::AddNewPiece { eats: true }), 150);
    assert_eq!(score_move(&StruggleMove::AddNewPiece { eats: false }), 50);
    assert_eq!(
        score_move(&StruggleMove::MovePiece {
            from: 0,
            to: 5,
            eats: true
        }),
        100
    );
    assert_eq!(
        score_move(&StruggleMove::MovePiece {
            from: 0,
            to: 5,
            eats: false
        }),
        1
    );
    assert_eq!(
        score_move(&StruggleMove::MoveToGoal {
            from_board: 27,
            to_goal: 0
        }),
        10
    );
    assert_eq!(
        score_move(&StruggleMove::MoveInGoal {
            from_goal: 0,
            to_goal: 1
        }),
        1
    );
    assert_eq!(score_move(&StruggleMove::SkipTurn), 0);
}

#[test]
fn minimal_heuristic_counts_pieces() {
    let mut board = Board::new(RED, YELLOW);
    board.tiles[27] = Some(RED);
    board.home_bases[RED as usize].pieces_waiting = 3;
    board.tiles[13] = Some(YELLOW);
    board.home_bases[YELLOW as usize].pieces_waiting = 3;
    board.update_piece_cache();

    // One own ring piece, one enemy ring piece.
    assert_eq!(minimal_heuristic(&board, RED, YELLOW), 1 - 10);
    assert_eq!(minimal_heuristic(&board, YELLOW, RED), 1 - 10);
}

#[test]
fn default_heuristic_returns_the_win_sentinels() {
    let mut board = Board::new(RED, YELLOW);
    for s in 0..4 {
        board.goals[RED as usize][s] = Some(RED);
    }
    board.home_bases[RED as usize].pieces_waiting = 0;
    board.update_piece_cache();

    assert_eq!(default_heuristic(&board, RED, YELLOW), WIN_SCORE);
    assert_eq!(default_heuristic(&board, YELLOW, RED), -WIN_SCORE);
}

#[test]
fn mobility_of_the_opening_position() {
    let board = Board::new(RED, YELLOW);
    // Five faces allow only the skip sentinel; the maximum face allows
    // exactly the entry move.
    assert_eq!(count_moves_heuristic(&board, RED, YELLOW), 6);
}

#[test]
fn eater_prefers_the_capture() {
    let mut board = Board::new(RED, YELLOW);
    board.tiles[0] = Some(RED);
    board.tiles[2] = Some(RED);
    board.home_bases[RED as usize].pieces_waiting = 2;
    board.tiles[3] = Some(YELLOW);
    board.home_bases[YELLOW as usize].pieces_waiting = 3;
    board.update_piece_cache();

    let ctx = GameContext {
        current_player: RED,
        other_player: YELLOW,
        dice: 1,
    };
    let moves = board.get_moves(1, RED, YELLOW);
    assert!(moves.len() >= 2);
    let mut eater = RandomEaterPlayer;
    let idx = eater.select_move(&ctx, &board, &moves, &mut rng());
    assert!(moves[idx].eats());

    let mut best = ScoreMovePlayer;
    let idx2 = best.select_move(&ctx, &board, &moves, &mut rng());
    assert!(moves[idx2].eats());

    let mut anyone = RandomPlayer;
    let idx3 = anyone.select_move(&ctx, &board, &moves, &mut rng());
    assert!(idx3 < moves.len());
}

#[test]
fn search_player_enters_the_goal() {
    // The lone legal move is returned without any search.
    let mut board = Board::new(RED, YELLOW);
    board.tiles[27] = Some(RED);
    board.home_bases[RED as usize].pieces_waiting = 3;
    board.update_piece_cache();

    let ctx = GameContext {
        current_player: RED,
        other_player: YELLOW,
        dice: 1,
    };
    let moves = board.get_moves(1, RED, YELLOW);
    assert_eq!(moves.len(), 1);
    let mut player = expectiminimax(2);
    let idx = player.select_move(&ctx, &board, &moves, &mut rng());
    assert_eq!(idx, 0);
    assert_eq!(player.name(), "Expectiminimax");
    let mut worst = worst_expectiminimax(1);
    let idx2 = worst.select_move(&ctx, &board, &moves, &mut rng());
    assert_eq!(idx2, 0);
}

#[test]
fn turn_results_follow_the_die_and_the_winner() {
    let mut board = Board::new(RED, YELLOW);
    assert_eq!(next_turn_result(&board, YELLOW, 3), TurnResult::PassTo(YELLOW));
    assert_eq!(
        next_turn_result(&board, YELLOW, 6),
        TurnResult::<PlayerColor>::PlayAgain
    );

    for s in 0..4 {
        board.goals[RED as usize][s] = Some(RED);
    }
    board.home_bases[RED as usize].pieces_waiting = 0;
    board.update_piece_cache();
    assert_eq!(
        next_turn_result(&board, YELLOW, 3),
        TurnResult::EndGame { winner: RED }
    );
}

#[test]
fn home_base_bookkeeping() {
    let mut home = HomeBase::new();
    assert_eq!(home.pieces_waiting, 4);
    assert!(home.can_add_piece());
    assert_eq!(home.remove_piece(), Some(()));
    assert_eq!(home.pieces_waiting, 3);
    home.add_piece();
    assert_eq!(home.pieces_waiting, 4);

    let mut empty = HomeBase { pieces_waiting: 0 };
    assert_eq!(empty.remove_piece(), None);
    assert!(!empty.can_add_piece());
}

#[test]
fn piece_position_board_index() {
    assert_eq!(PiecePosition::Board(12).as_board_index(), Some(12));
    assert_eq!(PiecePosition::Goal(2).as_board_index(), None);
}

#[test]
fn rotation_steps_and_offsets() {
    assert_eq!(TwistRotation::Initial.next(), TwistRotation::Ccw90);
    assert_eq!(TwistRotation::Ccw90.next(), TwistRotation::Ccw180);
    assert_eq!(TwistRotation::Ccw180.next(), TwistRotation::Ccw270);
    assert_eq!(TwistRotation::Ccw270.next(), TwistRotation::Initial);
    assert_eq!(TwistRotation::Initial.to_offset(), 0);
    assert_eq!(TwistRotation::Ccw90.to_offset(), 24);
    assert_eq!(TwistRotation::Ccw180.to_offset(), 16);
    assert_eq!(TwistRotation::Ccw270.to_offset(), 8);
}

#[test]
fn ai_player_carries_its_color() {
    let p = AiStrugglePlayer::new(YELLOW, RandomPlayer);
    assert_eq!(p.color(), YELLOW);
}

use struggle_core::eval::{
    maximize_length_heuristic, one_at_a_time_heuristic, DefaultEvaluator, HomeCountEvaluator,
    LengthEvaluator,
};
use struggle_core::players::{DilutedPlayer, RandomDietPlayer, WorstScoreMovePlayer};
use struggle_core::search::{
    maximize_length_expectiminimax, maximize_options, minimize_options, one_at_a_time,
    one_at_a_time_deluxe, participation_trophy, stateful_get_it_over_with,
};

#[test]
fn pruned_search_equals_full_expansion_with_captures() {
    let mut board = Board::new(RED, YELLOW);
    board.tiles[3] = Some(RED);
    board.tiles[20] = Some(RED);
    board.home_bases[RED as usize].pieces_waiting = 2;
    board.tiles[6] = Some(YELLOW);
    board.tiles[22] = Some(YELLOW);
    board.home_bases[YELLOW as usize].pieces_waiting = 2;
    board.update_piece_cache();

    for depth in [1u8, 2u8] {
        let mut pruned = expectiminimax(depth);
        let mut full = expectiminimax(depth).without_pruning();
        let a = pruned.expectiminimax(
            &board,
            YELLOW,
            RED,
            YELLOW,
            depth,
            0,
            -WIN_SCORE - 1,
            WIN_SCORE + 1,
        );
        let b = full.expectiminimax(
            &board,
            YELLOW,
            RED,
            YELLOW,
            depth,
            0,
            -WIN_SCORE - 1,
            WIN_SCORE + 1,
        );
        assert_eq!(a, b, "depth {}", depth);
    }
}

#[test]
fn cached_search_repeats_its_answer() {
    let mut board = Board::new(RED, YELLOW);
    board.tiles[5] = Some(RED);
    board.home_bases[RED as usize].pieces_waiting = 3;
    board.update_piece_cache();

    let mut cached = expectiminimax(1).with_cache();
    let first = cached.expectiminimax(
        &board,
        RED,
        RED,
        YELLOW,
        1,
        0,
        -WIN_SCORE - 1,
        WIN_SCORE + 1,
    );
    let second = cached.expectiminimax(
        &board,
        RED,
        RED,
        YELLOW,
        1,
        0,
        -WIN_SCORE - 1,
        WIN_SCORE + 1,
    );
    assert_eq!(first, second);
    assert!(cached.total_evaluations() > 0);
    cached.reset();
    assert_eq!(cached.total_evaluations(), 0);
}

#[test]
fn strategy_evaluators_give_their_documented_scores() {
    let mut board = Board::new(RED, YELLOW);
    board.tiles[5] = Some(RED);
    board.home_bases[RED as usize].pieces_waiting = 3;
    board.update_piece_cache();

    // Home-count strategies read the waiting count directly.
    assert_eq!(
        HomeCountEvaluator { negate: true }.evaluate(&board, RED, YELLOW),
        -3
    );
    assert_eq!(
        HomeCountEvaluator { negate: false }.evaluate(&board, RED, YELLOW),
        3
    );

    // The game-stretching score of the fresh board is just the waiting
    // penalty of both sides.
    let fresh = Board::new(RED, YELLOW);
    assert_eq!(maximize_length_heuristic(&fresh), -16);
    assert_eq!(LengthEvaluator.evaluate(&fresh, RED, YELLOW), -16);

    // One piece on the ring, nothing else: the one-at-a-time score of the
    // mover counts no goal piece and no crowding.
    assert_eq!(one_at_a_time_heuristic(&board, RED, YELLOW), 0);

    // Negation turns the best strategy into the worst.
    let d = DefaultEvaluator.evaluate(&board, RED, YELLOW);
    assert_eq!(
        struggle_core::eval::NegatedEvaluator(DefaultEvaluator).evaluate(&board, RED, YELLOW),
        -d
    );
}

#[test]
fn factory_players_pick_an_offered_move() {
    let mut board = Board::new(RED, YELLOW);
    board.tiles[0] = Some(RED);
    board.tiles[4] = Some(RED);
    board.home_bases[RED as usize].pieces_waiting = 2;
    board.tiles[9] = Some(YELLOW);
    board.home_bases[YELLOW as usize].pieces_waiting = 3;
    board.update_piece_cache();

    let ctx = GameContext {
        current_player: RED,
        other_player: YELLOW,
        dice: 2,
    };
    let moves = board.get_moves(2, RED, YELLOW);
    let mut r = rng();

    assert!(participation_trophy(1).select_move(&ctx, &board, &moves, &mut r) < moves.len());
    assert!(one_at_a_time(1).select_move(&ctx, &board, &moves, &mut r) < moves.len());
    assert!(one_at_a_time_deluxe(1).select_move(&ctx, &board, &moves, &mut r) < moves.len());
    assert!(maximize_options(1).select_move(&ctx, &board, &moves, &mut r) < moves.len());
    assert!(minimize_options(1).select_move(&ctx, &board, &moves, &mut r) < moves.len());
    assert!(
        maximize_length_expectiminimax(1).select_move(&ctx, &board, &moves, &mut r) < moves.len()
    );
    assert!(stateful_get_it_over_with(1).select_move(&ctx, &board, &moves, &mut r) < moves.len());
    assert!(
        DilutedPlayer(RandomPlayer, 500).select_move(&ctx, &board, &moves, &mut r) < moves.len()
    );

    let mut diet = RandomDietPlayer;
    let idx = diet.select_move(&ctx, &board, &moves, &mut r);
    assert!(!moves[idx].eats());

    let mut worst = WorstScoreMovePlayer;
    let idx2 = worst.select_move(&ctx, &board, &moves, &mut r);
    for m in &moves {
        assert!(score_move(&moves[idx2]) <= score_move(m));
    }
}

#[test]
fn unpruned_root_selection_is_an_argmax() {
    // Two candidates: entering the goal clearly beats shuffling along.
    let mut board = Board::new(RED, YELLOW);
    board.tiles[26] = Some(RED);
    board.tiles[5] = Some(RED);
    board.home_bases[RED as usize].pieces_waiting = 2;
    board.tiles[13] = Some(YELLOW);
    board.home_bases[YELLOW as usize].pieces_waiting = 3;
    board.update_piece_cache();

    let ctx = GameContext {
        current_player: RED,
        other_player: YELLOW,
        dice: 2,
    };
    let moves = board.get_moves(2, RED, YELLOW);
    assert!(moves.len() >= 2);

    let mut player = expectiminimax(1).without_pruning();
    let idx = player.select_move(&ctx, &board, &moves, &mut rng());

    // Recompute every candidate's root score and check the choice tops them.
    let mut best = i64::MIN;
    let mut scores = Vec::new();
    for m in &moves {
        let after = board.with_move(RED, m);
        let score = if after.get_winner().is_some() {
            WIN_SCORE
        } else {
            let mut probe = expectiminimax(1).without_pruning();
            probe.expectiminimax(&after, YELLOW, RED, YELLOW, 1, 0, -WIN_SCORE - 1, WIN_SCORE + 1)
        };
        best = best.max(score);
        scores.push(score);
    }
    assert_eq!(scores[idx], best);
}

#[test]
fn single_candidate_skips_the_search() {
    let mut board = Board::new(RED, YELLOW);
    board.tiles[27] = Some(RED);
    board.home_bases[RED as usize].pieces_waiting = 3;
    board.update_piece_cache();

    let ctx = GameContext {
        current_player: RED,
        other_player: YELLOW,
        dice: 1,
    };
    let moves = board.get_moves(1, RED, YELLOW);
    assert_eq!(moves.len(), 1);
    let mut player = expectiminimax(3);
    let idx = player.select_move(&ctx, &board, &moves, &mut rng());
    assert_eq!(idx, 0);
    assert_eq!(player.total_evaluations(), 0);
}
