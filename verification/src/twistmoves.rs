use vstd::prelude::*;

use crate::board::{BoardCell, PiecePosition};
use crate::color::PlayerColor;
use crate::seqcount::{color_count, lemma_color_count_extend, lemma_seq_push_contains};
use crate::twistboard::{
    ActionDie, ActionDieMove, DieResult, MoveFrom, NumberDieMove, SpinSection, TwistBoard,
    TwistMove,
};

verus! {

broadcast use lemma_seq_push_contains;

/// Whether reversing arc `sec` would leave the ring exactly as it is.
pub open spec fn spin_nop(b: TwistBoard, sec: SpinSection) -> bool {
    forall|j: int|
        0 <= j < 5 ==> #[trigger] b.tiles@[sec.spec_start() + j] == b.tiles@[sec.spec_start() + 4
            - j]
}

/// The ring step onto cell `to`, if any: an empty cell yields a silent step,
/// an opposing piece a capture, an own piece nothing.
pub open spec fn step_move(b: TwistBoard, player: PlayerColor, from: MoveFrom, to: int) -> Option<
    NumberDieMove,
> {
    match b.tiles@[to] {
        None => Some(NumberDieMove::MovePiece { from, to: to as u8, eats: false }),
        Some(c) => if c != player {
            Some(NumberDieMove::MovePiece { from, to: to as u8, eats: true })
        } else {
            None::<NumberDieMove>
        },
    }
}

/// The deepest free slot of `goal` strictly below `m`, if any.
pub open spec fn deepest_free(goal: Seq<BoardCell>, m: int) -> Option<int>
    decreases m,
{
    if m <= 0 {
        None::<int>
    } else if goal[m - 1] is None {
        Some(m - 1)
    } else {
        deepest_free(goal, m - 1)
    }
}

/// Steps a piece may walk into the goal track: at most its depth.
pub open spec fn min3(x: int) -> int {
    if x >= 3 {
        3
    } else {
        x
    }
}

/// The number-die sub-move of the piece of `player` at ring cell `pos`: a
/// step towards or past the goal entrance enters the deepest reachable free
/// goal slot; anything else is a plain ring step.
pub open spec fn t_piece_move(b: TwistBoard, player: PlayerColor, dice_num: int, pos: u8) -> Option<
    NumberDieMove,
> {
    let to = (pos as int + dice_num) % 32;
    let d = TwistBoard::cw_dist(pos as int, TwistBoard::entrance_of(b.rotation, player));
    if dice_num >= d {
        let m = min3(dice_num - d);
        if m == 0 {
            step_move(b, player, MoveFrom::Board(pos), to)
        } else {
            match deepest_free(b.goal_of(player), m) {
                Some(j) => Some(NumberDieMove::MoveToGoal { from_board: pos, to_goal: j as u8 }),
                None => None::<NumberDieMove>,
            }
        }
    } else {
        step_move(b, player, MoveFrom::Board(pos), to)
    }
}

/// The home-entry sub-move, if the entry rule allows one: any face when the
/// mover has no ring piece, otherwise only the maximum face.
pub open spec fn t_entry_move(b: TwistBoard, player: PlayerColor, dice_num: int) -> Option<
    NumberDieMove,
> {
    if (color_count(b.tiles@, player) == 0 || dice_num == 6) && b.waiting(player) > 0 {
        step_move(b, player, MoveFrom::Home, TwistBoard::start_of(player))
    } else {
        None::<NumberDieMove>
    }
}

/// A number-die sub-move is legal exactly when it ignores the die, the entry
/// rule produces it, or one of the mover's ring pieces produces it.
pub open spec fn number_move_ok(
    b: TwistBoard,
    player: PlayerColor,
    dice_num: int,
    nm: NumberDieMove,
) -> bool {
    ||| nm == NumberDieMove::DoNothing
    ||| t_entry_move(b, player, dice_num) == Some(nm)
    ||| exists|i: int|
        0 <= i < 32 && #[trigger] b.tiles@[i] == Some(player) && t_piece_move(
            b,
            player,
            dice_num,
            i as u8,
        ) == Some(nm)
}

/// An action-die sub-move is legal exactly when its die face shows and, for
/// an arc spin, the spin would change the board.
pub open spec fn action_submove_ok(b: TwistBoard, action: ActionDie, am: ActionDieMove) -> bool {
    match am {
        ActionDieMove::DoNothing => true,
        ActionDieMove::SpinSection(sec) => action == ActionDie::SpinSection && !spin_nop(b, sec),
        ActionDieMove::RotateBoard => action == ActionDie::RotateBoard,
    }
}

/// A move of the rotating variant is legal exactly when both halves are.
pub open spec fn twist_move_ok(
    b: TwistBoard,
    player: PlayerColor,
    dice: DieResult,
    m: TwistMove,
) -> bool {
    number_move_ok(b, player, dice.number as int, m.0) && action_submove_ok(b, dice.action, m.1)
}

/// The number-die sub-move of one cached piece: ring pieces may act, goal
/// pieces of the rotating variant never move again.
pub open spec fn cache_piece_move(
    b: TwistBoard,
    player: PlayerColor,
    dice_num: int,
    p: PiecePosition,
) -> Option<NumberDieMove> {
    match p {
        PiecePosition::Board(pos) => t_piece_move(b, player, dice_num, pos),
        PiecePosition::Goal(_) => None::<NumberDieMove>,
    }
}

/// The ring piece a number-die sub-move acts on, when it moves one.
pub open spec fn n_src(nm: NumberDieMove) -> Option<u8> {
    match nm {
        NumberDieMove::MovePiece { from: MoveFrom::Board(pos), .. } => Some(pos),
        NumberDieMove::MoveToGoal { from_board, .. } => Some(from_board),
        _ => None::<u8>,
    }
}

/// A sub-move produced by a cached piece names that piece's ring cell.
proof fn lemma_cache_piece_move_src(
    b: TwistBoard,
    player: PlayerColor,
    dice_num: int,
    p: PiecePosition,
    nm: NumberDieMove,
)
    requires
        cache_piece_move(b, player, dice_num, p) == Some(nm),
    ensures
        p matches PiecePosition::Board(pos) && n_src(nm) == Some(pos),
{
}

/// Facts about the deepest free slot below `m`.
proof fn lemma_deepest_free(goal: Seq<BoardCell>, m: int)
    requires
        0 <= m,
    ensures
        match deepest_free(goal, m) {
            Some(j) => 0 <= j < m && goal[j] is None,
            None => forall|j: int| 0 <= j < m ==> (#[trigger] goal[j]) is Some,
        },
    decreases m,
{
    if m > 0 && !(goal[m - 1] is None) {
        lemma_deepest_free(goal, m - 1);
    }
}

/// The freshly produced sub-move of piece `plist[k]` is not yet in `list`,
/// which holds only the entry sub-move and sub-moves of earlier pieces.
proof fn lemma_fresh_number_move(
    b: TwistBoard,
    player: PlayerColor,
    dice_num: int,
    plist: Seq<PiecePosition>,
    k: int,
    list: Seq<NumberDieMove>,
    nm: NumberDieMove,
)
    requires
        forall|k1: int, k2: int| 0 <= k1 < k2 < plist.len() ==> plist[k1].key() < plist[k2].key(),
        0 <= k < plist.len(),
        cache_piece_move(b, player, dice_num, plist[k]) == Some(nm),
        forall|mm: NumberDieMove|
            #[trigger] list.contains(mm) <==> (t_entry_move(b, player, dice_num) == Some(mm)
                || exists|k2: int|
                0 <= k2 < k && cache_piece_move(b, player, dice_num, #[trigger] plist[k2]) == Some(
                    mm,
                )),
    ensures
        !list.contains(nm),
{
    lemma_cache_piece_move_src(b, player, dice_num, plist[k], nm);
    if list.contains(nm) {
        if t_entry_move(b, player, dice_num) == Some(nm) {
            assert(n_src(nm) is None);
        } else {
            let k2 = choose|k2: int|
                0 <= k2 < k && cache_piece_move(b, player, dice_num, #[trigger] plist[k2]) == Some(
                    nm,
                );
            lemma_cache_piece_move_src(b, player, dice_num, plist[k2], nm);
            assert(plist[k2].key() < plist[k].key());
        }
    }
}

/// Every legal move of the rotating variant can be applied to the board it
/// was generated from.
pub proof fn lemma_twist_move_ok_applicable(
    b: TwistBoard,
    player: PlayerColor,
    dice: DieResult,
    m: TwistMove,
)
    requires
        b.wf(),
        1 <= dice.number <= 6,
        twist_move_ok(b, player, dice, m),
    ensures
        crate::twistboard::twist_applicable(b, player, m),
{
    let dn = dice.number as int;
    if m.0 == NumberDieMove::DoNothing {
    } else if t_entry_move(b, player, dn) == Some(m.0) {
    } else {
        let i = choose|i: int|
            0 <= i < 32 && #[trigger] b.tiles@[i] == Some(player) && t_piece_move(
                b,
                player,
                dn,
                i as u8,
            ) == Some(m.0);
        assert((i + dn) % 32 != i && 0 <= (i + dn) % 32 < 32);
        let d = TwistBoard::cw_dist(i, TwistBoard::entrance_of(b.rotation, player));
        if dn >= d && min3(dn - d) > 0 {
            lemma_deepest_free(b.goal_of(player), min3(dn - d));
        }
    }
}

/// Whether reversing an arc would change nothing: its cells read the same
/// both ways round.
pub fn spin_is_nop(board: &TwistBoard, spin_section: SpinSection) -> (r: bool)
    requires
        board.lens_ok(),
    ensures
        r == spin_nop(*board, spin_section),
{
    let range = TwistBoard::get_spin_section_range(spin_section);
    let a = range.0;
    board.tiles[a] == board.tiles[a + 4] && board.tiles[a + 1] == board.tiles[a + 3]
}

/// The ring step of `player` onto `to_pos`, if the target cell allows one.
fn create_move_to_pos(board: &TwistBoard, player: PlayerColor, from: MoveFrom, to_pos: u8) -> (r:
    Option<NumberDieMove>)
    requires
        board.lens_ok(),
        to_pos < 32,
    ensures
        r == step_move(*board, player, from, to_pos as int),
{
    match board.tiles[to_pos as usize] {
        None => Some(NumberDieMove::MovePiece { from, to: to_pos, eats: false }),
        Some(target_player) => {
            if target_player != player {
                Some(NumberDieMove::MovePiece { from, to: to_pos, eats: true })
            } else {
                None
            }
        },
    }
}

/// Table position of an arc.
pub open spec fn sec_index(s: SpinSection) -> int {
    match s {
        SpinSection::RedToBlue => 0,
        SpinSection::BlueToYellow => 1,
        SpinSection::YellowToGreen => 2,
        SpinSection::GreenToRed => 3,
    }
}

/// The arc at table position `i`; inverse of [`sec_index`].
fn section_from_index(i: usize) -> (r: SpinSection)
    requires
        i < 4,
    ensures
        sec_index(r) == i,
{
    if i == 0 {
        SpinSection::RedToBlue
    } else if i == 1 {
        SpinSection::BlueToYellow
    } else if i == 2 {
        SpinSection::YellowToGreen
    } else {
        SpinSection::GreenToRed
    }
}

/// All legal number-die sub-moves of `player` for `dice_num`: exhaustive and
/// free of duplicates; ignoring the die is always among them.
#[verifier::rlimit(100)]
fn get_number_moves(board: &TwistBoard, dice_num: u8, player: PlayerColor) -> (r: Vec<
    NumberDieMove,
>)
    requires
        board.wf(),
        1 <= dice_num <= 6,
        board.is_player(player),
    ensures
        r@.len() >= 1,
        forall|k1: int, k2: int| 0 <= k1 < k2 < r@.len() ==> r@[k1] != r@[k2],
        forall|nm: NumberDieMove|
            #[trigger] r@.contains(nm) <==> number_move_ok(*board, player, dice_num as int, nm),
{
    let mut number_die_moves: Vec<NumberDieMove> = Vec::new();
    let player_start = TwistBoard::get_start(player);

    let mut pieces_on_board: u8 = 0;
    let mut i: usize = 0;
    while i < 32
        invariant
            board.wf(),
            i <= 32,
            pieces_on_board == color_count(board.tiles@.subrange(0, i as int), player),
            pieces_on_board <= i,
        decreases 32 - i,
    {
        proof {
            lemma_color_count_extend(board.tiles@, player, i as int);
        }
        match board.tiles[i] {
            Some(c) => {
                if c == player {
                    pieces_on_board = pieces_on_board + 1;
                }
            },
            None => {},
        }
        i = i + 1;
    }
    proof {
        assert(board.tiles@.subrange(0, 32) =~= board.tiles@);
    }

    if (pieces_on_board == 0 || dice_num == 6) && board.home_bases[player.index()].pieces_waiting
        > 0 {
        match create_move_to_pos(board, player, MoveFrom::Home, player_start) {
            Some(mov) => {
                number_die_moves.push(mov);
            },
            None => {},
        }
    }
    assert(forall|nm: NumberDieMove|
        #[trigger] number_die_moves@.contains(nm) <==> t_entry_move(
            *board,
            player,
            dice_num as int,
        ) == Some(nm));

    let pieces = if player == board.players.0 {
        &board.piece_cache.0
    } else {
        &board.piece_cache.1
    };
    assert(board.lists_pieces(player, pieces@));

    let mut k: usize = 0;
    while k < pieces.len()
        invariant
            board.wf(),
            1 <= dice_num <= 6,
            board.is_player(player),
            board.lists_pieces(player, pieces@),
            k <= pieces@.len(),
            forall|k1: int, k2: int|
                0 <= k1 < k2 < number_die_moves@.len() ==> number_die_moves@[k1]
                    != number_die_moves@[k2],
            forall|nm: NumberDieMove|
                #[trigger] number_die_moves@.contains(nm) <==> (t_entry_move(
                    *board,
                    player,
                    dice_num as int,
                ) == Some(nm) || exists|k2: int|
                    0 <= k2 < k && cache_piece_move(
                        *board,
                        player,
                        dice_num as int,
                        #[trigger] pieces@[k2],
                    ) == Some(nm)),
        decreases pieces@.len() - k,
    {
        let ghost prev_list = number_die_moves@;
        match pieces[k] {
            PiecePosition::Goal(_) => {
                proof {
                    assert(cache_piece_move(*board, player, dice_num as int, pieces@[k as int])
                        is None);
                }
            },
            PiecePosition::Board(current_pos) => {
                let new_pos = (current_pos + dice_num) % 32;
                let distance_to_goal = board.distance_to_goal(player, current_pos);

                if dice_num >= distance_to_goal {
                    let gap = dice_num - distance_to_goal;
                    let movement_after_goal_entrance: u8 = if gap > 3 {
                        3
                    } else {
                        gap
                    };
                    if movement_after_goal_entrance == 0 {
                        match create_move_to_pos(
                            board,
                            player,
                            MoveFrom::Board(current_pos),
                            new_pos,
                        ) {
                            Some(mov) => {
                                proof {
                                    assert(cache_piece_move(
                                        *board,
                                        player,
                                        dice_num as int,
                                        pieces@[k as int],
                                    ) == Some(mov));
                                    lemma_fresh_number_move(
                                        *board,
                                        player,
                                        dice_num as int,
                                        pieces@,
                                        k as int,
                                        prev_list,
                                        mov,
                                    );
                                }
                                number_die_moves.push(mov);
                            },
                            None => {},
                        }
                    } else {
                        let track = &board.goals[player.index()];
                        let ghost m_depth = movement_after_goal_entrance as int;
                        let mut jj: u8 = movement_after_goal_entrance;
                        let mut found = false;
                        while jj > 0 && !found
                            invariant
                                board.wf(),
                                board.is_player(player),
                                track@ == board.goal_of(player),
                                0 <= jj <= m_depth,
                                m_depth <= 3,
                                !found ==> deepest_free(board.goal_of(player), m_depth)
                                    == deepest_free(board.goal_of(player), jj as int),
                                found ==> deepest_free(board.goal_of(player), m_depth) == Some(
                                    jj as int,
                                ),
                            decreases jj, (if found { 0int } else { 1int }),
                        {
                            if track[(jj - 1) as usize].is_none() {
                                found = true;
                                jj = jj - 1;
                            } else {
                                jj = jj - 1;
                            }
                        }
                        if found {
                            let mov = NumberDieMove::MoveToGoal {
                                from_board: current_pos,
                                to_goal: jj,
                            };
                            proof {
                                assert(cache_piece_move(
                                    *board,
                                    player,
                                    dice_num as int,
                                    pieces@[k as int],
                                ) == Some(mov));
                                lemma_fresh_number_move(
                                    *board,
                                    player,
                                    dice_num as int,
                                    pieces@,
                                    k as int,
                                    prev_list,
                                    mov,
                                );
                            }
                            number_die_moves.push(mov);
                        } else {
                            proof {
                                assert(deepest_free(board.goal_of(player), m_depth) is None);
                                assert(cache_piece_move(
                                    *board,
                                    player,
                                    dice_num as int,
                                    pieces@[k as int],
                                ) is None);
                            }
                        }
                    }
                } else {
                    match create_move_to_pos(board, player, MoveFrom::Board(current_pos), new_pos) {
                        Some(mov) => {
                            proof {
                                assert(cache_piece_move(
                                    *board,
                                    player,
                                    dice_num as int,
                                    pieces@[k as int],
                                ) == Some(mov));
                                lemma_fresh_number_move(
                                    *board,
                                    player,
                                    dice_num as int,
                                    pieces@,
                                    k as int,
                                    prev_list,
                                    mov,
                                );
                            }
                            number_die_moves.push(mov);
                        },
                        None => {},
                    }
                }
            },
        }
        k = k + 1;
    }

    proof {
        assert(!number_die_moves@.contains(NumberDieMove::DoNothing)) by {
            if number_die_moves@.contains(NumberDieMove::DoNothing) {
                if t_entry_move(*board, player, dice_num as int) == Some(NumberDieMove::DoNothing) {
                } else {
                    let k2 = choose|k2: int|
                        0 <= k2 < pieces@.len() && cache_piece_move(
                            *board,
                            player,
                            dice_num as int,
                            #[trigger] pieces@[k2],
                        ) == Some(NumberDieMove::DoNothing);
                    lemma_cache_piece_move_src(
                        *board,
                        player,
                        dice_num as int,
                        pieces@[k2],
                        NumberDieMove::DoNothing,
                    );
                }
            }
        }
    }
    number_die_moves.push(NumberDieMove::DoNothing);

    proof {
        assert forall|nm: NumberDieMove| #[trigger]
            number_die_moves@.contains(nm) implies number_move_ok(
            *board,
            player,
            dice_num as int,
            nm,
        ) by {
            if nm != NumberDieMove::DoNothing && t_entry_move(*board, player, dice_num as int)
                != Some(nm) {
                let k2 = choose|k2: int|
                    0 <= k2 < pieces@.len() && cache_piece_move(
                        *board,
                        player,
                        dice_num as int,
                        #[trigger] pieces@[k2],
                    ) == Some(nm);
                match pieces@[k2] {
                    PiecePosition::Board(i2) => {
                        assert(board.tiles@[i2 as int] == Some(player));
                    },
                    PiecePosition::Goal(_) => {},
                }
            }
        }
        assert forall|nm: NumberDieMove|
            number_move_ok(*board, player, dice_num as int, nm) implies #[trigger]
        number_die_moves@.contains(nm) by {
            if nm == NumberDieMove::DoNothing {
                assert(number_die_moves@[number_die_moves@.len() - 1] == nm);
            } else if t_entry_move(*board, player, dice_num as int) == Some(nm) {
            } else {
                let i = choose|i: int|
                    0 <= i < 32 && #[trigger] board.tiles@[i] == Some(player) && t_piece_move(
                        *board,
                        player,
                        dice_num as int,
                        i as u8,
                    ) == Some(nm);
                assert(pieces@.contains(PiecePosition::Board(i as u8)));
                let k2 = choose|k2: int|
                    0 <= k2 < pieces@.len() && pieces@[k2] == PiecePosition::Board(i as u8);
                assert(cache_piece_move(*board, player, dice_num as int, pieces@[k2]) == Some(nm));
            }
        }
    }

    number_die_moves
}

/// All legal action-die sub-moves for the rolled action face: exhaustive and
/// free of duplicates; ignoring the die is always among them.
fn get_action_moves(board: &TwistBoard, action: ActionDie) -> (r: Vec<ActionDieMove>)
    requires
        board.lens_ok(),
    ensures
        r@.len() >= 1,
        forall|k1: int, k2: int| 0 <= k1 < k2 < r@.len() ==> r@[k1] != r@[k2],
        forall|am: ActionDieMove|
            #[trigger] r@.contains(am) <==> action_submove_ok(*board, action, am),
{
    let mut action_die_moves: Vec<ActionDieMove> = Vec::new();
    match action {
        ActionDie::SpinSection => {
            let mut si: usize = 0;
            while si < 4
                invariant
                    board.lens_ok(),
                    action == ActionDie::SpinSection,
                    si <= 4,
                    forall|k1: int, k2: int|
                        0 <= k1 < k2 < action_die_moves@.len() ==> action_die_moves@[k1]
                            != action_die_moves@[k2],
                    forall|am: ActionDieMove|
                        #[trigger] action_die_moves@.contains(am) <==> (am matches
                            ActionDieMove::SpinSection(sec) && sec_index(sec) < si && !spin_nop(
                            *board,
                            sec,
                        )),
                decreases 4 - si,
            {
                let ghost prev = action_die_moves@;
                let section = section_from_index(si);
                if !spin_is_nop(board, section) {
                    proof {
                        if prev.contains(ActionDieMove::SpinSection(section)) {
                            assert(sec_index(section) < si);
                        }
                    }
                    action_die_moves.push(ActionDieMove::SpinSection(section));
                }
                proof {
                    assert forall|am: ActionDieMove| #[trigger]
                        action_die_moves@.contains(am) implies (am matches
                        ActionDieMove::SpinSection(sec) && sec_index(sec) < si + 1 && !spin_nop(
                        *board,
                        sec,
                    )) by {}
                    assert forall|am: ActionDieMove|
                        (am matches ActionDieMove::SpinSection(sec) && sec_index(sec) < si + 1
                            && !spin_nop(*board, sec)) implies #[trigger]
                    action_die_moves@.contains(am) by {
                        match am {
                            ActionDieMove::SpinSection(sec) => {
                                if sec_index(sec) == si {
                                    assert(sec == section);
                                    assert(action_die_moves@[action_die_moves@.len() - 1] == am);
                                }
                            },
                            _ => {},
                        }
                    }
                }
                si = si + 1;
            }
        },
        ActionDie::RotateBoard => {
            action_die_moves.push(ActionDieMove::RotateBoard);
        },
        ActionDie::DoNothing => {},
    }
    proof {
        assert(!action_die_moves@.contains(ActionDieMove::DoNothing));
    }
    action_die_moves.push(ActionDieMove::DoNothing);
    proof {
        assert forall|am: ActionDieMove| #[trigger]
            action_die_moves@.contains(am) implies action_submove_ok(*board, action, am) by {}
        assert forall|am: ActionDieMove|
            action_submove_ok(*board, action, am) implies #[trigger] action_die_moves@.contains(
            am,
        ) by {
            match am {
                ActionDieMove::SpinSection(sec) => {
                    assert(0 <= sec_index(sec) < 4);
                },
                _ => {},
            }
        }
    }
    action_die_moves
}

/// All legal moves of `player` for the rolled dice pair: the cross product
/// of the legal number-die and action-die sub-moves, exhaustive, free of
/// duplicates, never empty (ignoring both dice is always legal).
#[verifier::rlimit(100)]
pub fn get_twist_moves(
    board: &TwistBoard,
    dice: DieResult,
    player: PlayerColor,
    enemy: PlayerColor,
) -> (r: Vec<TwistMove>)
    requires
        board.wf(),
        1 <= dice.number <= 6,
        board.is_player(player),
        board.is_player(enemy),
        player != enemy,
    ensures
        r@.len() >= 1,
        forall|k1: int, k2: int| 0 <= k1 < k2 < r@.len() ==> r@[k1] != r@[k2],
        forall|m: TwistMove| #[trigger] r@.contains(m) <==> twist_move_ok(*board, player, dice, m),
{
    let number_die_moves = get_number_moves(board, dice.number, player);
    let action_die_moves = get_action_moves(board, dice.action);

    let mut moves: Vec<TwistMove> = Vec::new();
    let mut ni: usize = 0;
    while ni < number_die_moves.len()
        invariant
            forall|k1: int, k2: int|
                0 <= k1 < k2 < number_die_moves@.len() ==> number_die_moves@[k1]
                    != number_die_moves@[k2],
            forall|k1: int, k2: int|
                0 <= k1 < k2 < action_die_moves@.len() ==> action_die_moves@[k1]
                    != action_die_moves@[k2],
            ni <= number_die_moves@.len(),
            forall|k1: int, k2: int| 0 <= k1 < k2 < moves@.len() ==> moves@[k1] != moves@[k2],
            forall|m: TwistMove|
                #[trigger] moves@.contains(m) <==> (exists|i2: int|
                    0 <= i2 < ni && number_die_moves@[i2] == m.0) && action_die_moves@.contains(
                    m.1,
                ),
        decreases number_die_moves@.len() - ni,
    {
        let number_die_move = number_die_moves[ni];
        let mut ai: usize = 0;
        while ai < action_die_moves.len()
            invariant
                forall|k1: int, k2: int|
                    0 <= k1 < k2 < number_die_moves@.len() ==> number_die_moves@[k1]
                        != number_die_moves@[k2],
                forall|k1: int, k2: int|
                    0 <= k1 < k2 < action_die_moves@.len() ==> action_die_moves@[k1]
                        != action_die_moves@[k2],
                ni < number_die_moves@.len(),
                number_die_move == number_die_moves@[ni as int],
                ai <= action_die_moves@.len(),
                forall|k1: int, k2: int| 0 <= k1 < k2 < moves@.len() ==> moves@[k1] != moves@[k2],
                forall|m: TwistMove|
                    #[trigger] moves@.contains(m) <==> ((exists|i2: int|
                        0 <= i2 < ni && number_die_moves@[i2] == m.0) && action_die_moves@.contains(
                        m.1,
                    )) || (m.0 == number_die_moves@[ni as int] && exists|j2: int|
                        0 <= j2 < ai && action_die_moves@[j2] == m.1),
            decreases action_die_moves@.len() - ai,
        {
            let m = TwistMove(number_die_move, action_die_moves[ai]);
            proof {
                if moves@.contains(m) {
                    if exists|i2: int| 0 <= i2 < ni && number_die_moves@[i2] == m.0 {
                        let i2 = choose|i2: int| 0 <= i2 < ni && number_die_moves@[i2] == m.0;
                        assert(number_die_moves@[i2] == number_die_moves@[ni as int]);
                        assert(false);
                    } else {
                        let j2 = choose|j2: int| 0 <= j2 < ai && action_die_moves@[j2] == m.1;
                        assert(action_die_moves@[j2] == action_die_moves@[ai as int]);
                        assert(false);
                    }
                }
                assert(action_die_moves@.contains(action_die_moves@[ai as int]));
            }
            moves.push(m);
            ai = ai + 1;
        }
        ni = ni + 1;
    }

    proof {
        assert forall|m: TwistMove| #[trigger]
            moves@.contains(m) <==> twist_move_ok(*board, player, dice, m) by {
            if moves@.contains(m) {
                let i2 = choose|i2: int|
                    0 <= i2 < number_die_moves@.len() && number_die_moves@[i2] == m.0;
                assert(number_die_moves@.contains(m.0));
            }
            if twist_move_ok(*board, player, dice, m) {
                assert(number_die_moves@.contains(m.0));
                let i2 = choose|i2: int|
                    0 <= i2 < number_die_moves@.len() && number_die_moves@[i2] == m.0;
            }
        }
        let all_pass = TwistMove(NumberDieMove::DoNothing, ActionDieMove::DoNothing);
        assert(twist_move_ok(*board, player, dice, all_pass));
        assert(moves@.contains(all_pass));
    }
    moves
}

} // verus!
