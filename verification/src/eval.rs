use vstd::prelude::*;

use crate::board::{side_pieces, spec_move_count, Board, PiecePosition};
use crate::color::PlayerColor;

verus! {

/// Sentinel score of a detected win; a loss scores its negation.  Far above
/// anything the heuristics below can accumulate.
pub const WIN_SCORE: i64 = 1_000_000_000;

/// Fixed-unit weights of the default heuristic.
const BASE_PIECE_SCORE: i64 = 550;

const ENEMY_HOME_PENALTY: i64 = 100;

const OWN_HOME_PENALTY: i64 = 100;

const AT_EATING_DISTANCE_BONUS: i64 = 100;

const BASE_PIECE_IN_GOAL_SCORE: i64 = 1000;

const CAN_ENTER_GOAL_BONUS: i64 = 20;

/// Advancement bonus of a ring piece at clockwise distance `d` from its goal
/// entrance: scales with the square of the advancement already made, so
/// pieces close to the goal are rewarded disproportionately.
pub open spec fn advance_bonus(d: int) -> int {
    ((28 - d) * (28 - d) * 200) / 784
}

/// Capture-proximity bonus of a piece at ring cell `pos` against the enemy
/// pieces `epieces[..n]`: a fixed credit for each enemy ring piece within
/// one roll clockwise.
pub open spec fn eat_bonus_upto(pos: int, epieces: Seq<PiecePosition>, n: int) -> int
    decreases n,
{
    if n <= 0 {
        0
    } else {
        eat_bonus_upto(pos, epieces, n - 1) + (match epieces[n - 1] {
            PiecePosition::Board(e) => if 1 <= Board::cw_dist(pos, e as int) <= 6 {
                100int
            } else {
                0int
            },
            PiecePosition::Goal(_) => 0int,
        })
    }
}

/// Bonus for the goal slots `0..n` of `player` that are free and reachable
/// with a single roll from ring cell `pos`.
pub open spec fn slot_bonus_upto(b: Board, player: PlayerColor, pos: int, n: int) -> int
    decreases n,
{
    if n <= 0 {
        0
    } else {
        slot_bonus_upto(b, player, pos, n - 1) + (if b.goal_of(player)[n - 1] is None
            && Board::cw_dist(pos, Board::entrance_of(player)) + n <= 6 {
            20int
        } else {
            0int
        })
    }
}

/// Score of a single piece of `player` under the default heuristic.
pub open spec fn piece_score(
    b: Board,
    player: PlayerColor,
    enemy: PlayerColor,
    p: PiecePosition,
) -> int {
    match p {
        PiecePosition::Board(i) => {
            let epieces = side_pieces(b, enemy);
            550 + advance_bonus(Board::cw_dist(i as int, Board::entrance_of(player))) - (if i
                as int == Board::start_of(enemy) && b.waiting(enemy) > 0 {
                100int
            } else {
                0int
            }) - (if i as int == Board::start_of(player) && b.waiting(player) > 0 {
                100int
            } else {
                0int
            }) + eat_bonus_upto(i as int, epieces, epieces.len() as int) + slot_bonus_upto(
                b,
                player,
                i as int,
                4,
            )
        },
        PiecePosition::Goal(n) => 1000 + (n as int * 10) / 3,
    }
}

/// Sum of the piece scores of `plist[..n]`.
pub open spec fn side_score_upto(
    b: Board,
    player: PlayerColor,
    enemy: PlayerColor,
    plist: Seq<PiecePosition>,
    n: int,
) -> int
    decreases n,
{
    if n <= 0 {
        0
    } else {
        side_score_upto(b, player, enemy, plist, n - 1) + piece_score(
            b,
            player,
            enemy,
            plist[n - 1],
        )
    }
}

/// Total score of `player`'s side under the default heuristic.
pub open spec fn side_score(b: Board, player: PlayerColor, enemy: PlayerColor) -> int {
    side_score_upto(
        b,
        player,
        enemy,
        side_pieces(b, player),
        side_pieces(b, player).len() as int,
    )
}

/// The default heuristic: a win sentinel on a decided board, otherwise the
/// mover's side score minus the opponent's.
pub open spec fn spec_default_heuristic(b: Board, player: PlayerColor, enemy: PlayerColor) -> int {
    match b.spec_winner() {
        Some(w) => if w == player {
            WIN_SCORE as int
        } else {
            -(WIN_SCORE as int)
        },
        None => side_score(b, player, enemy) - side_score(b, enemy, player),
    }
}

proof fn lemma_eat_bonus_bounds(pos: int, epieces: Seq<PiecePosition>, n: int)
    ensures
        0 <= eat_bonus_upto(pos, epieces, n) <= 100 * (if n <= 0 {
            0int
        } else {
            n
        }),
    decreases n,
{
    if n > 0 {
        lemma_eat_bonus_bounds(pos, epieces, n - 1);
    }
}

proof fn lemma_slot_bonus_bounds(b: Board, player: PlayerColor, pos: int, n: int)
    ensures
        0 <= slot_bonus_upto(b, player, pos, n) <= 20 * (if n <= 0 {
            0int
        } else {
            n
        }),
    decreases n,
{
    if n > 0 {
        lemma_slot_bonus_bounds(b, player, pos, n - 1);
    }
}

proof fn lemma_advance_bonus_bounds(d: int)
    requires
        0 <= d <= 27,
    ensures
        0 <= advance_bonus(d) <= 200,
{
    assert(1 <= (28 - d) * (28 - d) <= 784) by (nonlinear_arith)
        requires
            0 <= d <= 27,
    ;
}

/// A piece list of a well-formed board holds at most four sound positions.
proof fn lemma_side_pieces_sound(b: Board, c: PlayerColor)
    requires
        b.wf(),
        b.is_player(c),
    ensures
        side_pieces(b, c).len() <= 4,
        forall|k: int|
            0 <= k < side_pieces(b, c).len() ==> (match #[trigger] side_pieces(b, c)[k] {
                PiecePosition::Board(i) => i < 28,
                PiecePosition::Goal(g) => g < 4,
            }),
{
    crate::board::lemma_piece_conservation(b, c);
    crate::seqcount::lemma_color_count_bounds(b.tiles@, c);
    crate::seqcount::lemma_filled_count_bounds(b.goal_of(c));
}

proof fn lemma_piece_score_bounds(b: Board, player: PlayerColor, enemy: PlayerColor, p: PiecePosition)
    requires
        b.wf(),
        b.is_player(player),
        b.is_player(enemy),
        (p matches PiecePosition::Board(i) ==> i < 28),
        (p matches PiecePosition::Goal(g) ==> g < 4),
    ensures
        0 <= piece_score(b, player, enemy, p) <= 1300,
{
    match p {
        PiecePosition::Board(i) => {
            let epieces = side_pieces(b, enemy);
            lemma_side_pieces_sound(b, enemy);
            lemma_eat_bonus_bounds(i as int, epieces, epieces.len() as int);
            lemma_slot_bonus_bounds(b, player, i as int, 4);
            lemma_advance_bonus_bounds(Board::cw_dist(i as int, Board::entrance_of(player)));
        },
        PiecePosition::Goal(n) => {},
    }
}

proof fn lemma_side_score_upto_bounds(
    b: Board,
    player: PlayerColor,
    enemy: PlayerColor,
    plist: Seq<PiecePosition>,
    n: int,
)
    requires
        b.wf(),
        b.is_player(player),
        b.is_player(enemy),
        n <= plist.len(),
        forall|k: int|
            0 <= k < plist.len() ==> (match #[trigger] plist[k] {
                PiecePosition::Board(i) => i < 28,
                PiecePosition::Goal(g) => g < 4,
            }),
    ensures
        0 <= side_score_upto(b, player, enemy, plist, n) <= 1300 * (if n <= 0 {
            0int
        } else {
            n
        }),
    decreases n,
{
    if n > 0 {
        lemma_side_score_upto_bounds(b, player, enemy, plist, n - 1);
        lemma_piece_score_bounds(b, player, enemy, plist[n - 1]);
    }
}

/// The default heuristic's side score is small against the win sentinel.
pub proof fn lemma_side_score_bounds(b: Board, player: PlayerColor, enemy: PlayerColor)
    requires
        b.wf(),
        b.is_player(player),
        b.is_player(enemy),
    ensures
        0 <= side_score(b, player, enemy) <= 5200,
{
    lemma_side_pieces_sound(b, player);
    lemma_side_score_upto_bounds(
        b,
        player,
        enemy,
        side_pieces(b, player),
        side_pieces(b, player).len() as int,
    );
}

/// Capture-proximity bonus of the piece at `pos` against all enemy pieces.
fn eat_bonus(board: &Board, pos: u8, epieces: &Vec<PiecePosition>) -> (r: i64)
    requires
        pos < 28,
        epieces@.len() <= 4,
        forall|k: int|
            0 <= k < epieces@.len() ==> (#[trigger] epieces@[k] matches PiecePosition::Board(e)
                ==> e < 28),
    ensures
        r == eat_bonus_upto(pos as int, epieces@, epieces@.len() as int),
        0 <= r <= 400,
{
    let mut r: i64 = 0;
    let mut k: usize = 0;
    while k < epieces.len()
        invariant
            pos < 28,
            epieces@.len() <= 4,
            forall|j: int|
                0 <= j < epieces@.len() ==> (#[trigger] epieces@[j] matches PiecePosition::Board(e)
                    ==> e < 28),
            k <= epieces@.len(),
            r == eat_bonus_upto(pos as int, epieces@, k as int),
            0 <= r <= 100 * k,
        decreases epieces@.len() - k,
    {
        match epieces[k] {
            PiecePosition::Board(e) => {
                let d = if e >= pos {
                    e - pos
                } else {
                    28 - pos + e
                };
                if d >= 1 && d <= 6 {
                    r = r + AT_EATING_DISTANCE_BONUS;
                }
            },
            PiecePosition::Goal(_) => {},
        }
        k = k + 1;
    }
    r
}

/// Bonus for the free goal slots of `player` reachable with one roll from
/// `pos`.
fn slot_bonus(board: &Board, player: PlayerColor, pos: u8) -> (r: i64)
    requires
        board.lens_ok(),
        pos < 28,
    ensures
        r == slot_bonus_upto(*board, player, pos as int, 4),
        0 <= r <= 80,
{
    let track = &board.goals[player.index()];
    let mut r: i64 = 0;
    let mut g: usize = 0;
    while g < 4
        invariant
            board.lens_ok(),
            pos < 28,
            track@ == board.goal_of(player),
            g <= 4,
            r == slot_bonus_upto(*board, player, pos as int, g as int),
            0 <= r <= 20 * g,
        decreases 4 - g,
    {
        if track[g].is_none() {
            let distance = board.distance_to_goal_slot(player, pos, g as u8);
            if distance <= 6 {
                r = r + CAN_ENTER_GOAL_BONUS;
            }
        }
        g = g + 1;
    }
    r
}

/// Default-heuristic score of one side: per ring piece a mobilization credit,
/// an advancement bonus, entrance penalties and a capture-proximity bonus;
/// per goal piece a large credit with a depth bonus.
fn heuristic_evaluate_side(board: &Board, player: PlayerColor, enemy: PlayerColor) -> (r: i64)
    requires
        board.wf(),
        board.is_player(player),
        board.is_player(enemy),
        player != enemy,
    ensures
        r == side_score(*board, player, enemy),
        0 <= r <= 5200,
{
    let pieces_pair = board.get_pieces(player, enemy);
    let own_pieces = pieces_pair.0;
    let enemy_pieces = pieces_pair.1;
    proof {
        lemma_side_pieces_sound(*board, player);
        lemma_side_pieces_sound(*board, enemy);
        assert(own_pieces@ == side_pieces(*board, player));
        assert(enemy_pieces@ == side_pieces(*board, enemy));
    }

    let my_home = Board::get_start(player);
    let enemy_home = Board::get_start(enemy);
    let my_pieces_waiting = board.home_bases[player.index()].pieces_waiting;
    let enemy_pieces_waiting = board.home_bases[enemy.index()].pieces_waiting;

    let mut score: i64 = 0;
    let mut k: usize = 0;
    while k < own_pieces.len()
        invariant
            board.wf(),
            board.is_player(player),
            board.is_player(enemy),
            player != enemy,
            own_pieces@ == side_pieces(*board, player),
            enemy_pieces@ == side_pieces(*board, enemy),
            my_home == Board::start_of(player),
            enemy_home == Board::start_of(enemy),
            my_pieces_waiting as int == board.waiting(player),
            enemy_pieces_waiting as int == board.waiting(enemy),
            k <= own_pieces@.len(),
            own_pieces@.len() <= 4,
            score == side_score_upto(*board, player, enemy, own_pieces@, k as int),
            0 <= score <= 1300 * k,
        decreases own_pieces@.len() - k,
    {
        proof {
            lemma_piece_score_bounds(*board, player, enemy, own_pieces@[k as int]);
        }
        match own_pieces[k] {
            PiecePosition::Board(i) => {
                let mut piece: i64 = BASE_PIECE_SCORE;

                let distance_to_goal = board.distance_to_goal_entrance(player, i);
                proof {
                    lemma_advance_bonus_bounds(distance_to_goal as int);
                }
                let remaining = (28 - distance_to_goal) as i64;
                piece = piece + (remaining * remaining * 200) / 784;

                if i == enemy_home && enemy_pieces_waiting > 0 {
                    piece = piece - ENEMY_HOME_PENALTY;
                }
                if i == my_home && my_pieces_waiting > 0 {
                    piece = piece - OWN_HOME_PENALTY;
                }

                piece = piece + eat_bonus(board, i, enemy_pieces);
                piece = piece + slot_bonus(board, player, i);
                score = score + piece;
            },
            PiecePosition::Goal(n) => {
                score = score + BASE_PIECE_IN_GOAL_SCORE + (n as i64 * 10) / 3;
            },
        }
        k = k + 1;
    }
    score
}

/// The default heuristic of the search engine.
pub fn default_heuristic(board: &Board, player: PlayerColor, enemy: PlayerColor) -> (r: i64)
    requires
        board.wf(),
        board.is_player(player),
        board.is_player(enemy),
        player != enemy,
    ensures
        r == spec_default_heuristic(*board, player, enemy),
        -WIN_SCORE <= r <= WIN_SCORE,
{
    match board.get_winner() {
        Some(winner) => {
            if winner == player {
                return WIN_SCORE;
            } else {
                return -WIN_SCORE;
            }
        },
        None => {},
    }

    let my_score = heuristic_evaluate_side(board, player, enemy);
    let enemy_score = heuristic_evaluate_side(board, enemy, player);
    my_score - enemy_score
}

/// Sum over `plist[..n]` with one weight for ring pieces and one for goal
/// pieces.
pub open spec fn tally_upto(plist: Seq<PiecePosition>, n: int, on_ring: int, in_goal: int) -> int
    decreases n,
{
    if n <= 0 {
        0
    } else {
        tally_upto(plist, n - 1, on_ring, in_goal) + (match plist[n - 1] {
            PiecePosition::Board(_) => on_ring,
            PiecePosition::Goal(_) => in_goal,
        })
    }
}

proof fn lemma_tally_bounds(plist: Seq<PiecePosition>, n: int, on_ring: int, in_goal: int, lo: int, hi: int)
    requires
        lo <= on_ring <= hi,
        lo <= in_goal <= hi,
        lo <= 0 <= hi,
        n >= 0,
    ensures
        lo * n <= tally_upto(plist, n, on_ring, in_goal) <= hi * n,
    decreases n,
{
    if n > 0 {
        lemma_tally_bounds(plist, n - 1, on_ring, in_goal, lo, hi);
        assert(lo * n == lo * (n - 1) + lo) by (nonlinear_arith);
        assert(hi * n == hi * (n - 1) + hi) by (nonlinear_arith);
    } else {
        assert(lo * 0 == 0) by (nonlinear_arith);
        assert(hi * 0 == 0) by (nonlinear_arith);
    }
}

/// The piece-count-only heuristic: a win sentinel on a decided board,
/// otherwise flat per-piece weights for both sides.
pub open spec fn spec_minimal_heuristic(b: Board, player: PlayerColor, enemy: PlayerColor) -> int {
    match b.spec_winner() {
        Some(w) => if w == player {
            WIN_SCORE as int
        } else {
            -(WIN_SCORE as int)
        },
        None => {
            let own = side_pieces(b, player);
            let opp = side_pieces(b, enemy);
            tally_upto(own, own.len() as int, 1, 10) + tally_upto(opp, opp.len() as int, -10, -100)
        },
    }
}

/// The one-piece-at-a-time heuristic: goal pieces are everything, spreading
/// pieces over the ring is penalized, and the enemy's presence anywhere is
/// bad.
pub open spec fn spec_one_at_a_time_heuristic(
    b: Board,
    player: PlayerColor,
    enemy: PlayerColor,
) -> int {
    match b.spec_winner() {
        Some(w) => if w == player {
            10_000_000
        } else {
            -10_000_000
        },
        None => {
            let own = side_pieces(b, player);
            let opp = side_pieces(b, enemy);
            let on_ring = tally_upto(own, own.len() as int, 1, 0);
            tally_upto(own, own.len() as int, 0, 10_000) - (if on_ring > 1 {
                (on_ring - 1) * 100
            } else {
                0int
            }) + tally_upto(opp, opp.len() as int, -2000, -10_000)
        },
    }
}

/// Per-piece part of the game-stretching heuristic of one side: advancement
/// of any piece and goal entries shorten the game and are penalized.
pub open spec fn length_side_upto(b: Board, c: PlayerColor, plist: Seq<PiecePosition>, n: int) -> int
    decreases n,
{
    if n <= 0 {
        0
    } else {
        length_side_upto(b, c, plist, n - 1) + (match plist[n - 1] {
            PiecePosition::Board(pos) => -(((28 - Board::cw_dist(
                pos as int,
                Board::entrance_of(c),
            )) * 50) / 28),
            PiecePosition::Goal(_) => -1000int,
        })
    }
}

/// The game-stretching heuristic: any finished game, any advancement and any
/// mobilized piece lowers the score, for either side.
pub open spec fn spec_length_heuristic(b: Board) -> int {
    if b.spec_winner() is Some {
        -1_000_000
    } else {
        let own = side_pieces(b, b.players.0);
        let opp = side_pieces(b, b.players.1);
        -2 * b.waiting(b.players.0) - 2 * b.waiting(b.players.1) + length_side_upto(
            b,
            b.players.0,
            own,
            own.len() as int,
        ) + length_side_upto(b, b.players.1, opp, opp.len() as int)
    }
}

proof fn lemma_length_side_bounds(b: Board, c: PlayerColor, plist: Seq<PiecePosition>, n: int)
    requires
        n >= 0,
        forall|k: int|
            0 <= k < plist.len() ==> (#[trigger] plist[k] matches PiecePosition::Board(i) ==> i
                < 28),
        n <= plist.len(),
    ensures
        -1000 * n <= length_side_upto(b, c, plist, n) <= 0,
    decreases n,
{
    if n > 0 {
        lemma_length_side_bounds(b, c, plist, n - 1);
    }
}

/// Total number of legal moves of `player` over the six die faces.
pub open spec fn spec_mobility(b: Board, player: PlayerColor) -> int {
    spec_move_count(b, player, 1) + spec_move_count(b, player, 2) + spec_move_count(b, player, 3)
        + spec_move_count(b, player, 4) + spec_move_count(b, player, 5) + spec_move_count(
        b,
        player,
        6,
    )
}

proof fn lemma_piece_moves_upto_bounds(
    b: Board,
    player: PlayerColor,
    dice: int,
    plist: Seq<PiecePosition>,
    n: int,
)
    requires
        n >= 0,
    ensures
        0 <= crate::board::piece_moves_upto(b, player, dice, plist, n) <= n,
    decreases n,
{
    if n > 0 {
        lemma_piece_moves_upto_bounds(b, player, dice, plist, n - 1);
    }
}

/// A move list never has fewer than one or more than six entries.
pub proof fn lemma_move_count_bounds(b: Board, player: PlayerColor, dice: int)
    requires
        b.wf(),
        b.is_player(player),
    ensures
        1 <= spec_move_count(b, player, dice) <= 6,
{
    lemma_side_pieces_sound(b, player);
    lemma_piece_moves_upto_bounds(
        b,
        player,
        dice,
        side_pieces(b, player),
        side_pieces(b, player).len() as int,
    );
}

/// Exec sum over a piece list with flat per-piece weights.
fn tally(plist: &Vec<PiecePosition>, on_ring: i64, in_goal: i64) -> (r: i64)
    requires
        plist@.len() <= 4,
        -100_000 <= on_ring <= 100_000,
        -100_000 <= in_goal <= 100_000,
    ensures
        r == tally_upto(plist@, plist@.len() as int, on_ring as int, in_goal as int),
        -400_000 <= r <= 400_000,
{
    let mut r: i64 = 0;
    let mut k: usize = 0;
    while k < plist.len()
        invariant
            plist@.len() <= 4,
            -100_000 <= on_ring <= 100_000,
            -100_000 <= in_goal <= 100_000,
            k <= plist@.len(),
            r == tally_upto(plist@, k as int, on_ring as int, in_goal as int),
            -100_000 * k <= r <= 100_000 * k,
        decreases plist@.len() - k,
    {
        match plist[k] {
            PiecePosition::Board(_) => {
                r = r + on_ring;
            },
            PiecePosition::Goal(_) => {
                r = r + in_goal;
            },
        }
        k = k + 1;
    }
    r
}

/// The piece-count-only heuristic.
pub fn minimal_heuristic(board: &Board, player: PlayerColor, enemy: PlayerColor) -> (r: i64)
    requires
        board.wf(),
        board.is_player(player),
        board.is_player(enemy),
        player != enemy,
    ensures
        r == spec_minimal_heuristic(*board, player, enemy),
        -WIN_SCORE <= r <= WIN_SCORE,
{
    match board.get_winner() {
        Some(winner) => {
            if winner == player {
                return WIN_SCORE;
            } else {
                return -WIN_SCORE;
            }
        },
        None => {},
    }
    proof {
        lemma_side_pieces_sound(*board, player);
        lemma_side_pieces_sound(*board, enemy);
    }
    let pieces_pair = board.get_pieces(player, enemy);
    let own = tally(pieces_pair.0, 1, 10);
    let opp = tally(pieces_pair.1, -10, -100);
    own + opp
}

/// The one-piece-at-a-time heuristic.
pub fn one_at_a_time_heuristic(board: &Board, player: PlayerColor, enemy: PlayerColor) -> (r: i64)
    requires
        board.wf(),
        board.is_player(player),
        board.is_player(enemy),
        player != enemy,
    ensures
        r == spec_one_at_a_time_heuristic(*board, player, enemy),
        -10_000_000 <= r <= 10_000_000,
{
    match board.get_winner() {
        Some(winner) => {
            if winner == player {
                return 10_000_000;
            } else {
                return -10_000_000;
            }
        },
        None => {},
    }
    proof {
        lemma_side_pieces_sound(*board, player);
        lemma_side_pieces_sound(*board, enemy);
    }
    let pieces_pair = board.get_pieces(player, enemy);
    proof {
        let own = side_pieces(*board, player);
        let opp = side_pieces(*board, enemy);
        lemma_tally_bounds(own, own.len() as int, 0, 10_000, 0, 10_000);
        lemma_tally_bounds(own, own.len() as int, 1, 0, 0, 1);
        lemma_tally_bounds(opp, opp.len() as int, -2000, -10_000, -10_000, 0);
    }
    let own_goal = tally(pieces_pair.0, 0, 10_000);
    let own_on_ring = tally(pieces_pair.0, 1, 0);
    let opp = tally(pieces_pair.1, -2000, -10_000);
    let crowding = if own_on_ring > 1 {
        (own_on_ring - 1) * 100
    } else {
        0
    };
    own_goal - crowding + opp
}

/// Exec counterpart of `length_side_upto` over a whole piece list.
fn length_side(board: &Board, c: PlayerColor, plist: &Vec<PiecePosition>) -> (r: i64)
    requires
        plist@.len() <= 4,
        forall|k: int|
            0 <= k < plist@.len() ==> (#[trigger] plist@[k] matches PiecePosition::Board(i) ==> i
                < 28),
    ensures
        r == length_side_upto(*board, c, plist@, plist@.len() as int),
        -4000 <= r <= 0,
{
    let mut r: i64 = 0;
    let mut k: usize = 0;
    while k < plist.len()
        invariant
            plist@.len() <= 4,
            forall|j: int|
                0 <= j < plist@.len() ==> (#[trigger] plist@[j] matches PiecePosition::Board(i)
                    ==> i < 28),
            k <= plist@.len(),
            r == length_side_upto(*board, c, plist@, k as int),
            -1000 * k <= r <= 0,
        decreases plist@.len() - k,
    {
        match plist[k] {
            PiecePosition::Board(pos) => {
                let d = board.distance_to_goal_entrance(c, pos);
                r = r - ((28 - d as i64) * 50) / 28;
            },
            PiecePosition::Goal(_) => {
                r = r - 1000;
            },
        }
        k = k + 1;
    }
    r
}

/// The game-stretching heuristic.
pub fn maximize_length_heuristic(board: &Board) -> (r: i64)
    requires
        board.wf(),
    ensures
        r == spec_length_heuristic(*board),
        -1_000_000 <= r <= 0,
{
    if board.get_winner().is_some() {
        return -1_000_000;
    }
    proof {
        lemma_side_pieces_sound(*board, board.players.0);
        lemma_side_pieces_sound(*board, board.players.1);
    }
    let players = board.players();
    let pieces_pair = board.get_pieces(players.0, players.1);
    let mut score: i64 = 0;
    score = score - board.home_bases[players.0.index()].pieces_waiting as i64 * 2;
    score = score - board.home_bases[players.1.index()].pieces_waiting as i64 * 2;
    score = score + length_side(board, players.0, pieces_pair.0);
    score = score + length_side(board, players.1, pieces_pair.1);
    score
}

/// Total number of legal moves of `player` over the six die faces; an
/// average over the faces up to the fixed factor six.
pub fn count_moves_heuristic(board: &Board, player: PlayerColor, enemy: PlayerColor) -> (r: i64)
    requires
        board.wf(),
        board.is_player(player),
        board.is_player(enemy),
        player != enemy,
    ensures
        r == spec_mobility(*board, player),
        6 <= r <= 36,
{
    let mut r: i64 = 0;
    let mut die: u8 = 1;
    while die <= 6
        invariant
            board.wf(),
            board.is_player(player),
            board.is_player(enemy),
            player != enemy,
            1 <= die <= 7,
            die - 1 <= r <= 6 * (die - 1),
            r == (if die > 1 {
                spec_move_count(*board, player, 1)
            } else {
                0int
            }) + (if die > 2 {
                spec_move_count(*board, player, 2)
            } else {
                0int
            }) + (if die > 3 {
                spec_move_count(*board, player, 3)
            } else {
                0int
            }) + (if die > 4 {
                spec_move_count(*board, player, 4)
            } else {
                0int
            }) + (if die > 5 {
                spec_move_count(*board, player, 5)
            } else {
                0int
            }) + (if die > 6 {
                spec_move_count(*board, player, 6)
            } else {
                0int
            }),
        decreases 7 - die,
    {
        proof {
            lemma_move_count_bounds(*board, player, die as int);
        }
        let moves = board.get_moves(die, player, enemy);
        r = r + moves.len() as i64;
        die = die + 1;
    }
    r
}

proof fn lemma_slot_bonus_congruent(b1: Board, b2: Board, player: PlayerColor, pos: int, n: int)
    requires
        b1.goal_of(player) == b2.goal_of(player),
    ensures
        slot_bonus_upto(b1, player, pos, n) == slot_bonus_upto(b2, player, pos, n),
    decreases n,
{
    if n > 0 {
        lemma_slot_bonus_congruent(b1, b2, player, pos, n - 1);
    }
}

proof fn lemma_side_score_congruent(
    b1: Board,
    b2: Board,
    player: PlayerColor,
    enemy: PlayerColor,
    plist: Seq<PiecePosition>,
    n: int,
)
    requires
        b1.lens_ok(),
        crate::board::same_position(b1, b2),
    ensures
        side_score_upto(b1, player, enemy, plist, n) == side_score_upto(
            b2,
            player,
            enemy,
            plist,
            n,
        ),
    decreases n,
{
    if n > 0 {
        lemma_side_score_congruent(b1, b2, player, enemy, plist, n - 1);
        assert(side_pieces(b1, enemy) == side_pieces(b2, enemy));
        assert(b1.goal_of(player) == b2.goal_of(player)) by {
            assert(b1.goals@[player.idx()]@ == b2.goals@[player.idx()]@);
        }
        match plist[n - 1] {
            PiecePosition::Board(i) => {
                lemma_slot_bonus_congruent(b1, b2, player, i as int, 4);
            },
            PiecePosition::Goal(_) => {},
        }
    }
}

proof fn lemma_move_count_congruent(b1: Board, b2: Board, player: PlayerColor, dice: int)
    requires
        b1.lens_ok(),
        crate::board::same_position(b1, b2),
    ensures
        spec_move_count(b1, player, dice) == spec_move_count(b2, player, dice),
{
    assert(b1.goal_of(player) == b2.goal_of(player)) by {
        assert(b1.goals@[player.idx()]@ == b2.goals@[player.idx()]@);
    }
    assert(side_pieces(b1, player) == side_pieces(b2, player));
    lemma_piece_moves_upto_congruent(
        b1,
        b2,
        player,
        dice,
        side_pieces(b1, player),
        side_pieces(b1, player).len() as int,
    );
}

proof fn lemma_piece_moves_upto_congruent(
    b1: Board,
    b2: Board,
    player: PlayerColor,
    dice: int,
    plist: Seq<PiecePosition>,
    n: int,
)
    requires
        b1.lens_ok(),
        crate::board::same_position(b1, b2),
    ensures
        crate::board::piece_moves_upto(b1, player, dice, plist, n)
            == crate::board::piece_moves_upto(b2, player, dice, plist, n),
    decreases n,
{
    if n > 0 {
        lemma_piece_moves_upto_congruent(b1, b2, player, dice, plist, n - 1);
        assert(b1.goal_of(player) == b2.goal_of(player)) by {
            assert(b1.goals@[player.idx()]@ == b2.goals@[player.idx()]@);
        }
    }
}

proof fn lemma_length_side_congruent(
    b1: Board,
    b2: Board,
    c: PlayerColor,
    plist: Seq<PiecePosition>,
    n: int,
)
    ensures
        length_side_upto(b1, c, plist, n) == length_side_upto(b2, c, plist, n),
    decreases n,
{
    if n > 0 {
        lemma_length_side_congruent(b1, b2, c, plist, n - 1);
    }
}

/// One scoring strategy of the search engine: a pure function of the
/// position, bounded by the win sentinels, with a verified executable
/// counterpart.
pub trait Evaluator: Sized {
    /// The score this strategy assigns to a position, for the given mover.
    spec fn spec_eval(&self, b: Board, player: PlayerColor, enemy: PlayerColor) -> int;

    /// Scores never leave the sentinel range.
    proof fn lemma_eval_bounded(&self, b: Board, player: PlayerColor, enemy: PlayerColor)
        requires
            b.wf(),
            b.is_player(player),
            b.is_player(enemy),
            player != enemy,
        ensures
            -(WIN_SCORE as int) <= self.spec_eval(b, player, enemy) <= WIN_SCORE as int,
    ;

    /// Boards holding the same position score the same: the strategy reads
    /// nothing but the position.
    proof fn lemma_eval_congruent(&self, b1: Board, b2: Board, player: PlayerColor, enemy: PlayerColor)
        requires
            b1.wf(),
            crate::board::same_position(b1, b2),
        ensures
            self.spec_eval(b1, player, enemy) == self.spec_eval(b2, player, enemy),
    ;

    /// Compute the score of a position.
    fn evaluate(&self, b: &Board, player: PlayerColor, enemy: PlayerColor) -> (r: i64)
        requires
            b.wf(),
            b.is_player(player),
            b.is_player(enemy),
            player != enemy,
        ensures
            r == self.spec_eval(*b, player, enemy),
    ;
}

/// The default heuristic as a strategy.
#[derive(Clone, Copy)]
pub struct DefaultEvaluator;

impl Evaluator for DefaultEvaluator {
    open spec fn spec_eval(&self, b: Board, player: PlayerColor, enemy: PlayerColor) -> int {
        spec_default_heuristic(b, player, enemy)
    }

    proof fn lemma_eval_bounded(&self, b: Board, player: PlayerColor, enemy: PlayerColor) {
        if b.spec_winner() is None {
            lemma_side_score_bounds(b, player, enemy);
            lemma_side_score_bounds(b, enemy, player);
        }
    }

    proof fn lemma_eval_congruent(&self, b1: Board, b2: Board, player: PlayerColor, enemy: PlayerColor) {
        crate::board::lemma_same_position_wf(b1, b2);
        if b1.spec_winner() is None {
            assert(side_pieces(b1, player) == side_pieces(b2, player));
            assert(side_pieces(b1, enemy) == side_pieces(b2, enemy));
            lemma_side_score_congruent(
                b1,
                b2,
                player,
                enemy,
                side_pieces(b1, player),
                side_pieces(b1, player).len() as int,
            );
            lemma_side_score_congruent(
                b1,
                b2,
                enemy,
                player,
                side_pieces(b1, enemy),
                side_pieces(b1, enemy).len() as int,
            );
        }
    }

    fn evaluate(&self, b: &Board, player: PlayerColor, enemy: PlayerColor) -> (r: i64) {
        default_heuristic(b, player, enemy)
    }
}

/// The piece-count-only heuristic as a strategy.
#[derive(Clone, Copy)]
pub struct MinimalEvaluator;

impl Evaluator for MinimalEvaluator {
    open spec fn spec_eval(&self, b: Board, player: PlayerColor, enemy: PlayerColor) -> int {
        spec_minimal_heuristic(b, player, enemy)
    }

    proof fn lemma_eval_bounded(&self, b: Board, player: PlayerColor, enemy: PlayerColor) {
        if b.spec_winner() is None {
            lemma_side_pieces_sound(b, player);
            lemma_side_pieces_sound(b, enemy);
            let own = side_pieces(b, player);
            let opp = side_pieces(b, enemy);
            lemma_tally_bounds(own, own.len() as int, 1, 10, 0, 10);
            lemma_tally_bounds(opp, opp.len() as int, -10, -100, -100, 0);
        }
    }

    proof fn lemma_eval_congruent(&self, b1: Board, b2: Board, player: PlayerColor, enemy: PlayerColor) {
        crate::board::lemma_same_position_wf(b1, b2);
        assert(side_pieces(b1, player) == side_pieces(b2, player));
        assert(side_pieces(b1, enemy) == side_pieces(b2, enemy));
    }

    fn evaluate(&self, b: &Board, player: PlayerColor, enemy: PlayerColor) -> (r: i64) {
        minimal_heuristic(b, player, enemy)
    }
}

/// A strategy turned against its own goal: the negation of another strategy.
#[derive(Clone, Copy)]
pub struct NegatedEvaluator<E>(pub E);

impl<E: Evaluator> Evaluator for NegatedEvaluator<E> {
    open spec fn spec_eval(&self, b: Board, player: PlayerColor, enemy: PlayerColor) -> int {
        -self.0.spec_eval(b, player, enemy)
    }

    proof fn lemma_eval_bounded(&self, b: Board, player: PlayerColor, enemy: PlayerColor) {
        self.0.lemma_eval_bounded(b, player, enemy);
    }

    proof fn lemma_eval_congruent(&self, b1: Board, b2: Board, player: PlayerColor, enemy: PlayerColor) {
        self.0.lemma_eval_congruent(b1, b2, player, enemy);
    }

    fn evaluate(&self, b: &Board, player: PlayerColor, enemy: PlayerColor) -> (r: i64) {
        proof {
            self.0.lemma_eval_bounded(*b, player, enemy);
        }
        let inner = self.0.evaluate(b, player, enemy);
        -inner
    }
}

/// A strategy that looks only at the mover's own home-base count.
#[derive(Clone, Copy)]
pub struct HomeCountEvaluator {
    /// When set, fewer waiting pieces score higher; otherwise more do.
    pub negate: bool,
}

impl Evaluator for HomeCountEvaluator {
    open spec fn spec_eval(&self, b: Board, player: PlayerColor, enemy: PlayerColor) -> int {
        if self.negate {
            -b.waiting(player)
        } else {
            b.waiting(player)
        }
    }

    proof fn lemma_eval_bounded(&self, b: Board, player: PlayerColor, enemy: PlayerColor) {
        crate::board::lemma_piece_conservation(b, player);
        crate::seqcount::lemma_color_count_bounds(b.tiles@, player);
        crate::seqcount::lemma_filled_count_bounds(b.goal_of(player));
    }

    proof fn lemma_eval_congruent(&self, b1: Board, b2: Board, player: PlayerColor, enemy: PlayerColor) {
        assert(b1.home_bases@[player.idx()] == b2.home_bases@[player.idx()]);
    }

    fn evaluate(&self, b: &Board, player: PlayerColor, enemy: PlayerColor) -> (r: i64) {
        let w = b.home_bases[player.index()].pieces_waiting as i64;
        if self.negate {
            -w
        } else {
            w
        }
    }
}

/// The one-piece-at-a-time heuristic as a strategy.
#[derive(Clone, Copy)]
pub struct OneAtATimeEvaluator;

impl Evaluator for OneAtATimeEvaluator {
    open spec fn spec_eval(&self, b: Board, player: PlayerColor, enemy: PlayerColor) -> int {
        spec_one_at_a_time_heuristic(b, player, enemy)
    }

    proof fn lemma_eval_bounded(&self, b: Board, player: PlayerColor, enemy: PlayerColor) {
        if b.spec_winner() is None {
            lemma_side_pieces_sound(b, player);
            lemma_side_pieces_sound(b, enemy);
            let own = side_pieces(b, player);
            let opp = side_pieces(b, enemy);
            lemma_tally_bounds(own, own.len() as int, 0, 10_000, 0, 10_000);
            lemma_tally_bounds(own, own.len() as int, 1, 0, 0, 1);
            lemma_tally_bounds(opp, opp.len() as int, -2000, -10_000, -10_000, 0);
        }
    }

    proof fn lemma_eval_congruent(&self, b1: Board, b2: Board, player: PlayerColor, enemy: PlayerColor) {
        crate::board::lemma_same_position_wf(b1, b2);
        assert(side_pieces(b1, player) == side_pieces(b2, player));
        assert(side_pieces(b1, enemy) == side_pieces(b2, enemy));
    }

    fn evaluate(&self, b: &Board, player: PlayerColor, enemy: PlayerColor) -> (r: i64) {
        one_at_a_time_heuristic(b, player, enemy)
    }
}

/// A strategy that counts legal moves: the mover's own options, or the
/// opponent's denied.
#[derive(Clone, Copy)]
pub struct MobilityEvaluator {
    /// Maximize the mover's options when set; otherwise minimize the
    /// opponent's.
    pub own_options: bool,
}

impl Evaluator for MobilityEvaluator {
    open spec fn spec_eval(&self, b: Board, player: PlayerColor, enemy: PlayerColor) -> int {
        if self.own_options {
            spec_mobility(b, player)
        } else {
            -spec_mobility(b, enemy)
        }
    }

    proof fn lemma_eval_bounded(&self, b: Board, player: PlayerColor, enemy: PlayerColor) {
        lemma_move_count_bounds(b, player, 1);
        lemma_move_count_bounds(b, player, 2);
        lemma_move_count_bounds(b, player, 3);
        lemma_move_count_bounds(b, player, 4);
        lemma_move_count_bounds(b, player, 5);
        lemma_move_count_bounds(b, player, 6);
        lemma_move_count_bounds(b, enemy, 1);
        lemma_move_count_bounds(b, enemy, 2);
        lemma_move_count_bounds(b, enemy, 3);
        lemma_move_count_bounds(b, enemy, 4);
        lemma_move_count_bounds(b, enemy, 5);
        lemma_move_count_bounds(b, enemy, 6);
    }

    proof fn lemma_eval_congruent(&self, b1: Board, b2: Board, player: PlayerColor, enemy: PlayerColor) {
        let side = if self.own_options {
            player
        } else {
            enemy
        };
        lemma_move_count_congruent(b1, b2, side, 1);
        lemma_move_count_congruent(b1, b2, side, 2);
        lemma_move_count_congruent(b1, b2, side, 3);
        lemma_move_count_congruent(b1, b2, side, 4);
        lemma_move_count_congruent(b1, b2, side, 5);
        lemma_move_count_congruent(b1, b2, side, 6);
    }

    fn evaluate(&self, b: &Board, player: PlayerColor, enemy: PlayerColor) -> (r: i64) {
        if self.own_options {
            count_moves_heuristic(b, player, enemy)
        } else {
            let opp = count_moves_heuristic(b, enemy, player);
            -opp
        }
    }
}

/// The game-stretching heuristic as a strategy; it ignores which side asks.
#[derive(Clone, Copy)]
pub struct LengthEvaluator;

impl Evaluator for LengthEvaluator {
    open spec fn spec_eval(&self, b: Board, player: PlayerColor, enemy: PlayerColor) -> int {
        spec_length_heuristic(b)
    }

    proof fn lemma_eval_bounded(&self, b: Board, player: PlayerColor, enemy: PlayerColor) {
        if b.spec_winner() is None {
            lemma_side_pieces_sound(b, b.players.0);
            lemma_side_pieces_sound(b, b.players.1);
            let own = side_pieces(b, b.players.0);
            let opp = side_pieces(b, b.players.1);
            lemma_length_side_bounds(b, b.players.0, own, own.len() as int);
            lemma_length_side_bounds(b, b.players.1, opp, opp.len() as int);
            crate::board::lemma_piece_conservation(b, b.players.0);
            crate::board::lemma_piece_conservation(b, b.players.1);
            crate::seqcount::lemma_color_count_bounds(b.tiles@, b.players.0);
            crate::seqcount::lemma_color_count_bounds(b.tiles@, b.players.1);
            crate::seqcount::lemma_filled_count_bounds(b.goal_of(b.players.0));
            crate::seqcount::lemma_filled_count_bounds(b.goal_of(b.players.1));
        }
    }

    proof fn lemma_eval_congruent(&self, b1: Board, b2: Board, player: PlayerColor, enemy: PlayerColor) {
        crate::board::lemma_same_position_wf(b1, b2);
        if b1.spec_winner() is None {
            assert(side_pieces(b1, b1.players.0) == side_pieces(b2, b2.players.0));
            assert(side_pieces(b1, b1.players.1) == side_pieces(b2, b2.players.1));
            assert(b1.home_bases@[b1.players.0.idx()] == b2.home_bases@[b2.players.0.idx()]);
            assert(b1.home_bases@[b1.players.1.idx()] == b2.home_bases@[b2.players.1.idx()]);
            let own = side_pieces(b1, b1.players.0);
            let opp = side_pieces(b1, b1.players.1);
            lemma_length_side_congruent(b1, b2, b1.players.0, own, own.len() as int);
            lemma_length_side_congruent(b1, b2, b1.players.1, opp, opp.len() as int);
        }
    }

    fn evaluate(&self, b: &Board, player: PlayerColor, enemy: PlayerColor) -> (r: i64) {
        maximize_length_heuristic(b)
    }
}

/// A strategy that plays for a chosen color, whichever side it is asked to
/// score: it helps `supporting` win, and helps its opponent lose.
#[derive(Clone, Copy)]
pub struct SupportEvaluator {
    pub supporting: PlayerColor,
}

impl Evaluator for SupportEvaluator {
    open spec fn spec_eval(&self, b: Board, player: PlayerColor, enemy: PlayerColor) -> int {
        if player == self.supporting {
            spec_default_heuristic(b, player, enemy)
        } else {
            spec_default_heuristic(b, enemy, player)
        }
    }

    proof fn lemma_eval_bounded(&self, b: Board, player: PlayerColor, enemy: PlayerColor) {
        if b.spec_winner() is None {
            lemma_side_score_bounds(b, player, enemy);
            lemma_side_score_bounds(b, enemy, player);
        }
    }

    proof fn lemma_eval_congruent(&self, b1: Board, b2: Board, player: PlayerColor, enemy: PlayerColor) {
        crate::board::lemma_same_position_wf(b1, b2);
        if b1.spec_winner() is None {
            assert(side_pieces(b1, player) == side_pieces(b2, player));
            assert(side_pieces(b1, enemy) == side_pieces(b2, enemy));
            lemma_side_score_congruent(
                b1,
                b2,
                player,
                enemy,
                side_pieces(b1, player),
                side_pieces(b1, player).len() as int,
            );
            lemma_side_score_congruent(
                b1,
                b2,
                enemy,
                player,
                side_pieces(b1, enemy),
                side_pieces(b1, enemy).len() as int,
            );
        }
    }

    fn evaluate(&self, b: &Board, player: PlayerColor, enemy: PlayerColor) -> (r: i64) {
        if player == self.supporting {
            default_heuristic(b, player, enemy)
        } else {
            default_heuristic(b, enemy, player)
        }
    }
}

} // verus!
