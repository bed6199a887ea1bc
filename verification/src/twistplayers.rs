use vstd::prelude::*;

use crate::board::{BoardCell, PiecePosition};
use crate::color::PlayerColor;
use crate::rngs::rand_below;
use crate::turn::NamedPlayer;
use crate::twistboard::{
    t_after_core, t_board_after, t_goals_view, t_moved_goal_s, t_number_tiles, t_rotation_after_s,
    t_same_position, t_waiting_after_sv, t_waiting_view, lemma_t_after_unique, ActionDie,
    ActionDieMove, DieResult, MoveFrom, NumberDieMove, SpinSection, TwistBoard, TwistMove,
};
use crate::twistmoves::{lemma_twist_move_ok_applicable, number_move_ok, twist_move_ok};

verus! {

broadcast use crate::seqcount::lemma_seq_push_contains;

/// The per-turn bundle the driver hands to a player of the rotating
/// variant: both dice, who moves, and who waits.
#[derive(Clone, Copy)]
pub struct GameContext {
    pub die: DieResult,
    pub current_player: PlayerColor,
    pub other_player: PlayerColor,
}

impl GameContext {
    /// The context names the two players of `b`, in some order, with a real
    /// number-die face.
    pub open spec fn wf_for(self, b: TwistBoard) -> bool {
        &&& b.is_player(self.current_player)
        &&& b.is_player(self.other_player)
        &&& self.current_player != self.other_player
        &&& 1 <= self.die.number <= 6
    }

    /// The same turn, seen from the waiting player.
    pub fn with_swapped_players(&self) -> (r: Self)
        ensures
            r.die == self.die,
            r.current_player == self.other_player,
            r.other_player == self.current_player,
    {
        GameContext {
            die: self.die,
            current_player: self.other_player,
            other_player: self.current_player,
        }
    }
}

/// A player of the rotating variant: asked for one of the offered moves, it
/// answers with an index into them.
pub trait TwistPlayer: Sized {
    /// Choose one of the offered moves, which the caller generated for this
    /// turn's dice pair.
    fn select_move(
        &mut self,
        ctx: &GameContext,
        board: &TwistBoard,
        moves: &Vec<TwistMove>,
        rng: &mut rand::rngs::SmallRng,
    ) -> (r: usize)
        requires
            board.wf(),
            ctx.wf_for(*board),
            moves@.len() >= 1,
            forall|k1: int, k2: int| 0 <= k1 < k2 < moves@.len() ==> moves@[k1] != moves@[k2],
            moves@.contains(TwistMove(NumberDieMove::DoNothing, ActionDieMove::DoNothing)),
            forall|k: int|
                0 <= k < moves@.len() ==> twist_move_ok(
                    *board,
                    ctx.current_player,
                    ctx.die,
                    #[trigger] moves@[k],
                ),
        ensures
            r < moves@.len(),
    ;
}

/// Whether a move ignores both dice.
fn is_all_pass(m: &TwistMove) -> (r: bool)
    ensures
        r == (*m == TwistMove(NumberDieMove::DoNothing, ActionDieMove::DoNothing)),
{
    match (&m.0, &m.1) {
        (NumberDieMove::DoNothing, ActionDieMove::DoNothing) => true,
        _ => false,
    }
}

/// Plays any of the offered moves, uniformly at random.
#[derive(Clone, Copy)]
pub struct TwistRandomPlayer;

impl NamedPlayer for TwistRandomPlayer {
    fn name(&self) -> &'static str {
        "Random"
    }
}

impl TwistPlayer for TwistRandomPlayer {
    fn select_move(
        &mut self,
        ctx: &GameContext,
        board: &TwistBoard,
        moves: &Vec<TwistMove>,
        rng: &mut rand::rngs::SmallRng,
    ) -> (r: usize) {
        rand_below(rng, moves.len())
    }
}

/// Always plays the sentinel that ignores both dice.
#[derive(Clone, Copy)]
pub struct TwistDoNothingPlayer;

impl NamedPlayer for TwistDoNothingPlayer {
    fn name(&self) -> &'static str {
        "Do Nothing"
    }
}

impl TwistPlayer for TwistDoNothingPlayer {
    fn select_move(
        &mut self,
        ctx: &GameContext,
        board: &TwistBoard,
        moves: &Vec<TwistMove>,
        rng: &mut rand::rngs::SmallRng,
    ) -> (r: usize)
        ensures
            moves@[r as int] == TwistMove(NumberDieMove::DoNothing, ActionDieMove::DoNothing),
    {
        let mut k: usize = 0;
        while k < moves.len()
            invariant
                moves@.contains(TwistMove(NumberDieMove::DoNothing, ActionDieMove::DoNothing)),
                k <= moves@.len(),
                forall|j: int|
                    0 <= j < k ==> #[trigger] moves@[j] != TwistMove(
                        NumberDieMove::DoNothing,
                        ActionDieMove::DoNothing,
                    ),
            decreases moves@.len() - k,
        {
            if is_all_pass(&moves[k]) {
                return k;
            }
            k = k + 1;
        }
        proof {
            let i = choose|i: int|
                0 <= i < moves@.len() && moves@[i] == TwistMove(
                    NumberDieMove::DoNothing,
                    ActionDieMove::DoNothing,
                );
            assert(false);
        }
        0
    }
}

/// Plays randomly among the moves that do something, unless nothing does.
#[derive(Clone, Copy)]
pub struct TwistDoSomethingPlayer;

impl NamedPlayer for TwistDoSomethingPlayer {
    fn name(&self) -> &'static str {
        "Do Something"
    }
}

impl TwistPlayer for TwistDoSomethingPlayer {
    /// Whatever the draw, the answer ignores both dice only when every
    /// offered move does.
    fn select_move(
        &mut self,
        ctx: &GameContext,
        board: &TwistBoard,
        moves: &Vec<TwistMove>,
        rng: &mut rand::rngs::SmallRng,
    ) -> (r: usize)
        ensures
            (exists|k: int|
                0 <= k < moves@.len() && #[trigger] moves@[k] != TwistMove(
                    NumberDieMove::DoNothing,
                    ActionDieMove::DoNothing,
                )) ==> moves@[r as int] != TwistMove(
                NumberDieMove::DoNothing,
                ActionDieMove::DoNothing,
            ),
    {
        if moves.len() == 1 {
            return 0;
        }
        let mut active: Vec<usize> = Vec::new();
        let mut k: usize = 0;
        while k < moves.len()
            invariant
                k <= moves@.len(),
                forall|t: int|
                    0 <= t < active@.len() ==> (#[trigger] active@[t]) < moves@.len()
                        && moves@[active@[t] as int] != TwistMove(
                        NumberDieMove::DoNothing,
                        ActionDieMove::DoNothing,
                    ),
                (exists|j: int|
                    0 <= j < k && #[trigger] moves@[j] != TwistMove(
                        NumberDieMove::DoNothing,
                        ActionDieMove::DoNothing,
                    )) ==> active@.len() > 0,
            decreases moves@.len() - k,
        {
            if !is_all_pass(&moves[k]) {
                active.push(k);
            }
            k = k + 1;
        }
        if active.len() == 0 {
            proof {
                // Two offered moves can never both be the all-pass sentinel.
                assert(moves@[0] != moves@[1]);
                assert(false);
            }
            rand_below(rng, moves.len())
        } else {
            let pick = rand_below(rng, active.len());
            active[pick]
        }
    }
}

/// The flat weight of arc cell `j` in the spin heuristic: losing ground at
/// the front of the arc is bad, gaining at the back is good.
pub open spec fn spin_weight(j: int) -> int {
    if j == 0 {
        -3
    } else if j == 1 {
        -2
    } else if j == 2 {
        0
    } else if j == 3 {
        4
    } else {
        6
    }
}

/// The contribution of cell content `c` at arc position `j`, for mover `me`.
pub open spec fn cell_term(c: BoardCell, me: PlayerColor, j: int) -> int {
    match c {
        Some(p) => if p == me {
            spin_weight(j)
        } else {
            -spin_weight(j)
        },
        None => 0,
    }
}

/// Spin-heuristic value of the arc at `a` read forwards, over cells `0..n`.
pub open spec fn fwd_section_score(
    tiles: Seq<BoardCell>,
    a: int,
    me: PlayerColor,
    n: int,
) -> int
    decreases n,
{
    if n <= 0 {
        0
    } else {
        fwd_section_score(tiles, a, me, n - 1) + cell_term(tiles[a + n - 1], me, n - 1)
    }
}

/// Spin-heuristic value of the arc at `a` read backwards, over cells `0..n`.
pub open spec fn rev_section_score(
    tiles: Seq<BoardCell>,
    a: int,
    me: PlayerColor,
    n: int,
) -> int
    decreases n,
{
    if n <= 0 {
        0
    } else {
        rev_section_score(tiles, a, me, n - 1) + cell_term(tiles[a + 4 - (n - 1)], me, n - 1)
    }
}

/// Flat score of the number-die half by its kind alone.
pub open spec fn number_part_score(nm: NumberDieMove) -> int {
    match nm {
        NumberDieMove::MovePiece { from, eats, .. } => (match from {
            MoveFrom::Home => 400int,
            MoveFrom::Board(_) => 10int,
        }) + if eats {
            200int
        } else {
            0int
        },
        NumberDieMove::MoveToGoal { .. } => 500,
        NumberDieMove::DoNothing => -200,
    }
}

/// Flat score of a whole move: the number half by its kind, an arc spin by
/// how it improves the arc for the mover after the number half, a board
/// rotation by a flat aversion.
pub open spec fn spec_twist_move_score(b: TwistBoard, me: PlayerColor, m: TwistMove) -> int {
    number_part_score(m.0) + (match m.1 {
        ActionDieMove::SpinSection(sec) => {
            let t = t_number_tiles(b, me, m.0);
            rev_section_score(t, sec.spec_start(), me, 5) - fwd_section_score(
                t,
                sec.spec_start(),
                me,
                5,
            )
        },
        ActionDieMove::RotateBoard => -1000,
        ActionDieMove::DoNothing => 0,
    })
}

/// The flat weight of arc cell `j`.
fn spin_weight_exec(j: usize) -> (r: i64)
    requires
        j < 5,
    ensures
        r == spin_weight(j as int),
        -3 <= r <= 6,
{
    if j == 0 {
        -3
    } else if j == 1 {
        -2
    } else if j == 2 {
        0
    } else if j == 3 {
        4
    } else {
        6
    }
}

/// The contribution of one arc cell for mover `me`.
fn cell_term_exec(c: BoardCell, me: PlayerColor, j: usize) -> (r: i64)
    requires
        j < 5,
    ensures
        r == cell_term(c, me, j as int),
        -6 <= r <= 6,
{
    match c {
        Some(p) => {
            let w = spin_weight_exec(j);
            if p == me {
                w
            } else {
                -w
            }
        },
        None => 0,
    }
}

/// Flat score of one move: how attractive it looks without any look-ahead.
pub fn score_move(mov: &TwistMove, board: &TwistBoard, ctx: &GameContext) -> (r: i64)
    requires
        board.wf(),
        ctx.wf_for(*board),
        number_move_ok(*board, ctx.current_player, ctx.die.number as int, mov.0),
    ensures
        r == spec_twist_move_score(*board, ctx.current_player, *mov),
        -2000 <= r <= 2000,
{
    let mut score: i64 = match &mov.0 {
        NumberDieMove::MovePiece { from, eats, .. } => {
            let base: i64 = match from {
                MoveFrom::Home => 400,
                MoveFrom::Board(_) => 10,
            };
            if *eats {
                base + 200
            } else {
                base
            }
        },
        NumberDieMove::MoveToGoal { .. } => 500,
        NumberDieMove::DoNothing => -200,
    };

    match &mov.1 {
        ActionDieMove::SpinSection(section) => {
            let number_only = TwistMove(mov.0, ActionDieMove::DoNothing);
            proof {
                let ghost dice2 = DieResult {
                    number: ctx.die.number,
                    action: ActionDie::DoNothing,
                };
                assert(twist_move_ok(*board, ctx.current_player, dice2, number_only));
                lemma_twist_move_ok_applicable(*board, ctx.current_player, dice2, number_only);
            }
            let board_after_move = board.with_move(ctx.current_player, &number_only);
            let cells = board_after_move.get_spin_section(*section);
            let ghost t = t_number_tiles(*board, ctx.current_player, mov.0);
            proof {
                assert(board_after_move.tiles@ == t);
                assert(forall|j: int| 0 <= j < 5 ==> cells@[j] == t[section.spec_start() + j]);
            }
            let mut before: i64 = 0;
            let mut after: i64 = 0;
            let mut j: usize = 0;
            while j < 5
                invariant
                    cells@.len() == 5,
                    forall|t2: int|
                        0 <= t2 < 5 ==> cells@[t2] == t[section.spec_start() + t2],
                    j <= 5,
                    before == fwd_section_score(
                        t,
                        section.spec_start(),
                        ctx.current_player,
                        j as int,
                    ),
                    after == rev_section_score(
                        t,
                        section.spec_start(),
                        ctx.current_player,
                        j as int,
                    ),
                    -6 * j <= before <= 6 * j,
                    -6 * j <= after <= 6 * j,
                decreases 5 - j,
            {
                before = before + cell_term_exec(cells[j], ctx.current_player, j);
                after = after + cell_term_exec(cells[4 - j], ctx.current_player, j);
                j = j + 1;
            }
            score = score + (after - before);
        },
        ActionDieMove::RotateBoard => {
            score = score - 1000;
        },
        ActionDieMove::DoNothing => {},
    }
    score
}

/// Plays the best-looking move by the flat move score, never rotating the
/// board (the flat score cannot judge a rotation).
#[derive(Clone, Copy)]
pub struct TwistScoreMovePlayer;

impl NamedPlayer for TwistScoreMovePlayer {
    fn name(&self) -> &'static str {
        "Score Move"
    }
}

/// Indices of the moves that do not rotate the board, and their flat
/// scores, index for index.
fn score_non_rotating_moves(
    ctx: &GameContext,
    board: &TwistBoard,
    moves: &Vec<TwistMove>,
) -> (r: (Vec<usize>, Vec<i64>))
    requires
        board.wf(),
        ctx.wf_for(*board),
        moves@.contains(TwistMove(NumberDieMove::DoNothing, ActionDieMove::DoNothing)),
        forall|k: int|
            0 <= k < moves@.len() ==> twist_move_ok(
                *board,
                ctx.current_player,
                ctx.die,
                #[trigger] moves@[k],
            ),
    ensures
        r.0@.len() == r.1@.len(),
        r.0@.len() >= 1,
        forall|t: int|
            0 <= t < r.0@.len() ==> (#[trigger] r.0@[t]) < moves@.len() && moves@[r.0@[t] as int].1
                != ActionDieMove::RotateBoard && r.1@[t] == spec_twist_move_score(
                *board,
                ctx.current_player,
                moves@[r.0@[t] as int],
            ),
        forall|k: int|
            0 <= k < moves@.len() && (#[trigger] moves@[k]).1 != ActionDieMove::RotateBoard
                ==> exists|t: int| 0 <= t < r.0@.len() && (#[trigger] r.0@[t]) as int == k,
{
    let mut kept: Vec<usize> = Vec::new();
    let mut scores: Vec<i64> = Vec::new();
    let mut k: usize = 0;
    while k < moves.len()
        invariant
            board.wf(),
            ctx.wf_for(*board),
            forall|k2: int|
                0 <= k2 < moves@.len() ==> twist_move_ok(
                    *board,
                    ctx.current_player,
                    ctx.die,
                    #[trigger] moves@[k2],
                ),
            k <= moves@.len(),
            kept@.len() == scores@.len(),
            forall|t: int|
                0 <= t < kept@.len() ==> (#[trigger] kept@[t]) < k && moves@[kept@[t] as int].1
                    != ActionDieMove::RotateBoard && scores@[t] == spec_twist_move_score(
                    *board,
                    ctx.current_player,
                    moves@[kept@[t] as int],
                ),
            forall|k2: int|
                0 <= k2 < k && (#[trigger] moves@[k2]).1 != ActionDieMove::RotateBoard
                    ==> exists|t: int| 0 <= t < kept@.len() && (#[trigger] kept@[t]) as int == k2,
        decreases moves@.len() - k,
    {
        let ghost prev_kept = kept@;
        let rotates = match &moves[k].1 {
            ActionDieMove::RotateBoard => true,
            _ => false,
        };
        if !rotates {
            let sc = score_move(&moves[k], board, ctx);
            kept.push(k);
            scores.push(sc);
            proof {
                assert forall|k2: int|
                    0 <= k2 < k + 1 && (#[trigger] moves@[k2]).1 != ActionDieMove::RotateBoard
                        implies exists|t: int|
                    0 <= t < kept@.len() && (#[trigger] kept@[t]) as int == k2 by {
                    if k2 == k as int {
                        assert(kept@[kept@.len() - 1] as int == k2);
                    } else {
                        let t0 = choose|t0: int|
                            0 <= t0 < prev_kept.len() && (#[trigger] prev_kept[t0]) as int == k2;
                        assert(kept@[t0] as int == k2);
                    }
                }
            }
        }
        k = k + 1;
    }
    proof {
        let i = choose|i: int|
            0 <= i < moves@.len() && moves@[i] == TwistMove(
                NumberDieMove::DoNothing,
                ActionDieMove::DoNothing,
            );
        assert(exists|t: int| 0 <= t < kept@.len() && (#[trigger] kept@[t]) as int == i);
        assert(kept@.len() > 0);
    }
    (kept, scores)
}

impl TwistPlayer for TwistScoreMovePlayer {
    fn select_move(
        &mut self,
        ctx: &GameContext,
        board: &TwistBoard,
        moves: &Vec<TwistMove>,
        rng: &mut rand::rngs::SmallRng,
    ) -> (r: usize)
        ensures
            moves@[r as int].1 != ActionDieMove::RotateBoard,
            forall|k: int|
                0 <= k < moves@.len() && (#[trigger] moves@[k]).1 != ActionDieMove::RotateBoard
                    ==> spec_twist_move_score(*board, ctx.current_player, moves@[k])
                    <= spec_twist_move_score(*board, ctx.current_player, moves@[r as int]),
    {
        let pair = score_non_rotating_moves(ctx, board, moves);
        let kept = pair.0;
        let scores = pair.1;
        let t = crate::players::first_argmax(&scores);
        proof {
            assert forall|k: int|
                0 <= k < moves@.len() && (#[trigger] moves@[k]).1 != ActionDieMove::RotateBoard
                    implies spec_twist_move_score(*board, ctx.current_player, moves@[k])
                <= spec_twist_move_score(*board, ctx.current_player, moves@[kept@[t as int] as int])
                by {
                let t2 = choose|t2: int|
                    0 <= t2 < kept@.len() && (#[trigger] kept@[t2]) as int == k;
                assert(kept@[t2] < moves@.len() && scores@[t2] == spec_twist_move_score(
                    *board,
                    ctx.current_player,
                    moves@[kept@[t2] as int],
                ));
                assert(kept@[t as int] < moves@.len() && scores@[t as int]
                    == spec_twist_move_score(
                    *board,
                    ctx.current_player,
                    moves@[kept@[t as int] as int],
                ));
                assert(scores@[t2] <= scores@[t as int]);
            }
        }
        kept[t]
    }
}

/// Plays the worst-looking move by the flat move score, never rotating the
/// board.
#[derive(Clone, Copy)]
pub struct TwistWorstScoreMovePlayer;

impl NamedPlayer for TwistWorstScoreMovePlayer {
    fn name(&self) -> &'static str {
        "Worst Score Move"
    }
}

impl TwistPlayer for TwistWorstScoreMovePlayer {
    fn select_move(
        &mut self,
        ctx: &GameContext,
        board: &TwistBoard,
        moves: &Vec<TwistMove>,
        rng: &mut rand::rngs::SmallRng,
    ) -> (r: usize)
        ensures
            moves@[r as int].1 != ActionDieMove::RotateBoard,
            forall|k: int|
                0 <= k < moves@.len() && (#[trigger] moves@[k]).1 != ActionDieMove::RotateBoard
                    ==> spec_twist_move_score(*board, ctx.current_player, moves@[r as int])
                    <= spec_twist_move_score(*board, ctx.current_player, moves@[k]),
    {
        let pair = score_non_rotating_moves(ctx, board, moves);
        let kept = pair.0;
        let scores = pair.1;
        let t = crate::players::first_argmin(&scores);
        proof {
            assert forall|k: int|
                0 <= k < moves@.len() && (#[trigger] moves@[k]).1 != ActionDieMove::RotateBoard
                    implies spec_twist_move_score(
                *board,
                ctx.current_player,
                moves@[kept@[t as int] as int],
            ) <= spec_twist_move_score(*board, ctx.current_player, moves@[k]) by {
                let t2 = choose|t2: int|
                    0 <= t2 < kept@.len() && (#[trigger] kept@[t2]) as int == k;
                assert(kept@[t2] < moves@.len() && scores@[t2] == spec_twist_move_score(
                    *board,
                    ctx.current_player,
                    moves@[kept@[t2] as int],
                ));
                assert(kept@[t as int] < moves@.len() && scores@[t as int]
                    == spec_twist_move_score(
                    *board,
                    ctx.current_player,
                    moves@[kept@[t as int] as int],
                ));
                assert(scores@[t as int] <= scores@[t2]);
            }
        }
        kept[t]
    }
}

/// Position value of one piece under the one-ply board heuristic.
pub open spec fn t_piece_points(
    b: TwistBoard,
    me: PlayerColor,
    other: PlayerColor,
    p: PiecePosition,
) -> int {
    match p {
        PiecePosition::Board(pos) => 100 + (if pos as int == TwistBoard::start_of(me) {
            -50int
        } else if pos as int == TwistBoard::start_of(other) && b.waiting(other) > 0 {
            -200int
        } else {
            -TwistBoard::cw_dist(pos as int, TwistBoard::entrance_of(b.rotation, me))
        }),
        PiecePosition::Goal(_) => 1000,
    }
}

/// Sum of the position values of `plist[..n]`.
pub open spec fn t_points_upto(
    b: TwistBoard,
    me: PlayerColor,
    other: PlayerColor,
    plist: Seq<PiecePosition>,
    n: int,
) -> int
    decreases n,
{
    if n <= 0 {
        0
    } else {
        t_points_upto(b, me, other, plist, n - 1) + t_piece_points(b, me, other, plist[n - 1])
    }
}

/// The cached piece list of color `c`, which must be one of the players.
pub open spec fn t_side_pieces(b: TwistBoard, c: PlayerColor) -> Seq<PiecePosition> {
    if c == b.players.0 {
        b.piece_cache.0@
    } else {
        b.piece_cache.1@
    }
}

/// The one-ply board heuristic: win sentinels on a decided board, otherwise
/// the mover's position values minus the opponent's.
pub open spec fn spec_score_board(b: TwistBoard, cur: PlayerColor, oth: PlayerColor) -> int {
    match b.spec_winner() {
        Some(w) => if w == cur {
            100_000
        } else {
            -100_000
        },
        None => {
            let own = t_side_pieces(b, cur);
            let opp = t_side_pieces(b, oth);
            t_points_upto(b, cur, oth, own, own.len() as int) - t_points_upto(
                b,
                oth,
                cur,
                opp,
                opp.len() as int,
            )
        },
    }
}

/// A twist piece list of a well-formed board holds at most four sound
/// positions.
proof fn lemma_t_side_pieces_sound(b: TwistBoard, c: PlayerColor)
    requires
        b.wf(),
        b.is_player(c),
    ensures
        t_side_pieces(b, c).len() <= 4,
        forall|k: int|
            0 <= k < t_side_pieces(b, c).len() ==> (match #[trigger] t_side_pieces(b, c)[k] {
                PiecePosition::Board(i) => i < 32,
                PiecePosition::Goal(g) => g < 3,
            }),
{
    assert(b.waiting(c) + crate::seqcount::color_count(b.tiles@, c)
        + crate::seqcount::filled_count(b.goal_of(c)) == 4);
    crate::seqcount::lemma_color_count_bounds(b.tiles@, c);
    crate::seqcount::lemma_filled_count_bounds(b.goal_of(c));
}

proof fn lemma_t_points_upto_bounds(
    b: TwistBoard,
    me: PlayerColor,
    other: PlayerColor,
    plist: Seq<PiecePosition>,
    n: int,
)
    requires
        0 <= n <= plist.len(),
        forall|k: int|
            0 <= k < plist.len() ==> (#[trigger] plist[k] matches PiecePosition::Board(i) ==> i
                < 32),
    ensures
        -1000 * n <= t_points_upto(b, me, other, plist, n) <= 1000 * n,
    decreases n,
{
    if n > 0 {
        lemma_t_points_upto_bounds(b, me, other, plist, n - 1);
    }
}

/// Exec sum of the position values of one side's pieces.
fn side_points(
    board: &TwistBoard,
    me: PlayerColor,
    other: PlayerColor,
    plist: &Vec<PiecePosition>,
) -> (r: i64)
    requires
        board.wf(),
        plist@.len() <= 4,
        forall|k: int|
            0 <= k < plist@.len() ==> (#[trigger] plist@[k] matches PiecePosition::Board(i) ==> i
                < 32),
    ensures
        r == t_points_upto(*board, me, other, plist@, plist@.len() as int),
        -4000 <= r <= 4000,
{
    let my_home = TwistBoard::get_start(me);
    let enemy_home = TwistBoard::get_start(other);
    let other_waiting = board.home_bases[other.index()].pieces_waiting;
    let mut r: i64 = 0;
    let mut k: usize = 0;
    while k < plist.len()
        invariant
            board.wf(),
            plist@.len() <= 4,
            forall|j: int|
                0 <= j < plist@.len() ==> (#[trigger] plist@[j] matches PiecePosition::Board(i)
                    ==> i < 32),
            my_home == TwistBoard::start_of(me),
            enemy_home == TwistBoard::start_of(other),
            other_waiting as int == board.waiting(other),
            k <= plist@.len(),
            r == t_points_upto(*board, me, other, plist@, k as int),
            -1000 * k <= r <= 1000 * k,
        decreases plist@.len() - k,
    {
        match plist[k] {
            PiecePosition::Board(pos) => {
                let mut piece: i64 = 100;
                if pos == my_home {
                    piece = piece - 50;
                } else if pos == enemy_home && other_waiting > 0 {
                    piece = piece - 200;
                } else {
                    piece = piece - board.distance_to_goal(me, pos) as i64;
                }
                r = r + piece;
            },
            PiecePosition::Goal(_) => {
                r = r + 1000;
            },
        }
        k = k + 1;
    }
    r
}

/// Score a position one ply deep: the mover's standing minus the waiting
/// player's.
pub fn score_board(board: &TwistBoard, ctx: &GameContext) -> (r: i64)
    requires
        board.wf(),
        ctx.wf_for(*board),
    ensures
        r == spec_score_board(*board, ctx.current_player, ctx.other_player),
        -100_000 <= r <= 100_000,
{
    match board.get_winner() {
        Some(winner) => {
            if winner == ctx.current_player {
                return 100_000;
            } else {
                return -100_000;
            }
        },
        None => {},
    }
    proof {
        lemma_t_side_pieces_sound(*board, ctx.current_player);
        lemma_t_side_pieces_sound(*board, ctx.other_player);
        lemma_t_points_upto_bounds(
            *board,
            ctx.current_player,
            ctx.other_player,
            t_side_pieces(*board, ctx.current_player),
            t_side_pieces(*board, ctx.current_player).len() as int,
        );
        lemma_t_points_upto_bounds(
            *board,
            ctx.other_player,
            ctx.current_player,
            t_side_pieces(*board, ctx.other_player),
            t_side_pieces(*board, ctx.other_player).len() as int,
        );
    }
    let pieces_pair = board.get_pieces(ctx.current_player);
    let own = side_points(board, ctx.current_player, ctx.other_player, pieces_pair.0);
    let opp = side_points(board, ctx.other_player, ctx.current_player, pieces_pair.1);
    own - opp
}

/// Position value of one piece under the game-stretching board heuristic:
/// getting captured is good, scoring is bad.
pub open spec fn t_piece_points_long(
    b: TwistBoard,
    me: PlayerColor,
    other: PlayerColor,
    p: PiecePosition,
) -> int {
    match p {
        PiecePosition::Board(pos) => 100 + (if pos as int == TwistBoard::start_of(other) {
            200int
        } else if pos as int == TwistBoard::start_of(me) {
            -50int
        } else {
            -TwistBoard::cw_dist(pos as int, TwistBoard::entrance_of(b.rotation, me))
        }),
        PiecePosition::Goal(_) => -1000,
    }
}

/// Sum of the game-stretching position values of `plist[..n]`.
pub open spec fn t_points_long_upto(
    b: TwistBoard,
    me: PlayerColor,
    other: PlayerColor,
    plist: Seq<PiecePosition>,
    n: int,
) -> int
    decreases n,
{
    if n <= 0 {
        0
    } else {
        t_points_long_upto(b, me, other, plist, n - 1) + t_piece_points_long(
            b,
            me,
            other,
            plist[n - 1],
        )
    }
}

/// The game-stretching board heuristic: any finished game is bad, and both
/// sides' standing counts against the score.
pub open spec fn spec_score_board_max_length(
    b: TwistBoard,
    cur: PlayerColor,
    oth: PlayerColor,
) -> int {
    if b.spec_winner() is Some {
        -100_000
    } else {
        let own = t_side_pieces(b, cur);
        let opp = t_side_pieces(b, oth);
        t_points_long_upto(b, cur, oth, own, own.len() as int) + t_points_long_upto(
            b,
            oth,
            cur,
            opp,
            opp.len() as int,
        )
    }
}

proof fn lemma_t_points_long_upto_bounds(
    b: TwistBoard,
    me: PlayerColor,
    other: PlayerColor,
    plist: Seq<PiecePosition>,
    n: int,
)
    requires
        0 <= n <= plist.len(),
        forall|k: int|
            0 <= k < plist.len() ==> (#[trigger] plist[k] matches PiecePosition::Board(i) ==> i
                < 32),
    ensures
        -1000 * n <= t_points_long_upto(b, me, other, plist, n) <= 1000 * n,
    decreases n,
{
    if n > 0 {
        lemma_t_points_long_upto_bounds(b, me, other, plist, n - 1);
    }
}

/// Exec sum of the game-stretching position values of one side's pieces.
fn side_points_long(
    board: &TwistBoard,
    me: PlayerColor,
    other: PlayerColor,
    plist: &Vec<PiecePosition>,
) -> (r: i64)
    requires
        board.wf(),
        plist@.len() <= 4,
        forall|k: int|
            0 <= k < plist@.len() ==> (#[trigger] plist@[k] matches PiecePosition::Board(i) ==> i
                < 32),
    ensures
        r == t_points_long_upto(*board, me, other, plist@, plist@.len() as int),
        -4000 <= r <= 4000,
{
    let my_home = TwistBoard::get_start(me);
    let enemy_home = TwistBoard::get_start(other);
    let mut r: i64 = 0;
    let mut k: usize = 0;
    while k < plist.len()
        invariant
            board.wf(),
            plist@.len() <= 4,
            forall|j: int|
                0 <= j < plist@.len() ==> (#[trigger] plist@[j] matches PiecePosition::Board(i)
                    ==> i < 32),
            my_home == TwistBoard::start_of(me),
            enemy_home == TwistBoard::start_of(other),
            k <= plist@.len(),
            r == t_points_long_upto(*board, me, other, plist@, k as int),
            -1000 * k <= r <= 1000 * k,
        decreases plist@.len() - k,
    {
        match plist[k] {
            PiecePosition::Board(pos) => {
                let mut piece: i64 = 100;
                if pos == enemy_home {
                    piece = piece + 200;
                } else if pos == my_home {
                    piece = piece - 50;
                } else {
                    piece = piece - board.distance_to_goal(me, pos) as i64;
                }
                r = r + piece;
            },
            PiecePosition::Goal(_) => {
                r = r - 1000;
            },
        }
        k = k + 1;
    }
    r
}

/// Score a position for game length: both sides' progress counts against it.
pub fn score_board_max_length(board: &TwistBoard, ctx: &GameContext) -> (r: i64)
    requires
        board.wf(),
        ctx.wf_for(*board),
    ensures
        r == spec_score_board_max_length(*board, ctx.current_player, ctx.other_player),
        -100_000 <= r <= 100_000,
{
    match board.get_winner() {
        Some(_) => {
            return -100_000;
        },
        None => {},
    }
    proof {
        lemma_t_side_pieces_sound(*board, ctx.current_player);
        lemma_t_side_pieces_sound(*board, ctx.other_player);
        lemma_t_points_long_upto_bounds(
            *board,
            ctx.current_player,
            ctx.other_player,
            t_side_pieces(*board, ctx.current_player),
            t_side_pieces(*board, ctx.current_player).len() as int,
        );
        lemma_t_points_long_upto_bounds(
            *board,
            ctx.other_player,
            ctx.current_player,
            t_side_pieces(*board, ctx.other_player),
            t_side_pieces(*board, ctx.other_player).len() as int,
        );
    }
    let pieces_pair = board.get_pieces(ctx.current_player);
    let own = side_points_long(board, ctx.current_player, ctx.other_player, pieces_pair.0);
    let opp = side_points_long(board, ctx.other_player, ctx.current_player, pieces_pair.1);
    own + opp
}

/// The one-ply value the board-scoring players assign to one candidate:
/// the board heuristic applied to the position the candidate reaches.
pub open spec fn one_ply_value(
    b: TwistBoard,
    cur: PlayerColor,
    oth: PlayerColor,
    maximize_length: bool,
    m: TwistMove,
) -> int {
    let succ = t_board_after(
        b.tiles@,
        t_goals_view(b),
        t_waiting_view(b),
        b.rotation,
        b.players,
        cur,
        m,
    );
    if maximize_length {
        spec_score_board_max_length(succ, cur, oth)
    } else {
        spec_score_board(succ, cur, oth)
    }
}

proof fn lemma_t_points_congruent(
    b1: TwistBoard,
    b2: TwistBoard,
    me: PlayerColor,
    other: PlayerColor,
    plist: Seq<PiecePosition>,
    n: int,
)
    requires
        t_same_position(b1, b2),
    ensures
        t_points_upto(b1, me, other, plist, n) == t_points_upto(b2, me, other, plist, n),
        t_points_long_upto(b1, me, other, plist, n) == t_points_long_upto(b2, me, other, plist, n),
    decreases n,
{
    if n > 0 {
        lemma_t_points_congruent(b1, b2, me, other, plist, n - 1);
        assert(b1.home_bases@[other.idx()] == b2.home_bases@[other.idx()]);
    }
}

proof fn lemma_t_winner_congruent(b1: TwistBoard, b2: TwistBoard)
    requires
        b1.lens_ok(),
        t_same_position(b1, b2),
    ensures
        b1.spec_winner() == b2.spec_winner(),
{
    assert forall|g: int| 0 <= g < 4 implies (b1.spec_won(g) <==> b2.spec_won(g)) by {
        assert(b1.goals@[g]@ == b2.goals@[g]@);
    }
    assert(b1.spec_won(0) <==> b2.spec_won(0));
    assert(b1.spec_won(1) <==> b2.spec_won(1));
    assert(b1.spec_won(2) <==> b2.spec_won(2));
    assert(b1.spec_won(3) <==> b2.spec_won(3));
}

/// Boards holding the same position score the same under both one-ply board
/// heuristics.
proof fn lemma_score_board_congruent(
    b1: TwistBoard,
    b2: TwistBoard,
    cur: PlayerColor,
    oth: PlayerColor,
)
    requires
        b1.lens_ok(),
        t_same_position(b1, b2),
    ensures
        spec_score_board(b1, cur, oth) == spec_score_board(b2, cur, oth),
        spec_score_board_max_length(b1, cur, oth) == spec_score_board_max_length(b2, cur, oth),
{
    lemma_t_winner_congruent(b1, b2);
    assert(t_side_pieces(b1, cur) == t_side_pieces(b2, cur));
    assert(t_side_pieces(b1, oth) == t_side_pieces(b2, oth));
    let own = t_side_pieces(b1, cur);
    let opp = t_side_pieces(b1, oth);
    lemma_t_points_congruent(b1, b2, cur, oth, own, own.len() as int);
    lemma_t_points_congruent(b1, b2, oth, cur, opp, opp.len() as int);
}

/// A board carrying exactly the position reached by `m` fits the
/// applied-move description and holds the same position as the board the
/// one-ply specification scores.
proof fn lemma_t_successor_matches(b: TwistBoard, player: PlayerColor, m: TwistMove, nb: TwistBoard)
    requires
        b.lens_ok(),
        nb.wf(),
        nb.players == b.players,
        nb.rotation == crate::twistboard::t_rotation_after(b, m),
        nb.tiles@ == crate::twistboard::t_result_tiles(b, player, m),
        forall|c: PlayerColor|
            #[trigger] nb.goal_of(c) == (if c == player {
                crate::twistboard::t_moved_goal(b, player, m)
            } else {
                b.goal_of(c)
            }),
        forall|c: PlayerColor|
            #[trigger] nb.waiting(c) == crate::twistboard::t_waiting_after(b, player, m, c),
    ensures
        t_same_position(
            nb,
            t_board_after(b.tiles@, t_goals_view(b), t_waiting_view(b), b.rotation, b.players, player, m),
        ),
{
    assert forall|c: PlayerColor|
        #[trigger] nb.goal_of(c) == (if c == player {
            t_moved_goal_s(t_goals_view(b)[player.idx()], player, m.0)
        } else {
            t_goals_view(b)[c.idx()]
        }) by {
        assert(t_goals_view(b)[c.idx()] == b.goal_of(c));
        assert(t_goals_view(b)[player.idx()] == b.goal_of(player));
    }
    assert forall|c: PlayerColor|
        #[trigger] nb.waiting(c) == t_waiting_after_sv(
        t_waiting_view(b)[c.idx()],
        b.tiles@,
        player,
        m.0,
        c,
    ) by {
        assert(t_waiting_view(b)[c.idx()] == b.waiting(c));
    }
    assert(t_after_core(
        b.tiles@,
        t_goals_view(b),
        t_waiting_view(b),
        b.rotation,
        b.players,
        player,
        m,
        nb,
    ));
    let chosen = t_board_after(
        b.tiles@,
        t_goals_view(b),
        t_waiting_view(b),
        b.rotation,
        b.players,
        player,
        m,
    );
    assert(t_after_core(
        b.tiles@,
        t_goals_view(b),
        t_waiting_view(b),
        b.rotation,
        b.players,
        player,
        m,
        chosen,
    ));
    lemma_t_after_unique(
        b.tiles@,
        t_goals_view(b),
        t_waiting_view(b),
        b.rotation,
        b.players,
        player,
        m,
        nb,
        chosen,
    );
}

/// The scores of all offered moves under a one-ply board evaluation.
fn one_ply_scores(
    ctx: &GameContext,
    board: &TwistBoard,
    moves: &Vec<TwistMove>,
    maximize_length: bool,
) -> (r: Vec<i64>)
    requires
        board.wf(),
        ctx.wf_for(*board),
        forall|k: int|
            0 <= k < moves@.len() ==> twist_move_ok(
                *board,
                ctx.current_player,
                ctx.die,
                #[trigger] moves@[k],
            ),
    ensures
        r@.len() == moves@.len(),
        forall|k: int|
            0 <= k < moves@.len() ==> #[trigger] r@[k] == one_ply_value(
                *board,
                ctx.current_player,
                ctx.other_player,
                maximize_length,
                moves@[k],
            ),
{
    let mut scores: Vec<i64> = Vec::new();
    let mut k: usize = 0;
    while k < moves.len()
        invariant
            board.wf(),
            ctx.wf_for(*board),
            forall|k2: int|
                0 <= k2 < moves@.len() ==> twist_move_ok(
                    *board,
                    ctx.current_player,
                    ctx.die,
                    #[trigger] moves@[k2],
                ),
            k <= moves@.len(),
            scores@.len() == k,
            forall|j: int|
                0 <= j < k ==> #[trigger] scores@[j] == one_ply_value(
                    *board,
                    ctx.current_player,
                    ctx.other_player,
                    maximize_length,
                    moves@[j],
                ),
        decreases moves@.len() - k,
    {
        proof {
            lemma_twist_move_ok_applicable(
                *board,
                ctx.current_player,
                ctx.die,
                moves@[k as int],
            );
        }
        let board_after_move = board.with_move(ctx.current_player, &moves[k]);
        proof {
            lemma_t_successor_matches(
                *board,
                ctx.current_player,
                moves@[k as int],
                board_after_move,
            );
            let chosen = t_board_after(
                board.tiles@,
                t_goals_view(*board),
                t_waiting_view(*board),
                board.rotation,
                board.players,
                ctx.current_player,
                moves@[k as int],
            );
            lemma_score_board_congruent(
                board_after_move,
                chosen,
                ctx.current_player,
                ctx.other_player,
            );
        }
        let sc = if maximize_length {
            score_board_max_length(&board_after_move, ctx)
        } else {
            score_board(&board_after_move, ctx)
        };
        scores.push(sc);
        k = k + 1;
    }
    scores
}

/// Plays the move whose resulting position scores best one ply deep.
#[derive(Clone, Copy)]
pub struct TwistScoreBoardPlayer;

impl NamedPlayer for TwistScoreBoardPlayer {
    fn name(&self) -> &'static str {
        "Score Board"
    }
}

impl TwistPlayer for TwistScoreBoardPlayer {
    /// The returned candidate's one-ply value dominates every offered one.
    fn select_move(
        &mut self,
        ctx: &GameContext,
        board: &TwistBoard,
        moves: &Vec<TwistMove>,
        rng: &mut rand::rngs::SmallRng,
    ) -> (r: usize)
        ensures
            forall|k: int|
                0 <= k < moves@.len() ==> one_ply_value(
                    *board,
                    ctx.current_player,
                    ctx.other_player,
                    false,
                    #[trigger] moves@[k],
                ) <= one_ply_value(
                    *board,
                    ctx.current_player,
                    ctx.other_player,
                    false,
                    moves@[r as int],
                ),
    {
        let scores = one_ply_scores(ctx, board, moves, false);
        let r = crate::players::first_argmax(&scores);
        proof {
            assert forall|k: int|
                0 <= k < moves@.len() implies one_ply_value(
                *board,
                ctx.current_player,
                ctx.other_player,
                false,
                #[trigger] moves@[k],
            ) <= one_ply_value(
                *board,
                ctx.current_player,
                ctx.other_player,
                false,
                moves@[r as int],
            ) by {
                assert(scores@[k] <= scores@[r as int]);
            }
        }
        r
    }
}

/// Plays the move whose resulting position scores worst one ply deep.
#[derive(Clone, Copy)]
pub struct TwistScoreBoardPlayerWorst;

impl NamedPlayer for TwistScoreBoardPlayerWorst {
    fn name(&self) -> &'static str {
        "Score Board Worst"
    }
}

impl TwistPlayer for TwistScoreBoardPlayerWorst {
    /// The returned candidate's one-ply value is dominated by every offered
    /// one.
    fn select_move(
        &mut self,
        ctx: &GameContext,
        board: &TwistBoard,
        moves: &Vec<TwistMove>,
        rng: &mut rand::rngs::SmallRng,
    ) -> (r: usize)
        ensures
            forall|k: int|
                0 <= k < moves@.len() ==> one_ply_value(
                    *board,
                    ctx.current_player,
                    ctx.other_player,
                    false,
                    moves@[r as int],
                ) <= one_ply_value(
                    *board,
                    ctx.current_player,
                    ctx.other_player,
                    false,
                    #[trigger] moves@[k],
                ),
    {
        let scores = one_ply_scores(ctx, board, moves, false);
        let r = crate::players::first_argmin(&scores);
        proof {
            assert forall|k: int|
                0 <= k < moves@.len() implies one_ply_value(
                *board,
                ctx.current_player,
                ctx.other_player,
                false,
                moves@[r as int],
            ) <= one_ply_value(
                *board,
                ctx.current_player,
                ctx.other_player,
                false,
                #[trigger] moves@[k],
            ) by {
                assert(scores@[r as int] <= scores@[k]);
            }
        }
        r
    }
}

/// Plays the move that promises the longest game one ply deep.
#[derive(Clone, Copy)]
pub struct TwistScoreBoardPlayerMaximizeLength;

impl NamedPlayer for TwistScoreBoardPlayerMaximizeLength {
    fn name(&self) -> &'static str {
        "Score Board Maximize Length"
    }
}

impl TwistPlayer for TwistScoreBoardPlayerMaximizeLength {
    /// The returned candidate promises the longest game one ply deep.
    fn select_move(
        &mut self,
        ctx: &GameContext,
        board: &TwistBoard,
        moves: &Vec<TwistMove>,
        rng: &mut rand::rngs::SmallRng,
    ) -> (r: usize)
        ensures
            forall|k: int|
                0 <= k < moves@.len() ==> one_ply_value(
                    *board,
                    ctx.current_player,
                    ctx.other_player,
                    true,
                    #[trigger] moves@[k],
                ) <= one_ply_value(
                    *board,
                    ctx.current_player,
                    ctx.other_player,
                    true,
                    moves@[r as int],
                ),
    {
        let scores = one_ply_scores(ctx, board, moves, true);
        let r = crate::players::first_argmax(&scores);
        proof {
            assert forall|k: int|
                0 <= k < moves@.len() implies one_ply_value(
                *board,
                ctx.current_player,
                ctx.other_player,
                true,
                #[trigger] moves@[k],
            ) <= one_ply_value(
                *board,
                ctx.current_player,
                ctx.other_player,
                true,
                moves@[r as int],
            ) by {
                assert(scores@[k] <= scores@[r as int]);
            }
        }
        r
    }
}

} // verus!
