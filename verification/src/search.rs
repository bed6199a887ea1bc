use vstd::prelude::*;

use crate::board::{
    action_move_ok, after_core, board_after, goals_view, lemma_after_unique,
    lemma_move_ok_applicable, lemma_same_position_wf, lemma_winner_after_move, same_position,
    side_pieces, spec_move_list, waiting_view, Board, StruggleMove,
};
use crate::boardhash::get_board_hash;
use crate::color::PlayerColor;
use crate::eval::{
    DefaultEvaluator, Evaluator, HomeCountEvaluator, LengthEvaluator, MinimalEvaluator,
    MobilityEvaluator, NegatedEvaluator, OneAtATimeEvaluator, SupportEvaluator, WIN_SCORE,
};
use crate::players::{argmax_random, GameContext, RandomPlayer, StrugglePlayer};
use crate::seqcount::filled_count;
use crate::tcache::TranspositionTable;
use crate::turn::NamedPlayer;

verus! {

/// Division truncated toward zero, exactly as the engine's machine
/// division computes it.
pub open spec fn div_toward_zero(v: int, d: int) -> int
    recommends
        d > 0,
{
    if v >= 0 {
        v / d
    } else {
        -((-v) / d)
    }
}

/// A score clamped into the sentinel range.
pub open spec fn clamp_score(v: int) -> int {
    if v < -(WIN_SCORE as int) {
        -(WIN_SCORE as int)
    } else if v > WIN_SCORE as int {
        WIN_SCORE as int
    } else {
        v
    }
}

/// The color that moves after `cur` played on die face `d`: the maximum face
/// grants the same mover another turn.
pub open spec fn next_mover(cur: PlayerColor, maxp: PlayerColor, minp: PlayerColor, d: int)
    -> PlayerColor {
    if d == 6 {
        cur
    } else if cur == maxp {
        minp
    } else {
        maxp
    }
}

/// The value of one candidate move of `cur`: the win sentinel when the move
/// decides the game on the spot, otherwise the search value of the reached
/// position, one ply deeper.  Consulted only with at least one ply
/// remaining; the guard on `rem` is the recursion's base.
pub open spec fn spec_move_value<E: Evaluator>(
    e: E,
    b: Board,
    cur: PlayerColor,
    maxp: PlayerColor,
    minp: PlayerColor,
    rem: nat,
    d: int,
    m: StruggleMove,
) -> int
    decreases rem, 0int, 0int,
{
    let b2 = board_after(b.tiles@, goals_view(b), waiting_view(b), b.players, cur, m);
    if b2.spec_winner() is Some {
        if cur == maxp {
            WIN_SCORE as int
        } else {
            -(WIN_SCORE as int)
        }
    } else if rem >= 1 {
        spec_search(e, b2, next_mover(cur, maxp, minp, d), maxp, minp, (rem - 1) as nat)
    } else {
        0
    }
}

/// The best value among the candidates `lst[..n]`: the maximum when `cur` is
/// the maximizing color, the minimum otherwise, grown from the matching
/// sentinel, which every candidate value dominates.
pub open spec fn face_best<E: Evaluator>(
    e: E,
    b: Board,
    cur: PlayerColor,
    maxp: PlayerColor,
    minp: PlayerColor,
    rem: nat,
    d: int,
    lst: Seq<StruggleMove>,
    n: int,
) -> int
    decreases rem, 1int, n,
{
    if n <= 0 {
        if cur == maxp {
            -(WIN_SCORE as int)
        } else {
            WIN_SCORE as int
        }
    } else {
        let prev = face_best(e, b, cur, maxp, minp, rem, d, lst, n - 1);
        let v = spec_move_value(e, b, cur, maxp, minp, rem, d, lst[n - 1]);
        if cur == maxp {
            if v > prev {
                v
            } else {
                prev
            }
        } else {
            if v < prev {
                v
            } else {
                prev
            }
        }
    }
}

/// The value of one die face: the mover's best continuation over its legal
/// move list.
pub open spec fn spec_face<E: Evaluator>(
    e: E,
    b: Board,
    cur: PlayerColor,
    maxp: PlayerColor,
    minp: PlayerColor,
    rem: nat,
    d: int,
) -> int
    decreases rem, 2int, 0int,
{
    let lst = spec_move_list(b, cur, d);
    face_best(e, b, cur, maxp, minp, rem, d, lst, lst.len() as int)
}

/// Sum of the values of die faces `1..=n`.
pub open spec fn face_sum<E: Evaluator>(
    e: E,
    b: Board,
    cur: PlayerColor,
    maxp: PlayerColor,
    minp: PlayerColor,
    rem: nat,
    n: int,
) -> int
    decreases rem, 3int, n,
{
    if n <= 0 {
        0
    } else {
        face_sum(e, b, cur, maxp, minp, rem, n - 1) + spec_face(e, b, cur, maxp, minp, rem, n)
    }
}

/// The expectiminimax value of a position: at no remaining depth the
/// strategy's score, clamped into the sentinel range; above it the uniform
/// average over the six die faces of the mover's best continuation, every
/// face weighted alike and the division truncated exactly as the engine
/// computes it.
pub open spec fn spec_search<E: Evaluator>(
    e: E,
    b: Board,
    cur: PlayerColor,
    maxp: PlayerColor,
    minp: PlayerColor,
    rem: nat,
) -> int
    decreases rem, 4int, 0int,
{
    if rem == 0 {
        clamp_score(e.spec_eval(b, maxp, minp))
    } else {
        div_toward_zero(face_sum(e, b, cur, maxp, minp, rem, 6), 6)
    }
}

/// The value root selection assigns to one candidate of the mover `cur`.
pub open spec fn spec_root_value<E: Evaluator>(
    e: E,
    b: Board,
    cur: PlayerColor,
    oth: PlayerColor,
    dice: int,
    max_depth: u8,
    m: StruggleMove,
) -> int {
    spec_move_value(e, b, cur, cur, oth, (max_depth + 1) as nat, dice, m)
}

proof fn lemma_move_value_bounds<E: Evaluator>(
    e: E,
    b: Board,
    cur: PlayerColor,
    maxp: PlayerColor,
    minp: PlayerColor,
    rem: nat,
    d: int,
    m: StruggleMove,
)
    ensures
        -(WIN_SCORE as int) <= spec_move_value(e, b, cur, maxp, minp, rem, d, m) <= WIN_SCORE
            as int,
    decreases rem, 0int, 0int,
{
    let b2 = board_after(b.tiles@, goals_view(b), waiting_view(b), b.players, cur, m);
    if !(b2.spec_winner() is Some) && rem >= 1 {
        lemma_search_bounds(e, b2, next_mover(cur, maxp, minp, d), maxp, minp, (rem - 1) as nat);
    }
}

proof fn lemma_face_best_bounds<E: Evaluator>(
    e: E,
    b: Board,
    cur: PlayerColor,
    maxp: PlayerColor,
    minp: PlayerColor,
    rem: nat,
    d: int,
    lst: Seq<StruggleMove>,
    n: int,
)
    ensures
        -(WIN_SCORE as int) <= face_best(e, b, cur, maxp, minp, rem, d, lst, n) <= WIN_SCORE
            as int,
    decreases rem, 1int, n,
{
    if n > 0 {
        lemma_face_best_bounds(e, b, cur, maxp, minp, rem, d, lst, n - 1);
        lemma_move_value_bounds(e, b, cur, maxp, minp, rem, d, lst[n - 1]);
    }
}

proof fn lemma_face_sum_bounds<E: Evaluator>(
    e: E,
    b: Board,
    cur: PlayerColor,
    maxp: PlayerColor,
    minp: PlayerColor,
    rem: nat,
    n: int,
)
    requires
        n >= 0,
    ensures
        -1_000_000_000 * n <= face_sum(e, b, cur, maxp, minp, rem, n) <= 1_000_000_000 * n,
    decreases rem, 3int, n,
{
    if n > 0 {
        lemma_face_sum_bounds(e, b, cur, maxp, minp, rem, n - 1);
        let lst = spec_move_list(b, cur, n);
        lemma_face_best_bounds(e, b, cur, maxp, minp, rem, n, lst, lst.len() as int);
        assert(spec_face(e, b, cur, maxp, minp, rem, n) == face_best(
            e,
            b,
            cur,
            maxp,
            minp,
            rem,
            n,
            lst,
            lst.len() as int,
        ));
        assert(WIN_SCORE == 1_000_000_000);
    }
}

/// The search value never leaves the sentinel range.
pub proof fn lemma_search_bounds<E: Evaluator>(
    e: E,
    b: Board,
    cur: PlayerColor,
    maxp: PlayerColor,
    minp: PlayerColor,
    rem: nat,
)
    ensures
        -(WIN_SCORE as int) <= spec_search(e, b, cur, maxp, minp, rem) <= WIN_SCORE as int,
    decreases rem, 4int, 0int,
{
    if rem != 0 {
        lemma_face_sum_bounds(e, b, cur, maxp, minp, rem, 6);
        assert(WIN_SCORE == 1_000_000_000);
        let s6 = face_sum(e, b, cur, maxp, minp, rem, 6);
        assert(-(WIN_SCORE as int) <= div_toward_zero(s6, 6) <= WIN_SCORE as int);
    }
}

/// The best over a prefix dominates every candidate listed in it.
proof fn lemma_face_best_dominates<E: Evaluator>(
    e: E,
    b: Board,
    cur: PlayerColor,
    maxp: PlayerColor,
    minp: PlayerColor,
    rem: nat,
    d: int,
    lst: Seq<StruggleMove>,
    n: int,
    j: int,
)
    requires
        0 <= j < n,
    ensures
        cur == maxp ==> spec_move_value(e, b, cur, maxp, minp, rem, d, lst[j]) <= face_best(
            e,
            b,
            cur,
            maxp,
            minp,
            rem,
            d,
            lst,
            n,
        ),
        cur != maxp ==> face_best(e, b, cur, maxp, minp, rem, d, lst, n) <= spec_move_value(
            e,
            b,
            cur,
            maxp,
            minp,
            rem,
            d,
            lst[j],
        ),
    decreases n,
{
    if j < n - 1 {
        lemma_face_best_dominates(e, b, cur, maxp, minp, rem, d, lst, n - 1, j);
    }
}

proof fn lemma_piece_move_list_congruent(
    b1: Board,
    b2: Board,
    player: PlayerColor,
    dice: int,
    plist: Seq<crate::board::PiecePosition>,
    n: int,
)
    requires
        b1.lens_ok(),
        same_position(b1, b2),
    ensures
        crate::board::piece_move_list(b1, player, dice, plist, n) == crate::board::piece_move_list(
            b2,
            player,
            dice,
            plist,
            n,
        ),
    decreases n,
{
    if n > 0 {
        lemma_piece_move_list_congruent(b1, b2, player, dice, plist, n - 1);
        assert(b1.goal_of(player) == b2.goal_of(player)) by {
            assert(b1.goals@[player.idx()]@ == b2.goals@[player.idx()]@);
        }
    }
}

proof fn lemma_move_list_congruent(b1: Board, b2: Board, player: PlayerColor, dice: int)
    requires
        b1.lens_ok(),
        same_position(b1, b2),
    ensures
        spec_move_list(b1, player, dice) == spec_move_list(b2, player, dice),
{
    assert(side_pieces(b1, player) == side_pieces(b2, player));
    lemma_piece_move_list_congruent(
        b1,
        b2,
        player,
        dice,
        side_pieces(b1, player),
        side_pieces(b1, player).len() as int,
    );
}

proof fn lemma_face_best_congruent<E: Evaluator>(
    e: E,
    b1: Board,
    b2: Board,
    cur: PlayerColor,
    maxp: PlayerColor,
    minp: PlayerColor,
    rem: nat,
    d: int,
    lst: Seq<StruggleMove>,
    n: int,
)
    requires
        b1.lens_ok(),
        same_position(b1, b2),
    ensures
        face_best(e, b1, cur, maxp, minp, rem, d, lst, n) == face_best(
            e,
            b2,
            cur,
            maxp,
            minp,
            rem,
            d,
            lst,
            n,
        ),
    decreases n,
{
    if n > 0 {
        lemma_face_best_congruent(e, b1, b2, cur, maxp, minp, rem, d, lst, n - 1);
        assert(goals_view(b1) =~= goals_view(b2)) by {
            assert forall|g: int| 0 <= g < 4 implies goals_view(b1)[g] == goals_view(b2)[g] by {
                assert(b1.goals@[g]@ == b2.goals@[g]@);
            }
        }
        assert(waiting_view(b1) =~= waiting_view(b2)) by {
            assert forall|i: int|
                0 <= i < 4 implies waiting_view(b1)[i] == waiting_view(b2)[i] by {
                assert(b1.home_bases@[i] == b2.home_bases@[i]);
            }
        }
        assert(board_after(b1.tiles@, goals_view(b1), waiting_view(b1), b1.players, cur, lst[n - 1])
            == board_after(b2.tiles@, goals_view(b2), waiting_view(b2), b2.players, cur, lst[n - 1]));
        assert(spec_move_value(e, b1, cur, maxp, minp, rem, d, lst[n - 1]) == spec_move_value(
            e,
            b2,
            cur,
            maxp,
            minp,
            rem,
            d,
            lst[n - 1],
        ));
    }
}

proof fn lemma_face_sum_congruent<E: Evaluator>(
    e: E,
    b1: Board,
    b2: Board,
    cur: PlayerColor,
    maxp: PlayerColor,
    minp: PlayerColor,
    rem: nat,
    n: int,
)
    requires
        b1.lens_ok(),
        same_position(b1, b2),
    ensures
        face_sum(e, b1, cur, maxp, minp, rem, n) == face_sum(e, b2, cur, maxp, minp, rem, n),
    decreases n,
{
    if n > 0 {
        lemma_face_sum_congruent(e, b1, b2, cur, maxp, minp, rem, n - 1);
        lemma_move_list_congruent(b1, b2, cur, n);
        let lst = spec_move_list(b1, cur, n);
        lemma_face_best_congruent(e, b1, b2, cur, maxp, minp, rem, n, lst, lst.len() as int);
        assert(spec_face(e, b1, cur, maxp, minp, rem, n) == face_best(
            e,
            b1,
            cur,
            maxp,
            minp,
            rem,
            n,
            lst,
            lst.len() as int,
        ));
        assert(spec_face(e, b2, cur, maxp, minp, rem, n) == face_best(
            e,
            b2,
            cur,
            maxp,
            minp,
            rem,
            n,
            lst,
            lst.len() as int,
        ));
    }
}

/// Boards holding the same position have the same search value: the search
/// specification reads nothing but the position.
pub proof fn lemma_search_congruent<E: Evaluator>(
    e: E,
    b1: Board,
    b2: Board,
    cur: PlayerColor,
    maxp: PlayerColor,
    minp: PlayerColor,
    rem: nat,
)
    requires
        b1.wf(),
        same_position(b1, b2),
    ensures
        spec_search(e, b1, cur, maxp, minp, rem) == spec_search(e, b2, cur, maxp, minp, rem),
{
    if rem == 0 {
        e.lemma_eval_congruent(b1, b2, maxp, minp);
    } else {
        lemma_face_sum_congruent(e, b1, b2, cur, maxp, minp, rem, 6);
    }
}

/// A board carrying exactly the position reached by `m` fits the
/// applied-move description, holds the same position as the board the
/// search specification recurses on, and agrees with it on the winner.
proof fn lemma_successor_matches(b: Board, player: PlayerColor, m: StruggleMove, nb: Board)
    requires
        b.lens_ok(),
        nb.wf(),
        nb.players == b.players,
        nb.tiles@ == crate::board::moved_tiles(b, player, m),
        forall|c: PlayerColor|
            #[trigger] nb.goal_of(c) == (if c == player {
                crate::board::moved_goal(b, player, m)
            } else {
                b.goal_of(c)
            }),
        forall|c: PlayerColor| #[trigger] nb.waiting(c) == crate::board::waiting_after(b, player, m, c),
    ensures
        same_position(nb, board_after(b.tiles@, goals_view(b), waiting_view(b), b.players, player, m)),
        board_after(b.tiles@, goals_view(b), waiting_view(b), b.players, player, m).spec_winner()
            == nb.spec_winner(),
{
    assert forall|c: PlayerColor|
        #[trigger] nb.goal_of(c) == (if c == player {
            crate::board::moved_goal_s(goals_view(b)[player.idx()], player, m)
        } else {
            goals_view(b)[c.idx()]
        }) by {
        assert(goals_view(b)[c.idx()] == b.goal_of(c));
        assert(goals_view(b)[player.idx()] == b.goal_of(player));
    }
    assert forall|c: PlayerColor|
        #[trigger] nb.waiting(c) == crate::board::waiting_after_s(
        waiting_view(b)[c.idx()],
        b.tiles@,
        player,
        m,
        c,
    ) by {
        assert(waiting_view(b)[c.idx()] == b.waiting(c));
    }
    assert(after_core(b.tiles@, goals_view(b), waiting_view(b), b.players, player, m, nb));
    let chosen = board_after(b.tiles@, goals_view(b), waiting_view(b), b.players, player, m);
    assert(after_core(b.tiles@, goals_view(b), waiting_view(b), b.players, player, m, chosen));
    lemma_after_unique(
        b.tiles@,
        goals_view(b),
        waiting_view(b),
        b.players,
        player,
        m,
        nb,
        chosen,
    );
    lemma_same_position_wf(nb, chosen);
}

/// The adversarial search engine: expectiminimax over the six equiprobable
/// die faces, alpha-beta pruning inside each face's move scan, immediate-win
/// short-circuits, and an optional depth-aware transposition cache for leaf
/// values.  The strategy scoring the leaves is chosen at construction.  With
/// the cache off and pruning off its value is exactly `spec_search`.
pub struct GameTreePlayer<E> {
    /// The scoring strategy the search backs.
    pub heuristic: E,
    /// How many plies the search looks ahead.
    pub max_depth: u8,
    pub name: &'static str,
    /// How many positions were scored so far; saturates instead of wrapping.
    pub evaluations: u64,
    pub cache: TranspositionTable,
    /// Whether the transposition cache is consulted; off unless asked for.
    pub use_cache: bool,
    /// Whether dominated branches are cut off; on unless switched off for a
    /// side-by-side comparison against the full expansion.
    pub use_pruning: bool,
}

impl<E: Evaluator> GameTreePlayer<E> {
    /// A search player of the given strategy, look-ahead and display name,
    /// with the cache off and pruning on.
    pub fn new(f: E, max_depth: u8, name: &'static str) -> (r: Self)
        ensures
            r.heuristic == f,
            r.max_depth == max_depth,
            r.evaluations == 0,
            r.use_cache == false,
            r.use_pruning == true,
    {
        GameTreePlayer {
            heuristic: f,
            max_depth,
            name,
            evaluations: 0,
            cache: TranspositionTable::new(),
            use_cache: false,
            use_pruning: true,
        }
    }

    /// The same player with the transposition cache switched on.
    pub fn with_cache(self) -> (r: Self)
        ensures
            r.heuristic == self.heuristic,
            r.max_depth == self.max_depth,
            r.use_cache == true,
            r.use_pruning == self.use_pruning,
    {
        GameTreePlayer { use_cache: true, ..self }
    }

    /// The same player with alpha-beta pruning switched off: every face's
    /// move list is scanned to the end, except past a proven immediate win.
    pub fn without_pruning(self) -> (r: Self)
        ensures
            r.heuristic == self.heuristic,
            r.max_depth == self.max_depth,
            r.use_cache == self.use_cache,
            r.use_pruning == false,
    {
        GameTreePlayer { use_pruning: false, ..self }
    }

    /// Scan one die face's moves for the maximizing mover: the running
    /// maximum with win short-circuit and, when pruning is on, the beta
    /// cutoff.  With cache and pruning off the result is exactly the
    /// specified best value of the face.
    #[verifier::rlimit(100)]
    fn scan_face_max(
        &mut self,
        board: &Board,
        moves: &Vec<StruggleMove>,
        maximizing_player: PlayerColor,
        minimizing_player: PlayerColor,
        dice_roll: u8,
        max_depth: u8,
        depth: u8,
        alpha: i64,
        beta: i64,
    ) -> (r: i64)
        requires
            board.wf(),
            board.spec_winner() is None,
            maximizing_player != minimizing_player,
            board.is_player(maximizing_player),
            board.is_player(minimizing_player),
            depth < max_depth,
            1 <= dice_roll <= 6,
            -WIN_SCORE - 1 <= alpha <= WIN_SCORE + 1,
            -WIN_SCORE - 1 <= beta <= WIN_SCORE + 1,
            moves@.len() >= 1,
            forall|k: int|
                0 <= k < moves@.len() ==> action_move_ok(
                    *board,
                    maximizing_player,
                    dice_roll as int,
                    #[trigger] moves@[k],
                ) || moves@[k] == StruggleMove::SkipTurn,
        ensures
            -WIN_SCORE <= r <= WIN_SCORE,
            final(self).heuristic == old(self).heuristic,
            final(self).max_depth == old(self).max_depth,
            final(self).use_cache == old(self).use_cache,
            final(self).use_pruning == old(self).use_pruning,
            final(self).evaluations >= old(self).evaluations,
            !old(self).use_cache && !old(self).use_pruning ==> r == face_best(
                old(self).heuristic,
                *board,
                maximizing_player,
                maximizing_player,
                minimizing_player,
                (max_depth - depth) as nat,
                dice_roll as int,
                moves@,
                moves@.len() as int,
            ),
        decreases max_depth - depth, 0int,
    {
        let ghost e = old(self).heuristic;
        let ghost rem = (max_depth - depth) as nat;
        let ghost full = !old(self).use_cache && !old(self).use_pruning;

        let mut a = alpha;
        let mut max_score: i64 = -WIN_SCORE;
        let mut mi: usize = 0;
        while mi < moves.len()
            invariant_except_break
                board.wf(),
                board.spec_winner() is None,
                maximizing_player != minimizing_player,
                board.is_player(maximizing_player),
                board.is_player(minimizing_player),
                depth < max_depth,
                1 <= dice_roll <= 6,
                forall|k: int|
                    0 <= k < moves@.len() ==> action_move_ok(
                        *board,
                        maximizing_player,
                        dice_roll as int,
                        #[trigger] moves@[k],
                    ) || moves@[k] == StruggleMove::SkipTurn,
                mi <= moves@.len(),
                -WIN_SCORE <= max_score <= WIN_SCORE,
                -WIN_SCORE - 1 <= a <= WIN_SCORE + 1,
                -WIN_SCORE - 1 <= beta <= WIN_SCORE + 1,
                self.heuristic == old(self).heuristic,
                self.max_depth == old(self).max_depth,
                self.use_cache == old(self).use_cache,
                self.use_pruning == old(self).use_pruning,
                self.evaluations >= old(self).evaluations,
                e == old(self).heuristic,
                rem == (max_depth - depth) as nat,
                full == (!old(self).use_cache && !old(self).use_pruning),
                full ==> max_score == face_best(
                    e,
                    *board,
                    maximizing_player,
                    maximizing_player,
                    minimizing_player,
                    rem,
                    dice_roll as int,
                    moves@,
                    mi as int,
                ),
            ensures
                -WIN_SCORE <= max_score <= WIN_SCORE,
                self.heuristic == old(self).heuristic,
                self.max_depth == old(self).max_depth,
                self.use_cache == old(self).use_cache,
                self.use_pruning == old(self).use_pruning,
                self.evaluations >= old(self).evaluations,
                full ==> max_score == face_best(
                    e,
                    *board,
                    maximizing_player,
                    maximizing_player,
                    minimizing_player,
                    rem,
                    dice_roll as int,
                    moves@,
                    moves@.len() as int,
                ),
            decreases moves@.len() - mi,
        {
            let mov = &moves[mi];
            proof {
                if moves@[mi as int] != StruggleMove::SkipTurn {
                    lemma_move_ok_applicable(
                        *board,
                        maximizing_player,
                        dice_roll as int,
                        moves@[mi as int],
                    );
                }
            }
            let new_board = board.with_move(maximizing_player, mov);
            proof {
                lemma_winner_after_move(*board, maximizing_player, moves@[mi as int], new_board);
                if full {
                    lemma_successor_matches(*board, maximizing_player, moves@[mi as int], new_board);
                }
            }
            let ghost chosen = board_after(
                board.tiles@,
                goals_view(*board),
                waiting_view(*board),
                board.players,
                maximizing_player,
                moves@[mi as int],
            );
            let mut guaranteed_win = false;
            let sc: i64;
            match new_board.get_winner() {
                Some(_) => {
                    sc = WIN_SCORE;
                    guaranteed_win = true;
                },
                None => {
                    sc = self.expectiminimax(
                        &new_board,
                        if dice_roll == 6 {
                            maximizing_player
                        } else {
                            minimizing_player
                        },
                        maximizing_player,
                        minimizing_player,
                        max_depth,
                        depth + 1,
                        a,
                        beta,
                    );
                    proof {
                        if full {
                            lemma_search_congruent(
                                e,
                                new_board,
                                chosen,
                                next_mover(
                                    maximizing_player,
                                    maximizing_player,
                                    minimizing_player,
                                    dice_roll as int,
                                ),
                                maximizing_player,
                                minimizing_player,
                                (rem - 1) as nat,
                            );
                        }
                    }
                },
            }
            proof {
                if full {
                    assert(sc == spec_move_value(
                        e,
                        *board,
                        maximizing_player,
                        maximizing_player,
                        minimizing_player,
                        rem,
                        dice_roll as int,
                        moves@[mi as int],
                    ));
                }
            }

            if sc > max_score {
                max_score = sc;
            }
            if sc > a {
                a = sc;
            }
            if guaranteed_win {
                proof {
                    if full {
                        lemma_face_best_dominates(
                            e,
                            *board,
                            maximizing_player,
                            maximizing_player,
                            minimizing_player,
                            rem,
                            dice_roll as int,
                            moves@,
                            moves@.len() as int,
                            mi as int,
                        );
                        lemma_face_best_bounds(
                            e,
                            *board,
                            maximizing_player,
                            maximizing_player,
                            minimizing_player,
                            rem,
                            dice_roll as int,
                            moves@,
                            moves@.len() as int,
                        );
                    }
                }
                break;
            }
            if self.use_pruning && max_score >= beta {
                break;
            }
            mi = mi + 1;
        }
        max_score
    }

    /// Scan one die face's moves for the minimizing mover: the running
    /// minimum with loss short-circuit and, when pruning is on, the alpha
    /// cutoff.  With cache and pruning off the result is exactly the
    /// specified best value of the face.
    #[verifier::rlimit(100)]
    fn scan_face_min(
        &mut self,
        board: &Board,
        moves: &Vec<StruggleMove>,
        maximizing_player: PlayerColor,
        minimizing_player: PlayerColor,
        dice_roll: u8,
        max_depth: u8,
        depth: u8,
        alpha: i64,
        beta: i64,
    ) -> (r: i64)
        requires
            board.wf(),
            board.spec_winner() is None,
            maximizing_player != minimizing_player,
            board.is_player(maximizing_player),
            board.is_player(minimizing_player),
            depth < max_depth,
            1 <= dice_roll <= 6,
            -WIN_SCORE - 1 <= alpha <= WIN_SCORE + 1,
            -WIN_SCORE - 1 <= beta <= WIN_SCORE + 1,
            moves@.len() >= 1,
            forall|k: int|
                0 <= k < moves@.len() ==> action_move_ok(
                    *board,
                    minimizing_player,
                    dice_roll as int,
                    #[trigger] moves@[k],
                ) || moves@[k] == StruggleMove::SkipTurn,
        ensures
            -WIN_SCORE <= r <= WIN_SCORE,
            final(self).heuristic == old(self).heuristic,
            final(self).max_depth == old(self).max_depth,
            final(self).use_cache == old(self).use_cache,
            final(self).use_pruning == old(self).use_pruning,
            final(self).evaluations >= old(self).evaluations,
            !old(self).use_cache && !old(self).use_pruning ==> r == face_best(
                old(self).heuristic,
                *board,
                minimizing_player,
                maximizing_player,
                minimizing_player,
                (max_depth - depth) as nat,
                dice_roll as int,
                moves@,
                moves@.len() as int,
            ),
        decreases max_depth - depth, 0int,
    {
        let ghost e = old(self).heuristic;
        let ghost rem = (max_depth - depth) as nat;
        let ghost full = !old(self).use_cache && !old(self).use_pruning;

        let mut b = beta;
        let mut min_score: i64 = WIN_SCORE;
        let mut mi: usize = 0;
        while mi < moves.len()
            invariant_except_break
                board.wf(),
                board.spec_winner() is None,
                maximizing_player != minimizing_player,
                board.is_player(maximizing_player),
                board.is_player(minimizing_player),
                depth < max_depth,
                1 <= dice_roll <= 6,
                forall|k: int|
                    0 <= k < moves@.len() ==> action_move_ok(
                        *board,
                        minimizing_player,
                        dice_roll as int,
                        #[trigger] moves@[k],
                    ) || moves@[k] == StruggleMove::SkipTurn,
                mi <= moves@.len(),
                -WIN_SCORE <= min_score <= WIN_SCORE,
                -WIN_SCORE - 1 <= alpha <= WIN_SCORE + 1,
                -WIN_SCORE - 1 <= b <= WIN_SCORE + 1,
                self.heuristic == old(self).heuristic,
                self.max_depth == old(self).max_depth,
                self.use_cache == old(self).use_cache,
                self.use_pruning == old(self).use_pruning,
                self.evaluations >= old(self).evaluations,
                e == old(self).heuristic,
                rem == (max_depth - depth) as nat,
                full == (!old(self).use_cache && !old(self).use_pruning),
                full ==> min_score == face_best(
                    e,
                    *board,
                    minimizing_player,
                    maximizing_player,
                    minimizing_player,
                    rem,
                    dice_roll as int,
                    moves@,
                    mi as int,
                ),
            ensures
                -WIN_SCORE <= min_score <= WIN_SCORE,
                self.heuristic == old(self).heuristic,
                self.max_depth == old(self).max_depth,
                self.use_cache == old(self).use_cache,
                self.use_pruning == old(self).use_pruning,
                self.evaluations >= old(self).evaluations,
                full ==> min_score == face_best(
                    e,
                    *board,
                    minimizing_player,
                    maximizing_player,
                    minimizing_player,
                    rem,
                    dice_roll as int,
                    moves@,
                    moves@.len() as int,
                ),
            decreases moves@.len() - mi,
        {
            let mov = &moves[mi];
            proof {
                if moves@[mi as int] != StruggleMove::SkipTurn {
                    lemma_move_ok_applicable(
                        *board,
                        minimizing_player,
                        dice_roll as int,
                        moves@[mi as int],
                    );
                }
            }
            let new_board = board.with_move(minimizing_player, mov);
            proof {
                lemma_winner_after_move(*board, minimizing_player, moves@[mi as int], new_board);
                if full {
                    lemma_successor_matches(*board, minimizing_player, moves@[mi as int], new_board);
                }
            }
            let ghost chosen = board_after(
                board.tiles@,
                goals_view(*board),
                waiting_view(*board),
                board.players,
                minimizing_player,
                moves@[mi as int],
            );
            let mut guaranteed_loss = false;
            let sc: i64;
            match new_board.get_winner() {
                Some(_) => {
                    sc = -WIN_SCORE;
                    guaranteed_loss = true;
                },
                None => {
                    sc = self.expectiminimax(
                        &new_board,
                        if dice_roll == 6 {
                            minimizing_player
                        } else {
                            maximizing_player
                        },
                        maximizing_player,
                        minimizing_player,
                        max_depth,
                        depth + 1,
                        alpha,
                        b,
                    );
                    proof {
                        if full {
                            lemma_search_congruent(
                                e,
                                new_board,
                                chosen,
                                next_mover(
                                    minimizing_player,
                                    maximizing_player,
                                    minimizing_player,
                                    dice_roll as int,
                                ),
                                maximizing_player,
                                minimizing_player,
                                (rem - 1) as nat,
                            );
                        }
                    }
                },
            }
            proof {
                if full {
                    assert(sc == spec_move_value(
                        e,
                        *board,
                        minimizing_player,
                        maximizing_player,
                        minimizing_player,
                        rem,
                        dice_roll as int,
                        moves@[mi as int],
                    ));
                }
            }

            if sc < min_score {
                min_score = sc;
            }
            if sc < b {
                b = sc;
            }
            if guaranteed_loss {
                proof {
                    if full {
                        lemma_face_best_dominates(
                            e,
                            *board,
                            minimizing_player,
                            maximizing_player,
                            minimizing_player,
                            rem,
                            dice_roll as int,
                            moves@,
                            moves@.len() as int,
                            mi as int,
                        );
                        lemma_face_best_bounds(
                            e,
                            *board,
                            minimizing_player,
                            maximizing_player,
                            minimizing_player,
                            rem,
                            dice_roll as int,
                            moves@,
                            moves@.len() as int,
                        );
                    }
                }
                break;
            }
            if self.use_pruning && min_score <= alpha {
                break;
            }
            mi = mi + 1;
        }
        min_score
    }

    /// Score a position by expectiminimax: at the depth limit the strategy's
    /// score; above it, the average over the six die faces of the mover's
    /// best (or, for the minimizing side, worst) continuation, each face
    /// weighted uniformly, with the same mover moving again on the maximum
    /// face.  With the cache and pruning off, the result is exactly
    /// `spec_search` of the position.
    #[verifier::rlimit(100)]
    pub fn expectiminimax(
        &mut self,
        board: &Board,
        current_player: PlayerColor,
        maximizing_player: PlayerColor,
        minimizing_player: PlayerColor,
        max_depth: u8,
        depth: u8,
        alpha: i64,
        beta: i64,
    ) -> (r: i64)
        requires
            board.wf(),
            board.spec_winner() is None,
            maximizing_player != minimizing_player,
            board.is_player(maximizing_player),
            board.is_player(minimizing_player),
            current_player == maximizing_player || current_player == minimizing_player,
            depth <= max_depth,
            -WIN_SCORE - 1 <= alpha <= WIN_SCORE + 1,
            -WIN_SCORE - 1 <= beta <= WIN_SCORE + 1,
        ensures
            -WIN_SCORE <= r <= WIN_SCORE,
            final(self).heuristic == old(self).heuristic,
            final(self).max_depth == old(self).max_depth,
            final(self).use_cache == old(self).use_cache,
            final(self).use_pruning == old(self).use_pruning,
            final(self).evaluations >= old(self).evaluations,
            depth == max_depth && !old(self).use_cache ==> r == old(self).heuristic.spec_eval(
                *board,
                maximizing_player,
                minimizing_player,
            ) && final(self).evaluations as int == (if old(self).evaluations < u64::MAX {
                old(self).evaluations + 1
            } else {
                old(self).evaluations as int
            }),
            !old(self).use_cache && !old(self).use_pruning ==> r == spec_search(
                old(self).heuristic,
                *board,
                current_player,
                maximizing_player,
                minimizing_player,
                (max_depth - depth) as nat,
            ),
        decreases max_depth - depth, 1int,
    {
        let ghost e = old(self).heuristic;
        let ghost rem = (max_depth - depth) as nat;
        let ghost full = !old(self).use_cache && !old(self).use_pruning;

        if self.use_cache {
            let hash = get_board_hash(board, current_player, false);
            match self.cache.get(hash, depth) {
                Some(value) => {
                    if -WIN_SCORE <= value && value <= WIN_SCORE {
                        return value;
                    }
                },
                None => {},
            }
        }

        if self.evaluations < u64::MAX {
            self.evaluations = self.evaluations + 1;
        }

        if depth == max_depth {
            let value = self.heuristic.evaluate(board, maximizing_player, minimizing_player);
            proof {
                self.heuristic.lemma_eval_bounded(*board, maximizing_player, minimizing_player);
                if full {
                    assert(rem == 0);
                    assert(spec_search(
                        e,
                        *board,
                        current_player,
                        maximizing_player,
                        minimizing_player,
                        rem,
                    ) == clamp_score(e.spec_eval(*board, maximizing_player, minimizing_player)));
                }
            }
            if self.use_cache {
                let hash = get_board_hash(board, current_player, false);
                self.cache.insert_if_better(hash, value, depth);
            }
            return value;
        }

        proof {
            // Pin the sentinel's numeric value for the running-sum bounds.
            assert(WIN_SCORE == 1_000_000_000);
        }
        let mut expected_value: i64 = 0;
        let mut dice_roll: u8 = 1;
        while dice_roll <= 6
            invariant
                board.wf(),
                board.spec_winner() is None,
                maximizing_player != minimizing_player,
                board.is_player(maximizing_player),
                board.is_player(minimizing_player),
                current_player == maximizing_player || current_player == minimizing_player,
                depth < max_depth,
                -WIN_SCORE - 1 <= alpha <= WIN_SCORE + 1,
                -WIN_SCORE - 1 <= beta <= WIN_SCORE + 1,
                1 <= dice_roll <= 7,
                -1_000_000_000 * (dice_roll - 1) <= expected_value <= 1_000_000_000 * (dice_roll
                    - 1),
                self.heuristic == old(self).heuristic,
                self.max_depth == old(self).max_depth,
                self.use_cache == old(self).use_cache,
                self.use_pruning == old(self).use_pruning,
                self.evaluations >= old(self).evaluations,
                e == old(self).heuristic,
                rem == (max_depth - depth) as nat,
                full == (!old(self).use_cache && !old(self).use_pruning),
                full ==> expected_value == face_sum(
                    e,
                    *board,
                    current_player,
                    maximizing_player,
                    minimizing_player,
                    rem,
                    dice_roll - 1,
                ),
            decreases 7 - dice_roll,
        {
            let score: i64;
            if current_player == maximizing_player {
                let moves = board.get_moves(dice_roll, maximizing_player, minimizing_player);
                proof {
                    assert forall|k: int| 0 <= k < moves@.len() implies action_move_ok(
                        *board,
                        maximizing_player,
                        dice_roll as int,
                        #[trigger] moves@[k],
                    ) || moves@[k] == StruggleMove::SkipTurn by {
                        assert(moves@.contains(moves@[k]));
                    }
                }
                score = self.scan_face_max(
                    board,
                    &moves,
                    maximizing_player,
                    minimizing_player,
                    dice_roll,
                    max_depth,
                    depth,
                    alpha,
                    beta,
                );
                proof {
                    if full {
                        assert(score == spec_face(
                            e,
                            *board,
                            current_player,
                            maximizing_player,
                            minimizing_player,
                            rem,
                            dice_roll as int,
                        ));
                    }
                }
            } else {
                let moves = board.get_moves(dice_roll, minimizing_player, maximizing_player);
                proof {
                    assert forall|k: int| 0 <= k < moves@.len() implies action_move_ok(
                        *board,
                        minimizing_player,
                        dice_roll as int,
                        #[trigger] moves@[k],
                    ) || moves@[k] == StruggleMove::SkipTurn by {
                        assert(moves@.contains(moves@[k]));
                    }
                }
                score = self.scan_face_min(
                    board,
                    &moves,
                    maximizing_player,
                    minimizing_player,
                    dice_roll,
                    max_depth,
                    depth,
                    alpha,
                    beta,
                );
                proof {
                    if full {
                        assert(score == spec_face(
                            e,
                            *board,
                            current_player,
                            maximizing_player,
                            minimizing_player,
                            rem,
                            dice_roll as int,
                        ));
                    }
                }
            }

            proof {
                // Pin the sentinel's numeric value for the running-sum bounds.
                assert(WIN_SCORE == 1_000_000_000);
            }
            expected_value = expected_value + score;
            dice_roll = dice_roll + 1;
        }

        proof {
            if full {
                assert(expected_value == face_sum(
                    e,
                    *board,
                    current_player,
                    maximizing_player,
                    minimizing_player,
                    rem,
                    6,
                ));
                assert(rem != 0);
                assert(spec_search(e, *board, current_player, maximizing_player, minimizing_player, rem)
                    == div_toward_zero(
                    face_sum(e, *board, current_player, maximizing_player, minimizing_player, rem, 6),
                    6,
                ));
            }
        }
        if expected_value >= 0 {
            expected_value / 6
        } else {
            -((-expected_value) / 6)
        }
    }
}

impl<E: Evaluator> StrugglePlayer for GameTreePlayer<E> {
    /// Root selection: a lone legal move is returned without any search and
    /// without touching the engine's state; otherwise every candidate is
    /// applied to a copy, scored one level into the expectiminimax recursion
    /// (a candidate that wins on the spot gets the win sentinel), and an
    /// index with the best score is returned, exact ties broken uniformly at
    /// random and distinct scores never reordered.  With cache and pruning
    /// off the chosen candidate's specified root value dominates them all.
    #[verifier::rlimit(100)]
    fn select_move(
        &mut self,
        ctx: &GameContext,
        board: &Board,
        moves: &Vec<StruggleMove>,
        rng: &mut rand::rngs::SmallRng,
    ) -> (r: usize)
        ensures
            moves@.len() == 1 ==> r == 0 && *final(self) == *old(self),
            (!old(self).use_cache && !old(self).use_pruning) ==> forall|k: int|
                0 <= k < moves@.len() ==> spec_root_value(
                    old(self).heuristic,
                    *board,
                    ctx.current_player,
                    ctx.other_player,
                    ctx.dice as int,
                    old(self).max_depth,
                    #[trigger] moves@[k],
                ) <= spec_root_value(
                    old(self).heuristic,
                    *board,
                    ctx.current_player,
                    ctx.other_player,
                    ctx.dice as int,
                    old(self).max_depth,
                    moves@[r as int],
                ),
    {
        if moves.len() == 1 {
            return 0;
        }

        let ghost e = old(self).heuristic;
        let ghost full = !old(self).use_cache && !old(self).use_pruning;
        let ghost rootrem = (old(self).max_depth + 1) as nat;

        let mut scores: Vec<i64> = Vec::new();
        let mut k: usize = 0;
        while k < moves.len()
            invariant
                board.wf(),
                ctx.wf_for(*board),
                board.spec_winner() is None,
                forall|j: int|
                    0 <= j < moves@.len() ==> action_move_ok(
                        *board,
                        ctx.current_player,
                        ctx.dice as int,
                        #[trigger] moves@[j],
                    ) || moves@[j] == StruggleMove::SkipTurn,
                k <= moves@.len(),
                scores@.len() == k,
                self.heuristic == old(self).heuristic,
                self.max_depth == old(self).max_depth,
                self.use_cache == old(self).use_cache,
                self.use_pruning == old(self).use_pruning,
                e == old(self).heuristic,
                full == (!old(self).use_cache && !old(self).use_pruning),
                rootrem == (old(self).max_depth + 1) as nat,
                full ==> forall|j: int|
                    0 <= j < k ==> #[trigger] scores@[j] == spec_move_value(
                        e,
                        *board,
                        ctx.current_player,
                        ctx.current_player,
                        ctx.other_player,
                        rootrem,
                        ctx.dice as int,
                        moves@[j],
                    ),
            decreases moves@.len() - k,
        {
            let mov = &moves[k];
            proof {
                if moves@[k as int] != StruggleMove::SkipTurn {
                    lemma_move_ok_applicable(
                        *board,
                        ctx.current_player,
                        ctx.dice as int,
                        moves@[k as int],
                    );
                }
            }
            let new_board = board.with_move(ctx.current_player, mov);
            proof {
                lemma_winner_after_move(*board, ctx.current_player, moves@[k as int], new_board);
                if full {
                    lemma_successor_matches(*board, ctx.current_player, moves@[k as int], new_board);
                }
            }
            let ghost chosen = board_after(
                board.tiles@,
                goals_view(*board),
                waiting_view(*board),
                board.players,
                ctx.current_player,
                moves@[k as int],
            );
            let next_turn = if ctx.dice == 6 {
                ctx.current_player
            } else {
                ctx.other_player
            };

            let score: i64;
            match new_board.get_winner() {
                Some(_) => {
                    score = WIN_SCORE;
                },
                None => {
                    score = self.expectiminimax(
                        &new_board,
                        next_turn,
                        ctx.current_player,
                        ctx.other_player,
                        self.max_depth,
                        0,
                        -WIN_SCORE - 1,
                        WIN_SCORE + 1,
                    );
                    proof {
                        if full {
                            lemma_search_congruent(
                                e,
                                new_board,
                                chosen,
                                next_mover(
                                    ctx.current_player,
                                    ctx.current_player,
                                    ctx.other_player,
                                    ctx.dice as int,
                                ),
                                ctx.current_player,
                                ctx.other_player,
                                (rootrem - 1) as nat,
                            );
                        }
                    }
                },
            }
            proof {
                if full {
                    assert(score == spec_move_value(
                        e,
                        *board,
                        ctx.current_player,
                        ctx.current_player,
                        ctx.other_player,
                        rootrem,
                        ctx.dice as int,
                        moves@[k as int],
                    ));
                }
            }
            scores.push(score);
            k = k + 1;
        }

        let r = argmax_random(&scores, rng);
        proof {
            if full {
                assert forall|j: int|
                    0 <= j < moves@.len() implies spec_root_value(
                    e,
                    *board,
                    ctx.current_player,
                    ctx.other_player,
                    ctx.dice as int,
                    old(self).max_depth,
                    #[trigger] moves@[j],
                ) <= spec_root_value(
                    e,
                    *board,
                    ctx.current_player,
                    ctx.other_player,
                    ctx.dice as int,
                    old(self).max_depth,
                    moves@[r as int],
                ) by {
                    assert(scores@[j] <= scores@[r as int]);
                }
            }
        }
        r
    }

    fn reset(&mut self) {
        self.evaluations = 0;
    }

    fn total_evaluations(&self) -> u64 {
        self.evaluations
    }
}

impl<E> NamedPlayer for GameTreePlayer<E> {
    fn name(&self) -> &'static str {
        self.name
    }
}

/// The default search player: the default heuristic under full search.
pub fn expectiminimax(depth: u8) -> GameTreePlayer<DefaultEvaluator> {
    GameTreePlayer::new(DefaultEvaluator, depth, "Expectiminimax")
}

/// Search backed by the bare piece-count heuristic.
pub fn expectiminimax_mvp(depth: u8) -> GameTreePlayer<MinimalEvaluator> {
    GameTreePlayer::new(MinimalEvaluator, depth, "ExpectiminimaxBasic")
}

/// Search that strives to lose: the default heuristic negated.
pub fn worst_expectiminimax(depth: u8) -> GameTreePlayer<NegatedEvaluator<DefaultEvaluator>> {
    GameTreePlayer::new(NegatedEvaluator(DefaultEvaluator), depth, "WorstExpectiminimax")
}

/// Search that only wants its pieces out of the home base.
pub fn participation_trophy(depth: u8) -> GameTreePlayer<HomeCountEvaluator> {
    GameTreePlayer::new(HomeCountEvaluator { negate: true }, depth, "ParticipationTrophy")
}

/// Search that keeps its pieces at home as long as it can.
pub fn one_at_a_time(depth: u8) -> GameTreePlayer<HomeCountEvaluator> {
    GameTreePlayer::new(HomeCountEvaluator { negate: false }, depth, "OneAtATime")
}

/// Search that walks one piece at a time to the goal.
pub fn one_at_a_time_deluxe(max_depth: u8) -> GameTreePlayer<OneAtATimeEvaluator> {
    GameTreePlayer::new(OneAtATimeEvaluator, max_depth, "OneAtATimeDeluxe")
}

/// Search that maximizes its own number of options.
pub fn maximize_options(depth: u8) -> GameTreePlayer<MobilityEvaluator> {
    GameTreePlayer::new(MobilityEvaluator { own_options: true }, depth, "MaximizeOptions")
}

/// Search that minimizes the opponent's number of options.
pub fn minimize_options(max_depth: u8) -> GameTreePlayer<MobilityEvaluator> {
    GameTreePlayer::new(MobilityEvaluator { own_options: false }, max_depth, "MinimizeOptions")
}

/// Search that stretches the game out as long as possible.
pub fn maximize_length_expectiminimax(max_depth: u8) -> GameTreePlayer<LengthEvaluator> {
    GameTreePlayer::new(LengthEvaluator, max_depth, "MaximizeLength")
}

/// Plays randomly until one side scores a goal piece, then throws the whole
/// search behind that side, whichever it is.
pub struct StatefulGetItOverWith {
    /// The side this player committed to, once either side scored.
    pub supporting: Option<PlayerColor>,
    pub max_depth: u8,
}

/// The get-it-over-with player.
pub fn stateful_get_it_over_with(max_depth: u8) -> (r: StatefulGetItOverWith)
    ensures
        r.supporting is None,
        r.max_depth == max_depth,
{
    StatefulGetItOverWith { supporting: None, max_depth }
}

impl StrugglePlayer for StatefulGetItOverWith {
    /// Commits to the first side that scores a goal piece, the mover checked
    /// first, then plays the supporting search for it; before any side has
    /// scored it plays randomly.
    fn select_move(
        &mut self,
        ctx: &GameContext,
        board: &Board,
        moves: &Vec<StruggleMove>,
        rng: &mut rand::rngs::SmallRng,
    ) -> (r: usize)
        ensures
            final(self).max_depth == old(self).max_depth,
            final(self).supporting == (if old(self).supporting is Some {
                old(self).supporting
            } else if filled_count(board.goal_of(ctx.current_player)) >= 1 {
                Some(ctx.current_player)
            } else if filled_count(board.goal_of(ctx.other_player)) >= 1 {
                Some(ctx.other_player)
            } else {
                None::<PlayerColor>
            }),
    {
        if self.supporting.is_none() {
            let own_pieces_in_goal = board.pieces_in_goal(ctx.current_player);
            let enemy_pieces_in_goal = board.pieces_in_goal(ctx.other_player);

            self.supporting = if own_pieces_in_goal >= 1 {
                Some(ctx.current_player)
            } else if enemy_pieces_in_goal >= 1 {
                Some(ctx.other_player)
            } else {
                None
            };
        }

        match self.supporting {
            Some(supporting) => {
                let mut inner = GameTreePlayer::new(
                    SupportEvaluator { supporting },
                    self.max_depth,
                    "GetItOverWithInternal",
                );
                inner.select_move(ctx, board, moves, rng)
            },
            None => {
                let mut fallback = RandomPlayer;
                fallback.select_move(ctx, board, moves, rng)
            },
        }
    }

    fn reset(&mut self) {
        self.supporting = None;
    }

    fn total_evaluations(&self) -> u64 {
        0
    }
}

impl NamedPlayer for StatefulGetItOverWith {
    fn name(&self) -> &'static str {
        "GetItOverWith"
    }
}

} // verus!
