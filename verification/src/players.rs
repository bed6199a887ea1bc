use vstd::prelude::*;

use crate::board::{action_move_ok, Board, StruggleMove};
use crate::color::PlayerColor;
use crate::rngs::rand_below;
use crate::turn::NamedPlayer;

verus! {

/// The per-turn bundle the driver hands to a player: who moves, who waits,
/// and the die face rolled.
pub struct GameContext {
    pub current_player: PlayerColor,
    pub other_player: PlayerColor,
    pub dice: u8,
}

impl GameContext {
    /// The context names the two players of `b`, in some order, with a real
    /// die face.
    pub open spec fn wf_for(self, b: Board) -> bool {
        &&& b.is_player(self.current_player)
        &&& b.is_player(self.other_player)
        &&& self.current_player != self.other_player
        &&& 1 <= self.dice <= 6
    }
}

/// A player of the four-arm variant: asked for one of the offered moves, it
/// answers with an index into them.
pub trait StrugglePlayer: Sized {
    /// Choose one of the offered moves, which the caller generated for this
    /// turn's die face.
    fn select_move(
        &mut self,
        ctx: &GameContext,
        board: &Board,
        moves: &Vec<StruggleMove>,
        rng: &mut rand::rngs::SmallRng,
    ) -> (r: usize)
        requires
            board.wf(),
            ctx.wf_for(*board),
            board.spec_winner() is None,
            moves@.len() >= 1,
            forall|k: int|
                0 <= k < moves@.len() ==> action_move_ok(
                    *board,
                    ctx.current_player,
                    ctx.dice as int,
                    #[trigger] moves@[k],
                ) || moves@[k] == StruggleMove::SkipTurn,
        ensures
            r < moves@.len(),
    ;

    /// Forget per-game state between games.
    fn reset(&mut self);

    /// How many positions this player has evaluated so far.
    fn total_evaluations(&self) -> u64;
}

/// Index of one maximal entry of `scores`, ties broken uniformly at random.
pub fn argmax_random(scores: &Vec<i64>, rng: &mut rand::rngs::SmallRng) -> (r: usize)
    requires
        scores@.len() >= 1,
    ensures
        r < scores@.len(),
        forall|k: int| 0 <= k < scores@.len() ==> scores@[k] <= scores@[r as int],
{
    let mut best: i64 = scores[0];
    let mut k: usize = 1;
    while k < scores.len()
        invariant
            scores@.len() >= 1,
            1 <= k <= scores@.len(),
            forall|j: int| 0 <= j < k ==> scores@[j] <= best,
            exists|j: int| 0 <= j < k && scores@[j] == best,
        decreases scores@.len() - k,
    {
        if scores[k] > best {
            best = scores[k];
        }
        k = k + 1;
    }

    let mut ties: Vec<usize> = Vec::new();
    let mut j: usize = 0;
    while j < scores.len()
        invariant
            scores@.len() >= 1,
            j <= scores@.len(),
            forall|t: int|
                0 <= t < ties@.len() ==> (#[trigger] ties@[t]) < scores@.len() && scores@[ties@[t]
                    as int] == best,
            forall|t: int| 0 <= t < j && scores@[t] == best ==> ties@.len() > 0,
            (exists|t: int| 0 <= t < j && scores@[t] == best) ==> ties@.len() > 0,
        decreases scores@.len() - j,
    {
        if scores[j] == best {
            ties.push(j);
        }
        j = j + 1;
    }
    proof {
        let w = choose|t: int| 0 <= t < scores@.len() && scores@[t] == best;
        assert(scores@[w] == best);
    }
    let pick = rand_below(rng, ties.len());
    ties[pick]
}

/// Index of the first maximal entry of `scores`.
pub fn first_argmax(scores: &Vec<i64>) -> (r: usize)
    requires
        scores@.len() >= 1,
    ensures
        r < scores@.len(),
        forall|k: int| 0 <= k < scores@.len() ==> scores@[k] <= scores@[r as int],
{
    let mut best: usize = 0;
    let mut k: usize = 1;
    while k < scores.len()
        invariant
            scores@.len() >= 1,
            1 <= k <= scores@.len(),
            best < k,
            forall|j: int| 0 <= j < k ==> scores@[j] <= scores@[best as int],
        decreases scores@.len() - k,
    {
        if scores[k] > scores[best] {
            best = k;
        }
        k = k + 1;
    }
    best
}

/// Index of the first minimal entry of `scores`.
pub fn first_argmin(scores: &Vec<i64>) -> (r: usize)
    requires
        scores@.len() >= 1,
    ensures
        r < scores@.len(),
        forall|k: int| 0 <= k < scores@.len() ==> scores@[r as int] <= scores@[k],
{
    let mut best: usize = 0;
    let mut k: usize = 1;
    while k < scores.len()
        invariant
            scores@.len() >= 1,
            1 <= k <= scores@.len(),
            best < k,
            forall|j: int| 0 <= j < k ==> scores@[best as int] <= scores@[j],
        decreases scores@.len() - k,
    {
        if scores[k] < scores[best] {
            best = k;
        }
        k = k + 1;
    }
    best
}

/// Index of one minimal entry of `scores`, ties broken uniformly at random.
pub fn argmin_random(scores: &Vec<i64>, rng: &mut rand::rngs::SmallRng) -> (r: usize)
    requires
        scores@.len() >= 1,
    ensures
        r < scores@.len(),
        forall|k: int| 0 <= k < scores@.len() ==> scores@[r as int] <= scores@[k],
{
    let mut best: i64 = scores[0];
    let mut k: usize = 1;
    while k < scores.len()
        invariant
            scores@.len() >= 1,
            1 <= k <= scores@.len(),
            forall|j: int| 0 <= j < k ==> best <= scores@[j],
            exists|j: int| 0 <= j < k && scores@[j] == best,
        decreases scores@.len() - k,
    {
        if scores[k] < best {
            best = scores[k];
        }
        k = k + 1;
    }

    let mut ties: Vec<usize> = Vec::new();
    let mut j: usize = 0;
    while j < scores.len()
        invariant
            scores@.len() >= 1,
            j <= scores@.len(),
            forall|t: int|
                0 <= t < ties@.len() ==> (#[trigger] ties@[t]) < scores@.len() && scores@[ties@[t]
                    as int] == best,
            (exists|t: int| 0 <= t < j && scores@[t] == best) ==> ties@.len() > 0,
        decreases scores@.len() - j,
    {
        if scores[j] == best {
            ties.push(j);
        }
        j = j + 1;
    }
    proof {
        let w = choose|t: int| 0 <= t < scores@.len() && scores@[t] == best;
        assert(scores@[w] == best);
    }
    let pick = rand_below(rng, ties.len());
    ties[pick]
}

/// Plays any of the offered moves, uniformly at random.
#[derive(Clone, Copy)]
pub struct RandomPlayer;

impl StrugglePlayer for RandomPlayer {
    fn select_move(
        &mut self,
        ctx: &GameContext,
        board: &Board,
        moves: &Vec<StruggleMove>,
        rng: &mut rand::rngs::SmallRng,
    ) -> (r: usize) {
        rand_below(rng, moves.len())
    }

    fn reset(&mut self) {
    }

    fn total_evaluations(&self) -> u64 {
        0
    }
}

/// Captures whenever a capturing move is offered, otherwise plays randomly.
#[derive(Clone, Copy)]
pub struct RandomEaterPlayer;

impl StrugglePlayer for RandomEaterPlayer {
    fn select_move(
        &mut self,
        ctx: &GameContext,
        board: &Board,
        moves: &Vec<StruggleMove>,
        rng: &mut rand::rngs::SmallRng,
    ) -> (r: usize)
        ensures
            (exists|k: int| 0 <= k < moves@.len() && (#[trigger] moves@[k]).spec_eats())
                ==> moves@[r as int].spec_eats(),
    {
        let mut k: usize = 0;
        while k < moves.len()
            invariant
                k <= moves@.len(),
                forall|j: int| 0 <= j < k ==> !(#[trigger] moves@[j]).spec_eats(),
            decreases moves@.len() - k,
        {
            if moves[k].eats() {
                return k;
            }
            k = k + 1;
        }
        rand_below(rng, moves.len())
    }

    fn reset(&mut self) {
    }

    fn total_evaluations(&self) -> u64 {
        0
    }
}

/// Avoids capturing whenever it can, otherwise plays randomly.
#[derive(Clone, Copy)]
pub struct RandomDietPlayer;

impl StrugglePlayer for RandomDietPlayer {
    fn select_move(
        &mut self,
        ctx: &GameContext,
        board: &Board,
        moves: &Vec<StruggleMove>,
        rng: &mut rand::rngs::SmallRng,
    ) -> (r: usize)
        ensures
            (exists|k: int| 0 <= k < moves@.len() && !(#[trigger] moves@[k]).spec_eats())
                ==> !moves@[r as int].spec_eats(),
    {
        let mut diet: Vec<usize> = Vec::new();
        let mut k: usize = 0;
        while k < moves.len()
            invariant
                k <= moves@.len(),
                forall|t: int|
                    0 <= t < diet@.len() ==> (#[trigger] diet@[t]) < moves@.len() && !moves@[diet@[t]
                        as int].spec_eats(),
                (exists|j: int| 0 <= j < k && !(#[trigger] moves@[j]).spec_eats()) ==> diet@.len()
                    > 0,
            decreases moves@.len() - k,
        {
            if !moves[k].eats() {
                diet.push(k);
            }
            k = k + 1;
        }
        if diet.len() == 0 {
            rand_below(rng, moves.len())
        } else {
            let pick = rand_below(rng, diet.len());
            diet[pick]
        }
    }

    fn reset(&mut self) {
    }

    fn total_evaluations(&self) -> u64 {
        0
    }
}

/// Flat score of a move by its kind alone: entering and capturing are good,
/// shuffling is indifferent, skipping is worthless.
pub open spec fn spec_score_move(m: StruggleMove) -> int {
    match m {
        StruggleMove::AddNewPiece { eats } => if eats {
            150
        } else {
            50
        },
        StruggleMove::MovePiece { eats, .. } => if eats {
            100
        } else {
            1
        },
        StruggleMove::MoveToGoal { .. } => 10,
        StruggleMove::MoveInGoal { .. } => 1,
        StruggleMove::SkipTurn => 0,
    }
}

/// Runtime counterpart of [`spec_score_move`].
pub fn score_move(mov: &StruggleMove) -> (r: i64)
    ensures
        r == spec_score_move(*mov),
        0 <= r <= 150,
{
    match mov {
        StruggleMove::AddNewPiece { eats } => if *eats {
            150
        } else {
            50
        },
        StruggleMove::MovePiece { eats, .. } => if *eats {
            100
        } else {
            1
        },
        StruggleMove::MoveToGoal { .. } => 10,
        StruggleMove::MoveInGoal { .. } => 1,
        StruggleMove::SkipTurn => 0,
    }
}

/// The flat per-move scores of all offered moves.
fn score_all_moves(moves: &Vec<StruggleMove>) -> (r: Vec<i64>)
    ensures
        r@.len() == moves@.len(),
        forall|k: int| 0 <= k < moves@.len() ==> #[trigger] r@[k] == spec_score_move(moves@[k]),
{
    let mut scores: Vec<i64> = Vec::new();
    let mut k: usize = 0;
    while k < moves.len()
        invariant
            k <= moves@.len(),
            scores@.len() == k,
            forall|j: int| 0 <= j < k ==> #[trigger] scores@[j] == spec_score_move(moves@[j]),
        decreases moves@.len() - k,
    {
        scores.push(score_move(&moves[k]));
        k = k + 1;
    }
    scores
}

/// Plays a move with the best flat score, looking only at the move's kind.
#[derive(Clone, Copy)]
pub struct ScoreMovePlayer;

impl StrugglePlayer for ScoreMovePlayer {
    fn select_move(
        &mut self,
        ctx: &GameContext,
        board: &Board,
        moves: &Vec<StruggleMove>,
        rng: &mut rand::rngs::SmallRng,
    ) -> (r: usize)
        ensures
            forall|k: int|
                0 <= k < moves@.len() ==> spec_score_move(#[trigger] moves@[k]) <= spec_score_move(
                    moves@[r as int],
                ),
    {
        let scores = score_all_moves(moves);
        let r = argmax_random(&scores, rng);
        proof {
            assert forall|k: int|
                0 <= k < moves@.len() implies spec_score_move(#[trigger] moves@[k])
                <= spec_score_move(moves@[r as int]) by {
                assert(scores@[k] <= scores@[r as int]);
            }
        }
        r
    }

    fn reset(&mut self) {
    }

    fn total_evaluations(&self) -> u64 {
        0
    }
}

/// Plays a move with the worst flat score: the negation of
/// [`ScoreMovePlayer`].
#[derive(Clone, Copy)]
pub struct WorstScoreMovePlayer;

impl StrugglePlayer for WorstScoreMovePlayer {
    fn select_move(
        &mut self,
        ctx: &GameContext,
        board: &Board,
        moves: &Vec<StruggleMove>,
        rng: &mut rand::rngs::SmallRng,
    ) -> (r: usize)
        ensures
            forall|k: int|
                0 <= k < moves@.len() ==> spec_score_move(moves@[r as int]) <= spec_score_move(
                    #[trigger] moves@[k],
                ),
    {
        let scores = score_all_moves(moves);
        let r = argmin_random(&scores, rng);
        proof {
            assert forall|k: int|
                0 <= k < moves@.len() implies spec_score_move(moves@[r as int])
                <= spec_score_move(#[trigger] moves@[k]) by {
                assert(scores@[r as int] <= scores@[k]);
            }
        }
        r
    }

    fn reset(&mut self) {
    }

    fn total_evaluations(&self) -> u64 {
        0
    }
}

/// Follows the wrapped player only part of the time, in so many draws out of
/// a thousand; otherwise plays randomly.
#[derive(Clone, Copy)]
pub struct DilutedPlayer<P>(pub P, pub u32);

impl<P: StrugglePlayer> StrugglePlayer for DilutedPlayer<P> {
    fn select_move(
        &mut self,
        ctx: &GameContext,
        board: &Board,
        moves: &Vec<StruggleMove>,
        rng: &mut rand::rngs::SmallRng,
    ) -> (r: usize) {
        let draw = rand_below(rng, 1000);
        if (draw as u32) < self.1 {
            self.0.select_move(ctx, board, moves, rng)
        } else {
            rand_below(rng, moves.len())
        }
    }

    fn reset(&mut self) {
        self.0.reset();
    }

    fn total_evaluations(&self) -> u64 {
        self.0.total_evaluations()
    }
}

impl NamedPlayer for RandomPlayer {
    fn name(&self) -> &'static str {
        "Random"
    }
}

impl NamedPlayer for RandomEaterPlayer {
    fn name(&self) -> &'static str {
        "RandomEater"
    }
}

impl NamedPlayer for RandomDietPlayer {
    fn name(&self) -> &'static str {
        "RandomDiet"
    }
}

impl NamedPlayer for ScoreMovePlayer {
    fn name(&self) -> &'static str {
        "ScoreMove"
    }
}

impl NamedPlayer for WorstScoreMovePlayer {
    fn name(&self) -> &'static str {
        "WorstScoreMove"
    }
}

impl<P: NamedPlayer> NamedPlayer for DilutedPlayer<P> {
    fn name(&self) -> &'static str {
        self.0.name()
    }
}

/// A color paired with the strategy playing it.
#[derive(Clone, Copy)]
pub struct AiStrugglePlayer<T> {
    pub color: PlayerColor,
    pub player: T,
}

impl<T> AiStrugglePlayer<T> {
    /// Pair a color with a strategy.
    pub fn new(color: PlayerColor, player: T) -> (r: Self)
        ensures
            r.color == color,
    {
        AiStrugglePlayer { color, player }
    }

    /// The color this player moves.
    pub fn color(&self) -> (r: PlayerColor)
        ensures
            r == self.color,
    {
        self.color
    }
}

} // verus!
