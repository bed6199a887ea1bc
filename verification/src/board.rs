use vstd::prelude::*;

use crate::color::PlayerColor;
use crate::seqcount::{
    color_count, filled_count, lemma_color_count_bounds, lemma_color_count_extend,
    lemma_color_count_update, lemma_filled_count_bounds, lemma_filled_count_extend,
    lemma_filled_count_update, lemma_seq_push_contains,
};

verus! {

broadcast use lemma_seq_push_contains;

/// One cell of the shared ring or of a goal track: empty, or holding a piece
/// of the given color.
pub type BoardCell = Option<PlayerColor>;

/// Where one piece stands: on the shared ring, or in its owner's goal track.
#[derive(Copy, Clone, Debug, PartialEq, Eq, Hash, Structural)]
pub enum PiecePosition {
    Board(u8),
    Goal(u8),
}

impl PiecePosition {
    /// The ring index, when the piece is on the ring.
    pub fn as_board_index(self) -> (r: Option<u8>)
        ensures
            r == (match self {
                PiecePosition::Board(index) => Some(index),
                PiecePosition::Goal(_) => None::<u8>,
            }),
    {
        match self {
            PiecePosition::Board(index) => Some(index),
            _ => None,
        }
    }

    /// Strictly increasing key of the canonical piece-list order: ring
    /// positions in ring order first, then goal slots in depth order.
    pub open spec fn key(self) -> int {
        match self {
            PiecePosition::Board(i) => i as int,
            PiecePosition::Goal(s) => 100 + s as int,
        }
    }
}

/// Per-color holding area for pieces not yet mobilized.
#[derive(Debug, Clone, Copy, PartialEq, Eq, Hash, Structural)]
pub struct HomeBase {
    pub pieces_waiting: u8,
}

impl HomeBase {
    /// A fresh home base holding all four pieces.
    pub fn new() -> (r: HomeBase)
        ensures
            r.pieces_waiting == 4,
    {
        HomeBase { pieces_waiting: 4 }
    }

    /// Take one waiting piece out, if any is left.
    pub fn remove_piece(&mut self) -> (r: Option<()>)
        ensures
            old(self).pieces_waiting > 0 ==> r == Some(()) && final(self).pieces_waiting == old(
                self,
            ).pieces_waiting - 1,
            old(self).pieces_waiting == 0 ==> r == None::<()> && *final(self) == *old(self),
    {
        if self.pieces_waiting > 0 {
            self.pieces_waiting = self.pieces_waiting - 1;
            Some(())
        } else {
            None
        }
    }

    /// Put a captured piece back.
    pub fn add_piece(&mut self)
        requires
            old(self).pieces_waiting < 4,
        ensures
            final(self).pieces_waiting == old(self).pieces_waiting + 1,
    {
        self.pieces_waiting = self.pieces_waiting + 1;
    }

    /// Whether a piece is waiting that could be mobilized.
    pub fn can_add_piece(&self) -> (r: bool)
        ensures
            r == (self.pieces_waiting > 0),
    {
        self.pieces_waiting > 0
    }
}

/// One legal move of the four-arm variant.
#[derive(Debug, Clone, Copy, PartialEq, Eq, Structural)]
pub enum StruggleMove {
    AddNewPiece { eats: bool },
    MovePiece { from: u8, to: u8, eats: bool },
    MoveToGoal { from_board: u8, to_goal: u8 },
    MoveInGoal { from_goal: u8, to_goal: u8 },
    SkipTurn,
}

impl StruggleMove {
    /// Whether this move captures an opposing piece.
    pub open spec fn spec_eats(self) -> bool {
        match self {
            StruggleMove::AddNewPiece { eats } => eats,
            StruggleMove::MovePiece { eats, .. } => eats,
            _ => false,
        }
    }

    /// Runtime counterpart of [`StruggleMove::spec_eats`].
    pub fn eats(&self) -> (r: bool)
        ensures
            r == self.spec_eats(),
    {
        match self {
            StruggleMove::AddNewPiece { eats } => *eats,
            StruggleMove::MovePiece { eats, .. } => *eats,
            _ => false,
        }
    }
}

/// The board of the four-arm variant: a 28-cell ring, four 4-slot goal
/// tracks, four home bases, the two colors actually playing, and the cached
/// piece lists of those two colors.
pub struct Board {
    pub tiles: Vec<BoardCell>,
    pub goals: Vec<Vec<BoardCell>>,
    pub home_bases: Vec<HomeBase>,
    pub players: (PlayerColor, PlayerColor),
    pub piece_cache: (Vec<PiecePosition>, Vec<PiecePosition>),
}

/// Number of ring cells of the four-arm variant.
pub const RING_LEN: usize = 28;

/// Number of slots of each goal track of the four-arm variant.
pub const GOAL_LEN: usize = 4;

impl Board {
    /// Ring cell on which pieces of `p` enter from home.
    pub open spec fn start_of(p: PlayerColor) -> int {
        7 * p.idx()
    }

    /// Last ring cell of `p` before its goal track.
    pub open spec fn entrance_of(p: PlayerColor) -> int {
        if p.idx() == 0 {
            27
        } else {
            7 * p.idx() - 1
        }
    }

    /// Steps needed to walk clockwise from ring cell `from` to ring cell `to`.
    pub open spec fn cw_dist(from: int, to: int) -> int {
        if to >= from {
            to - from
        } else {
            28 - from + to
        }
    }

    /// The goal track of color `c`.
    pub open spec fn goal_of(self, c: PlayerColor) -> Seq<BoardCell> {
        self.goals@[c.idx()]@
    }

    /// Pieces of `c` still waiting in its home base.
    pub open spec fn waiting(self, c: PlayerColor) -> int {
        self.home_bases@[c.idx()].pieces_waiting as int
    }

    /// Whether `c` is one of the two colors playing on this board.
    pub open spec fn is_player(self, c: PlayerColor) -> bool {
        c == self.players.0 || c == self.players.1
    }

    /// The fixed shape of the board: all tables have their nominal lengths.
    pub open spec fn lens_ok(self) -> bool {
        &&& self.tiles@.len() == 28
        &&& self.goals@.len() == 4
        &&& forall|g: int| 0 <= g < 4 ==> (#[trigger] self.goals@[g])@.len() == 4
        &&& self.home_bases@.len() == 4
    }

    /// Ring cells hold only pieces of the two playing colors.
    pub open spec fn tiles_ok(self) -> bool {
        forall|i: int|
            0 <= i < 28 ==> (#[trigger] self.tiles@[i] matches Some(c) ==> self.is_player(c))
    }

    /// Goal slots hold only pieces of the owning, playing color.
    pub open spec fn goals_ok(self) -> bool {
        forall|g: int, s: int|
            0 <= g < 4 && 0 <= s < 4 ==> (#[trigger] self.goals@[g]@[s] matches Some(c) ==> c.idx()
                == g && self.is_player(c))
    }

    /// Every color owns exactly four pieces, split between its home base, the
    /// ring, and its goal track.
    pub open spec fn conservation(self) -> bool {
        forall|c: PlayerColor|
            #[trigger] self.waiting(c) + color_count(self.tiles@, c) + filled_count(
                self.goal_of(c),
            ) == 4
    }

    /// Colors that are not playing still have all pieces at home.
    pub open spec fn nonplayers_idle(self) -> bool {
        forall|c: PlayerColor|
            !self.is_player(c) ==> #[trigger] self.waiting(c) == 4 && filled_count(self.goal_of(c))
                == 0
    }

    /// `s` is the canonical piece list of color `c`: exactly the positions of
    /// the pieces of `c`, without duplicates, in canonical order.
    pub open spec fn lists_pieces(self, c: PlayerColor, s: Seq<PiecePosition>) -> bool {
        &&& forall|k: int|
            0 <= k < s.len() ==> (match #[trigger] s[k] {
                PiecePosition::Board(i) => i < 28 && self.tiles@[i as int] == Some(c),
                PiecePosition::Goal(g) => g < 4 && self.goal_of(c)[g as int] is Some,
            })
        &&& forall|i: int|
            0 <= i < 28 && #[trigger] self.tiles@[i] == Some(c) ==> s.contains(
                PiecePosition::Board(i as u8),
            )
        &&& forall|g: int|
            0 <= g < 4 && (#[trigger] self.goal_of(c)[g]) is Some ==> s.contains(
                PiecePosition::Goal(g as u8),
            )
        &&& forall|k1: int, k2: int| 0 <= k1 < k2 < s.len() ==> s[k1].key() < s[k2].key()
        &&& s.len() == color_count(self.tiles@, c) + filled_count(self.goal_of(c))
    }

    /// The cached piece lists are the canonical lists of the two players.
    pub open spec fn cache_ok(self) -> bool {
        &&& self.lists_pieces(self.players.0, self.piece_cache.0@)
        &&& self.lists_pieces(self.players.1, self.piece_cache.1@)
    }

    /// Well-formedness: shape, content, conservation and cache coherence.
    pub open spec fn wf(self) -> bool {
        &&& self.lens_ok()
        &&& self.players.0 != self.players.1
        &&& self.tiles_ok()
        &&& self.goals_ok()
        &&& self.conservation()
        &&& self.nonplayers_idle()
        &&& self.cache_ok()
    }

    /// Whether every slot of goal track `g` is filled.
    pub open spec fn goal_full(self, g: int) -> bool {
        forall|s: int| 0 <= s < 4 ==> (#[trigger] self.goals@[g]@[s]) is Some
    }

    /// The winner, if a goal track is completely filled: the owner of the
    /// first such track.
    pub open spec fn spec_winner(self) -> Option<PlayerColor> {
        if self.goal_full(0) {
            Some(PlayerColor::Red)
        } else if self.goal_full(1) {
            Some(PlayerColor::Blue)
        } else if self.goal_full(2) {
            Some(PlayerColor::Yellow)
        } else if self.goal_full(3) {
            Some(PlayerColor::Green)
        } else {
            None
        }
    }
}

impl Board {
    /// A fresh board for the two given colors: empty ring and goals, all
    /// pieces waiting at home.
    pub fn new(player_a: PlayerColor, player_b: PlayerColor) -> (r: Board)
        requires
            player_a != player_b,
        ensures
            r.wf(),
            r.players == (player_a, player_b),
            forall|i: int| 0 <= i < 28 ==> (#[trigger] r.tiles@[i]) is None,
            forall|g: int, s: int| 0 <= g < 4 && 0 <= s < 4 ==> (#[trigger] r.goals@[g]@[s]) is None,
            forall|c: PlayerColor| #[trigger] r.waiting(c) == 4,
    {
        let tiles: Vec<BoardCell> = empty_cells(RING_LEN);
        let mut goals: Vec<Vec<BoardCell>> = Vec::new();
        let mut g: usize = 0;
        while g < 4
            invariant
                goals@.len() == g,
                g <= 4,
                forall|gi: int|
                    0 <= gi < g ==> (#[trigger] goals@[gi])@.len() == 4 && forall|s: int|
                        0 <= s < 4 ==> goals@[gi]@[s] is None,
            decreases 4 - g,
        {
            goals.push(empty_cells(GOAL_LEN));
            g = g + 1;
        }
        let mut home_bases: Vec<HomeBase> = Vec::new();
        let mut h: usize = 0;
        while h < 4
            invariant
                home_bases@.len() == h,
                h <= 4,
                forall|hi: int| 0 <= hi < h ==> (#[trigger] home_bases@[hi]).pieces_waiting == 4,
            decreases 4 - h,
        {
            home_bases.push(HomeBase::new());
            h = h + 1;
        }
        let board = Board {
            tiles,
            goals,
            home_bases,
            players: (player_a, player_b),
            piece_cache: (Vec::new(), Vec::new()),
        };
        proof {
            assert forall|c: PlayerColor| #[trigger] board.waiting(c) + color_count(
                board.tiles@,
                c,
            ) + filled_count(board.goal_of(c)) == 4 by {
                lemma_count_of_empty(board.tiles@, c);
                lemma_count_of_empty(board.goal_of(c), c);
            }
            assert forall|c: PlayerColor| !board.is_player(c) implies #[trigger] board.waiting(c)
                == 4 && filled_count(board.goal_of(c)) == 0 by {
                lemma_count_of_empty(board.goal_of(c), c);
            }
            assert(board.lists_pieces(board.players.0, board.piece_cache.0@)) by {
                lemma_count_of_empty(board.tiles@, board.players.0);
                lemma_count_of_empty(board.goal_of(board.players.0), board.players.0);
            }
            assert(board.lists_pieces(board.players.1, board.piece_cache.1@)) by {
                lemma_count_of_empty(board.tiles@, board.players.1);
                lemma_count_of_empty(board.goal_of(board.players.1), board.players.1);
            }
        }
        board
    }

    /// Ring cell on which pieces of `player` enter from home.
    pub fn get_start(player: PlayerColor) -> (r: u8)
        ensures
            r == Board::start_of(player),
    {
        match player {
            PlayerColor::Red => 0,
            PlayerColor::Blue => 7,
            PlayerColor::Yellow => 14,
            PlayerColor::Green => 21,
        }
    }

    /// The winner, if a goal track is completely filled.
    pub fn get_winner(&self) -> (r: Option<PlayerColor>)
        requires
            self.lens_ok(),
        ensures
            r == self.spec_winner(),
    {
        let mut g: usize = 0;
        while g < 4
            invariant
                self.lens_ok(),
                g <= 4,
                forall|gi: int| 0 <= gi < g ==> !self.goal_full(gi),
            decreases 4 - g,
        {
            let track = &self.goals[g];
            if track[0].is_some() && track[1].is_some() && track[2].is_some()
                && track[3].is_some() {
                return Some(PlayerColor::from_index(g));
            }
            g = g + 1;
        }
        None
    }

    /// The cached piece lists of `player` and of its opponent.
    pub fn get_pieces(&self, player: PlayerColor, _enemy: PlayerColor) -> (r: (
        &Vec<PiecePosition>,
        &Vec<PiecePosition>,
    ))
        ensures
            player == self.players.0 ==> r.0@ == self.piece_cache.0@ && r.1@
                == self.piece_cache.1@,
            player != self.players.0 ==> r.0@ == self.piece_cache.1@ && r.1@
                == self.piece_cache.0@,
    {
        if player == self.players.0 {
            (&self.piece_cache.0, &self.piece_cache.1)
        } else {
            (&self.piece_cache.1, &self.piece_cache.0)
        }
    }

    /// The two colors playing on this board.
    pub fn players(&self) -> (r: (PlayerColor, PlayerColor))
        ensures
            r == self.players,
    {
        self.players
    }

    /// Steps needed to walk clockwise from ring cell `from` to ring cell `to`.
    pub fn clockwise_distance(&self, from: u8, to: u8) -> (r: u8)
        requires
            from < 28,
            to < 28,
        ensures
            r == Board::cw_dist(from as int, to as int),
    {
        if to >= from {
            to - from
        } else {
            28 - from + to
        }
    }

    /// Clockwise distance from `pos` to the last ring cell of `player` before
    /// its goal track.
    pub fn distance_to_goal_entrance(&self, player: PlayerColor, pos: u8) -> (r: u8)
        requires
            pos < 28,
        ensures
            r == Board::cw_dist(pos as int, Board::entrance_of(player)),
    {
        let goal = match player {
            PlayerColor::Red => 27,
            _ => Board::get_start(player) - 1,
        };
        self.clockwise_distance(pos, goal)
    }

    /// Clockwise distance from `board_pos` into goal slot `goal_pos`.
    pub fn distance_to_goal_slot(&self, player: PlayerColor, board_pos: u8, goal_pos: u8) -> (r:
        u8)
        requires
            board_pos < 28,
            goal_pos < 4,
        ensures
            r == Board::cw_dist(board_pos as int, Board::entrance_of(player)) + goal_pos + 1,
    {
        let distance_to_goal = self.distance_to_goal_entrance(player, board_pos);
        distance_to_goal + goal_pos + 1
    }

    /// How many pieces of `player` already stand in its goal track.
    pub fn pieces_in_goal(&self, player: PlayerColor) -> (r: u8)
        requires
            self.lens_ok(),
        ensures
            r == filled_count(self.goal_of(player)),
    {
        let track = &self.goals[player.index()];
        let mut n: u8 = 0;
        let mut s: usize = 0;
        while s < 4
            invariant
                self.lens_ok(),
                track@ == self.goal_of(player),
                s <= 4,
                n == filled_count(self.goal_of(player).subrange(0, s as int)),
                n <= s,
            decreases 4 - s,
        {
            proof {
                lemma_filled_count_extend(self.goal_of(player), s as int);
            }
            if track[s].is_some() {
                n = n + 1;
            }
            s = s + 1;
        }
        proof {
            assert(self.goal_of(player).subrange(0, 4) =~= self.goal_of(player));
        }
        n
    }
}

impl Board {
    /// Rebuild the canonical piece lists of `player` and `enemy` from the
    /// board content.
    fn get_pieces_internal(&self, player: PlayerColor, enemy: PlayerColor) -> (r: (
        Vec<PiecePosition>,
        Vec<PiecePosition>,
    ))
        requires
            self.lens_ok(),
            player != enemy,
            forall|i: int|
                0 <= i < 28 ==> (#[trigger] self.tiles@[i] matches Some(c) ==> c == player || c
                    == enemy),
        ensures
            self.lists_pieces(player, r.0@),
            self.lists_pieces(enemy, r.1@),
    {
        let mut own: Vec<PiecePosition> = Vec::new();
        let mut opp: Vec<PiecePosition> = Vec::new();

        let mut i: usize = 0;
        while i < 28
            invariant
                self.lens_ok(),
                player != enemy,
                forall|j: int|
                    0 <= j < 28 ==> (#[trigger] self.tiles@[j] matches Some(c) ==> c == player || c
                        == enemy),
                i <= 28,
                forall|k: int|
                    0 <= k < own@.len() ==> (#[trigger] own@[k] matches PiecePosition::Board(j)
                        && j < i && self.tiles@[j as int] == Some(player)),
                forall|k: int|
                    0 <= k < opp@.len() ==> (#[trigger] opp@[k] matches PiecePosition::Board(j)
                        && j < i && self.tiles@[j as int] == Some(enemy)),
                forall|j: int|
                    0 <= j < i && #[trigger] self.tiles@[j] == Some(player) ==> own@.contains(
                        PiecePosition::Board(j as u8),
                    ),
                forall|j: int|
                    0 <= j < i && #[trigger] self.tiles@[j] == Some(enemy) ==> opp@.contains(
                        PiecePosition::Board(j as u8),
                    ),
                forall|k1: int, k2: int|
                    0 <= k1 < k2 < own@.len() ==> own@[k1].key() < own@[k2].key(),
                forall|k1: int, k2: int|
                    0 <= k1 < k2 < opp@.len() ==> opp@[k1].key() < opp@[k2].key(),
                forall|k: int| 0 <= k < own@.len() ==> (#[trigger] own@[k]).key() < i,
                forall|k: int| 0 <= k < opp@.len() ==> (#[trigger] opp@[k]).key() < i,
                own@.len() == color_count(self.tiles@.subrange(0, i as int), player),
                opp@.len() == color_count(self.tiles@.subrange(0, i as int), enemy),
            decreases 28 - i,
        {
            proof {
                lemma_color_count_extend(self.tiles@, player, i as int);
                lemma_color_count_extend(self.tiles@, enemy, i as int);
            }
            match self.tiles[i] {
                Some(color) => {
                    if color == player {
                        own.push(PiecePosition::Board(i as u8));
                    } else {
                        opp.push(PiecePosition::Board(i as u8));
                    }
                },
                None => {},
            }
            i = i + 1;
        }
        proof {
            assert(self.tiles@.subrange(0, 28) =~= self.tiles@);
        }

        let own_track = &self.goals[player.index()];
        let mut s: usize = 0;
        while s < 4
            invariant
                self.lens_ok(),
                own_track@ == self.goal_of(player),
                s <= 4,
                forall|k: int|
                    0 <= k < own@.len() ==> (match #[trigger] own@[k] {
                        PiecePosition::Board(j) => j < 28 && self.tiles@[j as int] == Some(player),
                        PiecePosition::Goal(g) => g < s && self.goal_of(player)[g as int] is Some,
                    }),
                forall|j: int|
                    0 <= j < 28 && #[trigger] self.tiles@[j] == Some(player) ==> own@.contains(
                        PiecePosition::Board(j as u8),
                    ),
                forall|g: int|
                    0 <= g < s && (#[trigger] self.goal_of(player)[g]) is Some ==> own@.contains(
                        PiecePosition::Goal(g as u8),
                    ),
                forall|k1: int, k2: int|
                    0 <= k1 < k2 < own@.len() ==> own@[k1].key() < own@[k2].key(),
                forall|k: int| 0 <= k < own@.len() ==> (#[trigger] own@[k]).key() < 100 + s,
                own@.len() == color_count(self.tiles@, player) + filled_count(
                    self.goal_of(player).subrange(0, s as int),
                ),
            decreases 4 - s,
        {
            proof {
                lemma_filled_count_extend(self.goal_of(player), s as int);
            }
            if own_track[s].is_some() {
                own.push(PiecePosition::Goal(s as u8));
            }
            s = s + 1;
        }
        proof {
            assert(self.goal_of(player).subrange(0, 4) =~= self.goal_of(player));
        }

        let opp_track = &self.goals[enemy.index()];
        let mut t: usize = 0;
        while t < 4
            invariant
                self.lens_ok(),
                opp_track@ == self.goal_of(enemy),
                t <= 4,
                forall|k: int|
                    0 <= k < opp@.len() ==> (match #[trigger] opp@[k] {
                        PiecePosition::Board(j) => j < 28 && self.tiles@[j as int] == Some(enemy),
                        PiecePosition::Goal(g) => g < t && self.goal_of(enemy)[g as int] is Some,
                    }),
                forall|j: int|
                    0 <= j < 28 && #[trigger] self.tiles@[j] == Some(enemy) ==> opp@.contains(
                        PiecePosition::Board(j as u8),
                    ),
                forall|g: int|
                    0 <= g < t && (#[trigger] self.goal_of(enemy)[g]) is Some ==> opp@.contains(
                        PiecePosition::Goal(g as u8),
                    ),
                forall|k1: int, k2: int|
                    0 <= k1 < k2 < opp@.len() ==> opp@[k1].key() < opp@[k2].key(),
                forall|k: int| 0 <= k < opp@.len() ==> (#[trigger] opp@[k]).key() < 100 + t,
                opp@.len() == color_count(self.tiles@, enemy) + filled_count(
                    self.goal_of(enemy).subrange(0, t as int),
                ),
            decreases 4 - t,
        {
            proof {
                lemma_filled_count_extend(self.goal_of(enemy), t as int);
            }
            if opp_track[t].is_some() {
                opp.push(PiecePosition::Goal(t as u8));
            }
            t = t + 1;
        }
        proof {
            assert(self.goal_of(enemy).subrange(0, 4) =~= self.goal_of(enemy));
        }

        (own, opp)
    }

    /// Recompute the cached piece lists after a mutation.
    pub fn update_piece_cache(&mut self)
        requires
            old(self).lens_ok(),
            old(self).players.0 != old(self).players.1,
            forall|i: int|
                0 <= i < 28 ==> (#[trigger] old(self).tiles@[i] matches Some(c) ==> old(
                    self,
                ).is_player(c)),
        ensures
            final(self).tiles == old(self).tiles,
            final(self).goals == old(self).goals,
            final(self).home_bases == old(self).home_bases,
            final(self).players == old(self).players,
            final(self).cache_ok(),
    {
        let cache = self.get_pieces_internal(self.players.0, self.players.1);
        self.piece_cache = cache;
    }
}

/// Landing slot in the goal track when the step from `from` by `dice` crosses
/// the mover's goal entrance; `None` when the step stays on the ring.  The
/// color starting at ring index 0 detects the crossing by the wrap-around.
pub open spec fn goal_rel_pos(player: PlayerColor, from: int, dice: int) -> Option<int> {
    let to = (from + dice) % 28;
    if player.idx() == 0 {
        if to < from {
            Some(to)
        } else {
            None::<int>
        }
    } else {
        let start = Board::start_of(player);
        if from < start && to >= start {
            Some(to - start)
        } else {
            None::<int>
        }
    }
}

/// The move that the piece of `player` standing at `p` can make with `dice`,
/// if any: the crossing step into a free goal slot, a silent or capturing ring
/// step, or a jump forward inside the goal track.
pub open spec fn piece_move(b: Board, player: PlayerColor, dice: int, p: PiecePosition) -> Option<
    StruggleMove,
> {
    match p {
        PiecePosition::Board(from) => {
            let to = (from as int + dice) % 28;
            match goal_rel_pos(player, from as int, dice) {
                Some(g) => if 0 <= g < 4 && b.goal_of(player)[g] is None {
                    Some(StruggleMove::MoveToGoal { from_board: from, to_goal: g as u8 })
                } else {
                    None::<StruggleMove>
                },
                None => match b.tiles@[to] {
                    None => Some(StruggleMove::MovePiece { from, to: to as u8, eats: false }),
                    Some(c) => if c != player {
                        Some(StruggleMove::MovePiece { from, to: to as u8, eats: true })
                    } else {
                        None::<StruggleMove>
                    },
                },
            }
        },
        PiecePosition::Goal(i) => {
            let tg = i as int + dice;
            if tg < 4 && b.goal_of(player)[tg] is None {
                Some(StruggleMove::MoveInGoal { from_goal: i, to_goal: tg as u8 })
            } else {
                None::<StruggleMove>
            }
        },
    }
}

/// The entry move of `player`, if one is available: a piece may leave home
/// only onto its own start cell, and only if that cell does not already hold
/// a piece of the mover.
pub open spec fn entry_move(b: Board, player: PlayerColor) -> Option<StruggleMove> {
    if b.waiting(player) > 0 {
        match b.tiles@[Board::start_of(player)] {
            None => Some(StruggleMove::AddNewPiece { eats: false }),
            Some(c) => if c != player {
                Some(StruggleMove::AddNewPiece { eats: true })
            } else {
                None::<StruggleMove>
            },
        }
    } else {
        None::<StruggleMove>
    }
}

/// A non-skip move is legal exactly when the entry rule (on the maximum die
/// face) or one of the mover's pieces produces it.
pub open spec fn action_move_ok(b: Board, player: PlayerColor, dice: int, m: StruggleMove) -> bool {
    ||| (dice == 6 && entry_move(b, player) == Some(m))
    ||| (exists|i: int|
        0 <= i < 28 && #[trigger] b.tiles@[i] == Some(player) && piece_move(
            b,
            player,
            dice,
            PiecePosition::Board(i as u8),
        ) == Some(m))
    ||| (exists|g: int|
        0 <= g < 4 && (#[trigger] b.goal_of(player)[g]) is Some && piece_move(
            b,
            player,
            dice,
            PiecePosition::Goal(g as u8),
        ) == Some(m))
}

/// Whether any non-skip move is legal for `player` with `dice`.
pub open spec fn has_action_move(b: Board, player: PlayerColor, dice: int) -> bool {
    exists|m: StruggleMove| action_move_ok(b, player, dice, m)
}

/// The cached piece list of color `c`, which must be one of the two players.
pub open spec fn side_pieces(b: Board, c: PlayerColor) -> Seq<PiecePosition> {
    if c == b.players.0 {
        b.piece_cache.0@
    } else {
        b.piece_cache.1@
    }
}

/// How many of the pieces `plist[..n]` can move with `dice`.
pub open spec fn piece_moves_upto(
    b: Board,
    player: PlayerColor,
    dice: int,
    plist: Seq<PiecePosition>,
    n: int,
) -> int
    decreases n,
{
    if n <= 0 {
        0
    } else {
        piece_moves_upto(b, player, dice, plist, n - 1) + if piece_move(
            b,
            player,
            dice,
            plist[n - 1],
        ) is Some {
            1int
        } else {
            0int
        }
    }
}

/// Exactly how many moves `get_moves` returns for `player` and `dice`: the
/// entry move and one move per piece that can act, or the lone skip sentinel.
pub open spec fn spec_move_count(b: Board, player: PlayerColor, dice: int) -> int {
    let plist = side_pieces(b, player);
    let base = (if dice == 6 && entry_move(b, player) is Some {
        1int
    } else {
        0int
    }) + piece_moves_upto(b, player, dice, plist, plist.len() as int);
    if base == 0 {
        1
    } else {
        base
    }
}

/// One step of the per-piece move count.
proof fn lemma_piece_moves_upto_step(
    b: Board,
    player: PlayerColor,
    dice: int,
    plist: Seq<PiecePosition>,
    k: int,
)
    requires
        0 <= k,
    ensures
        piece_moves_upto(b, player, dice, plist, k + 1) == piece_moves_upto(
            b,
            player,
            dice,
            plist,
            k,
        ) + if piece_move(b, player, dice, plist[k]) is Some {
            1int
        } else {
            0int
        },
{
}

/// The piece a move acts on, when it moves a piece already on the board.
pub open spec fn move_src(m: StruggleMove) -> Option<PiecePosition> {
    match m {
        StruggleMove::MovePiece { from, .. } => Some(PiecePosition::Board(from)),
        StruggleMove::MoveToGoal { from_board, .. } => Some(PiecePosition::Board(from_board)),
        StruggleMove::MoveInGoal { from_goal, .. } => Some(PiecePosition::Goal(from_goal)),
        _ => None::<PiecePosition>,
    }
}

/// A move produced by a piece names that piece as its source.
proof fn lemma_piece_move_src(
    b: Board,
    player: PlayerColor,
    dice: int,
    p: PiecePosition,
    m: StruggleMove,
)
    requires
        piece_move(b, player, dice, p) == Some(m),
    ensures
        move_src(m) == Some(p),
{
    match p {
        PiecePosition::Board(from) => {},
        PiecePosition::Goal(i) => {},
    }
}

/// The freshly produced move of piece `plist[k]` is not yet in `moves`, which
/// holds only the entry move and moves of earlier pieces.
proof fn lemma_fresh_piece_move(
    b: Board,
    player: PlayerColor,
    dice: int,
    plist: Seq<PiecePosition>,
    k: int,
    moves: Seq<StruggleMove>,
    m: StruggleMove,
)
    requires
        forall|k1: int, k2: int| 0 <= k1 < k2 < plist.len() ==> plist[k1].key() < plist[k2].key(),
        0 <= k < plist.len(),
        piece_move(b, player, dice, plist[k]) == Some(m),
        forall|mm: StruggleMove|
            #[trigger] moves.contains(mm) <==> ((dice == 6 && entry_move(b, player) == Some(mm))
                || exists|k2: int|
                0 <= k2 < k && piece_move(b, player, dice, #[trigger] plist[k2]) == Some(mm)),
    ensures
        !moves.contains(m),
{
    lemma_piece_move_src(b, player, dice, plist[k], m);
    if moves.contains(m) {
        if dice == 6 && entry_move(b, player) == Some(m) {
            assert(move_src(m) is None);
        } else {
            let k2 = choose|k2: int|
                0 <= k2 < k && piece_move(b, player, dice, #[trigger] plist[k2]) == Some(m);
            lemma_piece_move_src(b, player, dice, plist[k2], m);
            assert(plist[k2] == plist[k]);
            assert(plist[k2].key() < plist[k].key());
        }
    }
}

impl Board {
    /// All legal moves of `player` for die face `dice`: exhaustive, free of
    /// duplicates, and never empty — when nothing else is legal the list is
    /// exactly the skip sentinel.
    #[verifier::rlimit(100)]
    pub fn get_moves(&self, dice: u8, player: PlayerColor, enemy: PlayerColor) -> (r: Vec<
        StruggleMove,
    >)
        requires
            self.wf(),
            1 <= dice <= 6,
            self.is_player(player),
            self.is_player(enemy),
            player != enemy,
        ensures
            r@.len() >= 1,
            forall|k1: int, k2: int| 0 <= k1 < k2 < r@.len() ==> r@[k1] != r@[k2],
            forall|m: StruggleMove|
                #[trigger] r@.contains(m) <==> (action_move_ok(*self, player, dice as int, m) || (m
                    == StruggleMove::SkipTurn && !has_action_move(*self, player, dice as int))),
            !has_action_move(*self, player, dice as int) ==> r@ =~= seq![StruggleMove::SkipTurn],
            r@.len() == spec_move_count(*self, player, dice as int),
            r@ == spec_move_list(*self, player, dice as int),
    {
        let ghost entry_part = (match entry_move(*self, player) {
            Some(em) => if dice == 6 {
                seq![em]
            } else {
                Seq::<StruggleMove>::empty()
            },
            None => Seq::<StruggleMove>::empty(),
        });
        let mut moves: Vec<StruggleMove> = Vec::new();

        let player_start = Board::get_start(player);
        if self.home_bases[player.index()].pieces_waiting > 0 && dice == 6 {
            match self.tiles[player_start as usize] {
                Some(other_piece) => {
                    if other_piece != player {
                        moves.push(StruggleMove::AddNewPiece { eats: true });
                    }
                },
                None => {
                    moves.push(StruggleMove::AddNewPiece { eats: false });
                },
            }
        }
        assert(forall|mm: StruggleMove|
            #[trigger] moves@.contains(mm) <==> (dice == 6 && entry_move(*self, player) == Some(
                mm,
            )));
        proof {
            assert(moves@ =~= entry_part);
        }

        let pieces = if player == self.players.0 {
            &self.piece_cache.0
        } else {
            &self.piece_cache.1
        };
        assert(self.lists_pieces(player, pieces@));
        assert(pieces@ == side_pieces(*self, player));

        let mut k: usize = 0;
        while k < pieces.len()
            invariant
                self.wf(),
                1 <= dice <= 6,
                self.is_player(player),
                player_start == Board::start_of(player),
                self.lists_pieces(player, pieces@),
                k <= pieces@.len(),
                forall|k1: int, k2: int| 0 <= k1 < k2 < moves@.len() ==> moves@[k1] != moves@[k2],
                forall|mm: StruggleMove|
                    #[trigger] moves@.contains(mm) <==> ((dice == 6 && entry_move(*self, player)
                        == Some(mm)) || exists|k2: int|
                        0 <= k2 < k && piece_move(
                            *self,
                            player,
                            dice as int,
                            #[trigger] pieces@[k2],
                        ) == Some(mm)),
                moves@.len() == (if dice == 6 && entry_move(*self, player) is Some {
                    1int
                } else {
                    0int
                }) + piece_moves_upto(*self, player, dice as int, pieces@, k as int),
                entry_part == (match entry_move(*self, player) {
                    Some(em) => if dice == 6 {
                        seq![em]
                    } else {
                        Seq::<StruggleMove>::empty()
                    },
                    None => Seq::<StruggleMove>::empty(),
                }),
                moves@ == entry_part + piece_move_list(*self, player, dice as int, pieces@, k as int),
            decreases pieces@.len() - k,
        {
            let ghost prev_moves = moves@;
            let piece = pieces[k];
            match piece {
                PiecePosition::Board(current_pos) => {
                    let new_pos = (current_pos + dice) % 28;
                    let goal_relative_pos: Option<u8> = if player_start == 0 {
                        if new_pos < current_pos {
                            Some(new_pos)
                        } else {
                            None
                        }
                    } else {
                        if current_pos < player_start && new_pos >= player_start {
                            Some(new_pos - player_start)
                        } else {
                            None
                        }
                    };
                    proof {
                        assert(player_start == 0 <==> player.idx() == 0);
                        assert(goal_relative_pos matches Some(g) ==> goal_rel_pos(
                            player,
                            current_pos as int,
                            dice as int,
                        ) == Some(g as int));
                        assert(goal_relative_pos is None ==> goal_rel_pos(
                            player,
                            current_pos as int,
                            dice as int,
                        ) is None);
                    }
                    match goal_relative_pos {
                        Some(pos) => {
                            if !(pos < 4 && self.goals[player.index()][pos as usize].is_none()) {
                                proof {
                                    assert(piece_move(*self, player, dice as int, pieces@[k as int])
                                        is None);
                                }
                            }
                            if pos < 4 && self.goals[player.index()][pos as usize].is_none() {
                                let m = StruggleMove::MoveToGoal {
                                    from_board: current_pos,
                                    to_goal: pos,
                                };
                                proof {
                                    assert(piece_move(*self, player, dice as int, pieces@[k as int])
                                        == Some(m));
                                    lemma_fresh_piece_move(
                                        *self,
                                        player,
                                        dice as int,
                                        pieces@,
                                        k as int,
                                        prev_moves,
                                        m,
                                    );
                                }
                                moves.push(m);
                            }
                        },
                        None => {
                            match self.tiles[new_pos as usize] {
                                None => {
                                    let m = StruggleMove::MovePiece {
                                        from: current_pos,
                                        to: new_pos,
                                        eats: false,
                                    };
                                    proof {
                                        assert(piece_move(
                                            *self,
                                            player,
                                            dice as int,
                                            pieces@[k as int],
                                        ) == Some(m));
                                        lemma_fresh_piece_move(
                                            *self,
                                            player,
                                            dice as int,
                                            pieces@,
                                            k as int,
                                            prev_moves,
                                            m,
                                        );
                                    }
                                    moves.push(m);
                                },
                                Some(other_piece) => {
                                    if other_piece == player {
                                        proof {
                                            assert(piece_move(
                                                *self,
                                                player,
                                                dice as int,
                                                pieces@[k as int],
                                            ) is None);
                                        }
                                    }
                                    if other_piece != player {
                                        let m = StruggleMove::MovePiece {
                                            from: current_pos,
                                            to: new_pos,
                                            eats: true,
                                        };
                                        proof {
                                            assert(piece_move(
                                                *self,
                                                player,
                                                dice as int,
                                                pieces@[k as int],
                                            ) == Some(m));
                                            lemma_fresh_piece_move(
                                                *self,
                                                player,
                                                dice as int,
                                                pieces@,
                                                k as int,
                                                prev_moves,
                                                m,
                                            );
                                        }
                                        moves.push(m);
                                    }
                                },
                            }
                        },
                    }
                },
                PiecePosition::Goal(i) => {
                    let new_pos = i + dice;
                    if !(new_pos < 4 && self.goals[player.index()][new_pos as usize].is_none()) {
                        proof {
                            assert(piece_move(*self, player, dice as int, pieces@[k as int])
                                is None);
                        }
                    }
                    if new_pos < 4 && self.goals[player.index()][new_pos as usize].is_none() {
                        let m = StruggleMove::MoveInGoal { from_goal: i, to_goal: new_pos };
                        proof {
                            assert(piece_move(*self, player, dice as int, pieces@[k as int])
                                == Some(m));
                            lemma_fresh_piece_move(
                                *self,
                                player,
                                dice as int,
                                pieces@,
                                k as int,
                                prev_moves,
                                m,
                            );
                        }
                        moves.push(m);
                    }
                },
            }
            proof {
                lemma_piece_moves_upto_step(*self, player, dice as int, pieces@, k as int);
                lemma_piece_move_list_step(*self, player, dice as int, pieces@, k as int);
                assert(moves@ =~= entry_part + piece_move_list(
                    *self,
                    player,
                    dice as int,
                    pieces@,
                    k + 1,
                ));
            }
            k = k + 1;
        }

        proof {
            assert forall|m: StruggleMove| #[trigger] moves@.contains(m) implies action_move_ok(
                *self,
                player,
                dice as int,
                m,
            ) by {
                if !(dice == 6 && entry_move(*self, player) == Some(m)) {
                    let k2 = choose|k2: int|
                        0 <= k2 < pieces@.len() && piece_move(
                            *self,
                            player,
                            dice as int,
                            #[trigger] pieces@[k2],
                        ) == Some(m);
                    match pieces@[k2] {
                        PiecePosition::Board(i) => {
                            assert(self.tiles@[i as int] == Some(player));
                        },
                        PiecePosition::Goal(g) => {
                            assert(self.goal_of(player)[g as int] is Some);
                        },
                    }
                }
            }
            assert forall|m: StruggleMove|
                action_move_ok(*self, player, dice as int, m) implies #[trigger] moves@.contains(
                m,
            ) by {
                if dice == 6 && entry_move(*self, player) == Some(m) {
                } else if exists|i: int|
                    0 <= i < 28 && #[trigger] self.tiles@[i] == Some(player) && piece_move(
                        *self,
                        player,
                        dice as int,
                        PiecePosition::Board(i as u8),
                    ) == Some(m) {
                    let i = choose|i: int|
                        0 <= i < 28 && #[trigger] self.tiles@[i] == Some(player) && piece_move(
                            *self,
                            player,
                            dice as int,
                            PiecePosition::Board(i as u8),
                        ) == Some(m);
                    assert(pieces@.contains(PiecePosition::Board(i as u8)));
                    let k2 = choose|k2: int|
                        0 <= k2 < pieces@.len() && pieces@[k2] == PiecePosition::Board(i as u8);
                    assert(piece_move(*self, player, dice as int, pieces@[k2]) == Some(m));
                } else {
                    let g = choose|g: int|
                        0 <= g < 4 && (#[trigger] self.goal_of(player)[g]) is Some && piece_move(
                            *self,
                            player,
                            dice as int,
                            PiecePosition::Goal(g as u8),
                        ) == Some(m);
                    assert(pieces@.contains(PiecePosition::Goal(g as u8)));
                    let k2 = choose|k2: int|
                        0 <= k2 < pieces@.len() && pieces@[k2] == PiecePosition::Goal(g as u8);
                    assert(piece_move(*self, player, dice as int, pieces@[k2]) == Some(m));
                }
            }
        }

        if moves.is_empty() {
            proof {
                assert(!has_action_move(*self, player, dice as int)) by {
                    if has_action_move(*self, player, dice as int) {
                        let m = choose|m: StruggleMove|
                            action_move_ok(*self, player, dice as int, m);
                        assert(moves@.contains(m));
                    }
                }
            }
            moves.push(StruggleMove::SkipTurn);
            proof {
                assert(moves@ =~= seq![StruggleMove::SkipTurn]);
                assert(moves@ =~= spec_move_list(*self, player, dice as int));
            }
        } else {
            proof {
                assert(has_action_move(*self, player, dice as int)) by {
                    let m0 = moves@[0];
                    assert(moves@.contains(m0));
                }
                assert(moves@ =~= spec_move_list(*self, player, dice as int));
            }
        }
        moves
    }
}

/// The color held by a cell, with an arbitrary default on an empty cell.
pub open spec fn cell_color(c: BoardCell) -> PlayerColor {
    match c {
        Some(p) => p,
        None => PlayerColor::Red,
    }
}

/// What a move demands of the board it is applied to.  Every legal move is
/// applicable (see `lemma_move_ok_applicable`); applying anything else is a
/// defect of the caller.
pub open spec fn applicable(b: Board, player: PlayerColor, m: StruggleMove) -> bool {
    match m {
        StruggleMove::AddNewPiece { eats } => b.waiting(player) > 0 && (if eats {
            b.tiles@[Board::start_of(player)] matches Some(c) && c != player
        } else {
            b.tiles@[Board::start_of(player)] is None
        }),
        StruggleMove::MovePiece { from, to, eats } => from < 28 && to < 28 && from != to
            && b.tiles@[from as int] == Some(player) && (if eats {
            b.tiles@[to as int] matches Some(c) && c != player
        } else {
            b.tiles@[to as int] is None
        }),
        StruggleMove::MoveToGoal { from_board, to_goal } => from_board < 28 && to_goal < 4
            && b.tiles@[from_board as int] == Some(player) && b.goal_of(player)[to_goal as int]
            is None,
        StruggleMove::MoveInGoal { from_goal, to_goal } => from_goal < 4 && to_goal < 4
            && from_goal != to_goal && b.goal_of(player)[from_goal as int] is Some && b.goal_of(
            player,
        )[to_goal as int] is None,
        StruggleMove::SkipTurn => true,
    }
}

/// Every legal move can be applied to the board it was generated from.
pub proof fn lemma_move_ok_applicable(b: Board, player: PlayerColor, dice: int, m: StruggleMove)
    requires
        b.wf(),
        1 <= dice <= 6,
        action_move_ok(b, player, dice, m),
    ensures
        applicable(b, player, m),
{
    if dice == 6 && entry_move(b, player) == Some(m) {
    } else if exists|i: int|
        0 <= i < 28 && #[trigger] b.tiles@[i] == Some(player) && piece_move(
            b,
            player,
            dice,
            PiecePosition::Board(i as u8),
        ) == Some(m) {
        let i = choose|i: int|
            0 <= i < 28 && #[trigger] b.tiles@[i] == Some(player) && piece_move(
                b,
                player,
                dice,
                PiecePosition::Board(i as u8),
            ) == Some(m);
        assert((i + dice) % 28 != i && 0 <= (i + dice) % 28 < 28);
    } else {
        let g = choose|g: int|
            0 <= g < 4 && (#[trigger] b.goal_of(player)[g]) is Some && piece_move(
                b,
                player,
                dice,
                PiecePosition::Goal(g as u8),
            ) == Some(m);
    }
}

/// The ring after applying `m`, as a function of the ring cells alone.
pub open spec fn moved_tiles_s(tiles: Seq<BoardCell>, player: PlayerColor, m: StruggleMove) -> Seq<
    BoardCell,
> {
    match m {
        StruggleMove::AddNewPiece { .. } => tiles.update(Board::start_of(player), Some(player)),
        StruggleMove::MovePiece { from, to, .. } => tiles.update(to as int, Some(player)).update(
            from as int,
            None,
        ),
        StruggleMove::MoveToGoal { from_board, .. } => tiles.update(from_board as int, None),
        _ => tiles,
    }
}

/// The ring after applying `m`.
pub open spec fn moved_tiles(b: Board, player: PlayerColor, m: StruggleMove) -> Seq<BoardCell> {
    moved_tiles_s(b.tiles@, player, m)
}

/// The mover's goal track after applying `m`, as a function of that track
/// alone.
pub open spec fn moved_goal_s(goal: Seq<BoardCell>, player: PlayerColor, m: StruggleMove) -> Seq<
    BoardCell,
> {
    match m {
        StruggleMove::MoveToGoal { to_goal, .. } => goal.update(to_goal as int, Some(player)),
        StruggleMove::MoveInGoal { from_goal, to_goal } => goal.update(
            to_goal as int,
            Some(player),
        ).update(from_goal as int, None),
        _ => goal,
    }
}

/// The mover's goal track after applying `m`.
pub open spec fn moved_goal(b: Board, player: PlayerColor, m: StruggleMove) -> Seq<BoardCell> {
    moved_goal_s(b.goal_of(player), player, m)
}

/// Color of the piece a capturing move sends back home, read off the ring.
pub open spec fn eaten_color_s(
    tiles: Seq<BoardCell>,
    player: PlayerColor,
    m: StruggleMove,
) -> PlayerColor {
    match m {
        StruggleMove::AddNewPiece { .. } => cell_color(tiles[Board::start_of(player)]),
        StruggleMove::MovePiece { to, .. } => cell_color(tiles[to as int]),
        _ => player,
    }
}

/// Color of the piece a capturing move sends back home.
pub open spec fn eaten_color(b: Board, player: PlayerColor, m: StruggleMove) -> PlayerColor {
    eaten_color_s(b.tiles@, player, m)
}

/// The home-base count of `c` after applying `m`, as a function of the old
/// count and the ring: the mover loses a waiting piece on entry, and a
/// captured color regains exactly one.
pub open spec fn waiting_after_s(
    w: int,
    tiles: Seq<BoardCell>,
    player: PlayerColor,
    m: StruggleMove,
    c: PlayerColor,
) -> int {
    w + (if c == player && m matches StruggleMove::AddNewPiece { .. } {
        -1int
    } else {
        0int
    }) + (if m.spec_eats() && c == eaten_color_s(tiles, player, m) {
        1int
    } else {
        0int
    })
}

/// The home-base count of `c` after applying `m`.
pub open spec fn waiting_after(b: Board, player: PlayerColor, m: StruggleMove, c: PlayerColor)
    -> int {
    waiting_after_s(b.waiting(c), b.tiles@, player, m, c)
}

/// The four goal tracks of a board, as plain sequences.
pub open spec fn goals_view(b: Board) -> Seq<Seq<BoardCell>> {
    Seq::new(4, |g: int| b.goals@[g]@)
}

/// The four home-base counts of a board, as plain integers.
pub open spec fn waiting_view(b: Board) -> Seq<int> {
    Seq::new(4, |i: int| b.home_bases@[i].pieces_waiting as int)
}

/// What any well-formed board reached by applying `m` to the position given
/// by `tiles`, `goalsv`, `waitingv` and `players` must look like.
pub open spec fn after_core(
    tiles: Seq<BoardCell>,
    goalsv: Seq<Seq<BoardCell>>,
    waitingv: Seq<int>,
    players: (PlayerColor, PlayerColor),
    player: PlayerColor,
    m: StruggleMove,
    x: Board,
) -> bool {
    &&& x.wf()
    &&& x.players == players
    &&& x.tiles@ == moved_tiles_s(tiles, player, m)
    &&& forall|c: PlayerColor|
        #[trigger] x.goal_of(c) == (if c == player {
            moved_goal_s(goalsv[player.idx()], player, m)
        } else {
            goalsv[c.idx()]
        })
    &&& forall|c: PlayerColor|
        #[trigger] x.waiting(c) == waiting_after_s(waitingv[c.idx()], tiles, player, m, c)
}

/// Some well-formed board after applying `m` to the given position.  Any two
/// boards fitting that description hold the same position
/// (`lemma_after_unique`), so everything the search specification reads off
/// this board is determined by the arguments.
pub open spec fn board_after(
    tiles: Seq<BoardCell>,
    goalsv: Seq<Seq<BoardCell>>,
    waitingv: Seq<int>,
    players: (PlayerColor, PlayerColor),
    player: PlayerColor,
    m: StruggleMove,
) -> Board {
    choose|x: Board| after_core(tiles, goalsv, waitingv, players, player, m, x)
}

/// Two well-formed boards that fit the same applied-move description hold
/// the same position, cached piece lists included.
pub proof fn lemma_after_unique(
    tiles: Seq<BoardCell>,
    goalsv: Seq<Seq<BoardCell>>,
    waitingv: Seq<int>,
    players: (PlayerColor, PlayerColor),
    player: PlayerColor,
    m: StruggleMove,
    x1: Board,
    x2: Board,
)
    requires
        after_core(tiles, goalsv, waitingv, players, player, m, x1),
        after_core(tiles, goalsv, waitingv, players, player, m, x2),
    ensures
        same_position(x1, x2),
{
    assert forall|g: int| 0 <= g < 4 implies (#[trigger] x2.goals@[g])@ == x1.goals@[g]@ by {
        let cg = color_of_index(g);
        assert(cg.idx() == g);
        assert(x1.goal_of(cg) == x2.goal_of(cg));
    }
    assert(x2.home_bases@ =~= x1.home_bases@) by {
        assert forall|i: int| 0 <= i < 4 implies x2.home_bases@[i] == x1.home_bases@[i] by {
            let ci = color_of_index(i);
            assert(ci.idx() == i);
            assert(x1.waiting(ci) == x2.waiting(ci));
        }
    }
    crate::boardhash::lemma_piece_list_unique(x1, x1.players.0, x1.piece_cache.0@, x2.piece_cache.0@);
    crate::boardhash::lemma_piece_list_unique(x1, x1.players.1, x1.piece_cache.1@, x2.piece_cache.1@);
}

/// The moves of the pieces `plist[..n]`, in list order.
pub open spec fn piece_move_list(
    b: Board,
    player: PlayerColor,
    dice: int,
    plist: Seq<PiecePosition>,
    n: int,
) -> Seq<StruggleMove>
    decreases n,
{
    if n <= 0 {
        Seq::empty()
    } else {
        piece_move_list(b, player, dice, plist, n - 1) + (match piece_move(
            b,
            player,
            dice,
            plist[n - 1],
        ) {
            Some(m) => seq![m],
            None => Seq::empty(),
        })
    }
}

/// Exactly the move list the generator returns: the entry move on the
/// maximum face, then each cached piece's move in canonical order, or the
/// lone skip sentinel when nothing else is legal.
pub open spec fn spec_move_list(b: Board, player: PlayerColor, dice: int) -> Seq<StruggleMove> {
    let plist = side_pieces(b, player);
    let entry_part = (match entry_move(b, player) {
        Some(em) => if dice == 6 {
            seq![em]
        } else {
            Seq::empty()
        },
        None => Seq::empty(),
    });
    let all = entry_part + piece_move_list(b, player, dice, plist, plist.len() as int);
    if all.len() == 0 {
        seq![StruggleMove::SkipTurn]
    } else {
        all
    }
}

/// One step of the per-piece move list.
proof fn lemma_piece_move_list_step(
    b: Board,
    player: PlayerColor,
    dice: int,
    plist: Seq<PiecePosition>,
    k: int,
)
    requires
        0 <= k,
    ensures
        piece_move_list(b, player, dice, plist, k + 1) == piece_move_list(
            b,
            player,
            dice,
            plist,
            k,
        ) + (match piece_move(b, player, dice, plist[k]) {
            Some(m) => seq![m],
            None => Seq::empty(),
        }),
{
}

impl Board {
    /// Apply the cell updates of one move: relocate or remove a piece and
    /// adjust the home bases; a capture returns the captured piece home.
    /// The cached piece lists are left stale; the caller rebuilds them.
    fn apply_move_cells(&mut self, player: PlayerColor, mov: &StruggleMove)
        requires
            old(self).wf(),
            old(self).is_player(player),
            applicable(*old(self), player, *mov),
        ensures
            final(self).tiles@ == moved_tiles(*old(self), player, *mov),
            final(self).tiles@.len() == 28,
            forall|c: PlayerColor|
                #[trigger] final(self).goal_of(c) == (if c == player {
                    moved_goal(*old(self), player, *mov)
                } else {
                    old(self).goal_of(c)
                }),
            forall|c: PlayerColor|
                #[trigger] final(self).waiting(c) == waiting_after(*old(self), player, *mov, c),
            final(self).goals@.len() == 4,
            forall|g: int| 0 <= g < 4 ==> (#[trigger] final(self).goals@[g])@.len() == 4,
            final(self).home_bases@.len() == 4,
            final(self).players == old(self).players,
            forall|i: int|
                0 <= i < 28 ==> (#[trigger] final(self).tiles@[i] matches Some(c)
                    ==> final(self).is_player(c)),
            final(self).goals_ok(),
    {
        let ghost b0 = *old(self);
        match mov {
            StruggleMove::AddNewPiece { eats } => {
                let start = Board::get_start(player) as usize;
                if *eats {
                    let other_player = self.tiles[start].unwrap();
                    proof {
                        lemma_count_at_least_one(b0.tiles@, other_player, start as int);
                        lemma_filled_count_bounds(b0.goal_of(other_player));
                        assert(b0.waiting(other_player) + color_count(b0.tiles@, other_player)
                            + filled_count(b0.goal_of(other_player)) == 4);
                    }
                    let vi = other_player.index();
                    let w = self.home_bases[vi].pieces_waiting;
                    self.home_bases[vi] = HomeBase { pieces_waiting: w + 1 };
                }
                self.tiles[start] = Some(player);
                let pi = player.index();
                let w = self.home_bases[pi].pieces_waiting;
                self.home_bases[pi] = HomeBase { pieces_waiting: w - 1 };
            },
            StruggleMove::MovePiece { from, to, eats } => {
                if *eats {
                    let target_player = self.tiles[*to as usize].unwrap();
                    proof {
                        lemma_count_at_least_one(b0.tiles@, target_player, *to as int);
                        lemma_filled_count_bounds(b0.goal_of(target_player));
                        assert(b0.waiting(target_player) + color_count(b0.tiles@, target_player)
                            + filled_count(b0.goal_of(target_player)) == 4);
                    }
                    let vi = target_player.index();
                    let w = self.home_bases[vi].pieces_waiting;
                    self.home_bases[vi] = HomeBase { pieces_waiting: w + 1 };
                }
                self.tiles[*to as usize] = Some(player);
                self.tiles[*from as usize] = None;
            },
            StruggleMove::MoveToGoal { from_board, to_goal } => {
                self.tiles[*from_board as usize] = None;
                let gi = player.index();
                let track = &mut self.goals[gi];
                track[*to_goal as usize] = Some(player);
            },
            StruggleMove::MoveInGoal { from_goal, to_goal } => {
                let gi = player.index();
                let track = &mut self.goals[gi];
                track[*to_goal as usize] = Some(player);
                track[*from_goal as usize] = None;
            },
            StruggleMove::SkipTurn => {},
        }

        proof {
            assert(self.tiles@ == moved_tiles(b0, player, *mov));
            assert forall|c: PlayerColor| #[trigger]
                self.goal_of(c) == (if c == player {
                    moved_goal(b0, player, *mov)
                } else {
                    b0.goal_of(c)
                }) by {
                if c.idx() != player.idx() {
                    assert(self.goals@[c.idx()] == b0.goals@[c.idx()]);
                }
            }
            assert forall|i: int|
                0 <= i < 28 implies (#[trigger] self.tiles@[i] matches Some(c) ==> self.is_player(
                c,
            )) by {
                assert(b0.tiles@[i] matches Some(c) ==> b0.is_player(c));
            }
        }
    }

    /// Apply one previously generated move, updating the ring, the goal
    /// tracks, the home bases, and the cached piece lists.  A capture returns
    /// exactly one opposing piece to its home base.
    pub fn perform_move(&mut self, player: PlayerColor, mov: &StruggleMove)
        requires
            old(self).wf(),
            old(self).is_player(player),
            applicable(*old(self), player, *mov),
        ensures
            final(self).wf(),
            final(self).players == old(self).players,
            final(self).tiles@ == moved_tiles(*old(self), player, *mov),
            forall|c: PlayerColor|
                #[trigger] final(self).goal_of(c) == (if c == player {
                    moved_goal(*old(self), player, *mov)
                } else {
                    old(self).goal_of(c)
                }),
            forall|c: PlayerColor|
                #[trigger] final(self).waiting(c) == waiting_after(*old(self), player, *mov, c),
            mov.spec_eats() ==> {
                let victim = eaten_color(*old(self), player, *mov);
                final(self).waiting(victim) == old(self).waiting(victim) + 1 && color_count(
                    final(self).tiles@,
                    victim,
                ) == color_count(old(self).tiles@, victim) - 1
            },
    {
        let ghost b0 = *old(self);
        self.apply_move_cells(player, mov);
        let ghost m1 = *self;
        self.update_piece_cache();

        proof {
            let b1 = *self;
            assert(b1.goals == m1.goals);
            assert(b1.home_bases == m1.home_bases);
            assert forall|c: PlayerColor| #[trigger]
                b1.goal_of(c) == (if c == player {
                    moved_goal(b0, player, *mov)
                } else {
                    b0.goal_of(c)
                }) by {
                assert(b1.goals@[c.idx()] == m1.goals@[c.idx()]);
                assert(m1.goal_of(c) == (if c == player {
                    moved_goal(b0, player, *mov)
                } else {
                    b0.goal_of(c)
                }));
            }
            assert forall|c: PlayerColor| #[trigger]
                b1.waiting(c) == waiting_after(b0, player, *mov, c) by {
                assert(b1.home_bases@[c.idx()] == m1.home_bases@[c.idx()]);
                assert(m1.waiting(c) == waiting_after(b0, player, *mov, c));
            }
            assert forall|c: PlayerColor| #[trigger]
                b1.waiting(c) + color_count(b1.tiles@, c) + filled_count(b1.goal_of(c))
                == 4 by {
                lemma_move_conservation(b0, player, *mov, b1, c);
            }
            assert forall|c: PlayerColor|
                !b1.is_player(c) implies #[trigger] b1.waiting(c) == 4 && filled_count(
                b1.goal_of(c),
            ) == 0 by {
                lemma_move_conservation(b0, player, *mov, b1, c);
                if c == eaten_color(b0, player, *mov) && mov.spec_eats() {
                    assert(b0.is_player(c));
                }
            }
            if mov.spec_eats() {
                lemma_move_conservation(b0, player, *mov, b1, eaten_color(b0, player, *mov));
            }
        }
    }

    /// A copy of this board with the given move applied; the board itself is
    /// left untouched.
    pub fn with_move(&self, player: PlayerColor, mov: &StruggleMove) -> (r: Board)
        requires
            self.wf(),
            self.is_player(player),
            applicable(*self, player, *mov),
        ensures
            r.wf(),
            r.players == self.players,
            r.tiles@ == moved_tiles(*self, player, *mov),
            forall|c: PlayerColor|
                #[trigger] r.goal_of(c) == (if c == player {
                    moved_goal(*self, player, *mov)
                } else {
                    self.goal_of(c)
                }),
            forall|c: PlayerColor| #[trigger] r.waiting(c) == waiting_after(*self, player, *mov, c),
    {
        let mut board = self.copy_board();
        proof {
            lemma_same_position_wf(*self, board);
        }
        board.perform_move(player, mov);
        board
    }

    /// A fresh board holding the same position.
    fn copy_board(&self) -> (r: Board)
        ensures
            same_position(*self, r),
    {
        let tiles = copy_cells_vec(&self.tiles);
        let mut goals: Vec<Vec<BoardCell>> = Vec::new();
        let mut g: usize = 0;
        while g < self.goals.len()
            invariant
                g <= self.goals@.len(),
                goals@.len() == g,
                forall|gi: int| 0 <= gi < g ==> (#[trigger] goals@[gi])@ == self.goals@[gi]@,
            decreases self.goals@.len() - g,
        {
            goals.push(copy_cells_vec(&self.goals[g]));
            g = g + 1;
        }
        let mut home_bases: Vec<HomeBase> = Vec::new();
        let mut h: usize = 0;
        while h < self.home_bases.len()
            invariant
                h <= self.home_bases@.len(),
                home_bases@.len() == h,
                forall|hi: int| 0 <= hi < h ==> #[trigger] home_bases@[hi] == self.home_bases@[hi],
            decreases self.home_bases@.len() - h,
        {
            home_bases.push(self.home_bases[h]);
            h = h + 1;
        }
        let cache_a = copy_pieces_vec(&self.piece_cache.0);
        let cache_b = copy_pieces_vec(&self.piece_cache.1);
        let r = Board {
            tiles,
            goals,
            home_bases,
            players: self.players,
            piece_cache: (cache_a, cache_b),
        };
        proof {
            assert(r.home_bases@ =~= self.home_bases@);
        }
        r
    }
}

/// Two boards hold the same position when all their parts agree, view for
/// view.
pub open spec fn same_position(a: Board, b: Board) -> bool {
    &&& b.tiles@ == a.tiles@
    &&& b.goals@.len() == a.goals@.len()
    &&& forall|g: int| 0 <= g < a.goals@.len() ==> (#[trigger] b.goals@[g])@ == a.goals@[g]@
    &&& b.home_bases@ == a.home_bases@
    &&& b.players == a.players
    &&& b.piece_cache.0@ == a.piece_cache.0@
    &&& b.piece_cache.1@ == a.piece_cache.1@
}

/// Well-formedness carries over between boards holding the same position.
pub proof fn lemma_same_position_wf(a: Board, b: Board)
    requires
        same_position(a, b),
        a.wf(),
    ensures
        b.wf(),
        b.spec_winner() == a.spec_winner(),
        forall|c: PlayerColor| #[trigger] b.goal_of(c) == a.goal_of(c),
{
    assert forall|c: PlayerColor| #[trigger] b.goal_of(c) == a.goal_of(c) by {
        assert(b.goals@[c.idx()]@ == a.goals@[c.idx()]@);
    }
    assert(b.lens_ok()) by {
        assert forall|g: int| 0 <= g < 4 implies (#[trigger] b.goals@[g])@.len() == 4 by {
            assert(b.goals@[g]@ == a.goals@[g]@);
        }
    }
    assert(b.goals_ok()) by {
        assert forall|g: int, s: int|
            0 <= g < 4 && 0 <= s < 4 implies (#[trigger] b.goals@[g]@[s] matches Some(c) ==> c.idx()
            == g && b.is_player(c)) by {
            assert(b.goals@[g]@ == a.goals@[g]@);
            assert(a.goals@[g]@[s] matches Some(c) ==> c.idx() == g && a.is_player(c));
        }
    }
    assert forall|c: PlayerColor| #[trigger]
        b.waiting(c) + color_count(b.tiles@, c) + filled_count(b.goal_of(c)) == 4 by {
        assert(b.goal_of(c) == a.goal_of(c));
        assert(a.waiting(c) + color_count(a.tiles@, c) + filled_count(a.goal_of(c)) == 4);
    }
    assert forall|c: PlayerColor|
        !b.is_player(c) implies #[trigger] b.waiting(c) == 4 && filled_count(b.goal_of(c))
        == 0 by {
        assert(b.goal_of(c) == a.goal_of(c));
        assert(!a.is_player(c) ==> a.waiting(c) == 4 && filled_count(a.goal_of(c)) == 0);
    }
    assert(b.cache_ok()) by {
        assert(b.goal_of(b.players.0) == a.goal_of(a.players.0));
        assert(b.goal_of(b.players.1) == a.goal_of(a.players.1));
    }
    assert forall|g: int| 0 <= g < 4 && #[trigger] a.goal_full(g) implies b.goal_full(g) by {
        assert(b.goals@[g]@ == a.goals@[g]@);
    }
    assert forall|g: int| 0 <= g < 4 && #[trigger] b.goal_full(g) implies a.goal_full(g) by {
        assert(b.goals@[g]@ == a.goals@[g]@);
    }
}

/// How one applied move shifts the three piece pools of each color.
proof fn lemma_move_conservation(
    b0: Board,
    player: PlayerColor,
    m: StruggleMove,
    b1: Board,
    c: PlayerColor,
)
    requires
        b0.wf(),
        b0.is_player(player),
        applicable(b0, player, m),
        b1.tiles@ == moved_tiles(b0, player, m),
        forall|cc: PlayerColor|
            #[trigger] b1.goal_of(cc) == (if cc == player {
                moved_goal(b0, player, m)
            } else {
                b0.goal_of(cc)
            }),
        forall|cc: PlayerColor| #[trigger] b1.waiting(cc) == waiting_after(b0, player, m, cc),
    ensures
        b1.waiting(c) + color_count(b1.tiles@, c) + filled_count(b1.goal_of(c)) == 4,
        m.spec_eats() && c == eaten_color(b0, player, m) ==> color_count(b1.tiles@, c)
            == color_count(b0.tiles@, c) - 1,
{
    match m {
        StruggleMove::AddNewPiece { eats } => {
            lemma_color_count_update(b0.tiles@, c, Board::start_of(player), Some(player));
        },
        StruggleMove::MovePiece { from, to, eats } => {
            let s1 = b0.tiles@.update(to as int, Some(player));
            lemma_color_count_update(b0.tiles@, c, to as int, Some(player));
            lemma_color_count_update(s1, c, from as int, None);
        },
        StruggleMove::MoveToGoal { from_board, to_goal } => {
            lemma_color_count_update(b0.tiles@, c, from_board as int, None);
            if c == player {
                lemma_filled_count_update(b0.goal_of(player), to_goal as int, Some(player));
            }
        },
        StruggleMove::MoveInGoal { from_goal, to_goal } => {
            if c == player {
                let g1 = b0.goal_of(player).update(to_goal as int, Some(player));
                lemma_filled_count_update(b0.goal_of(player), to_goal as int, Some(player));
                lemma_filled_count_update(g1, from_goal as int, None);
            }
        },
        StruggleMove::SkipTurn => {},
    }
}

/// A cell holding `c` contributes to the count of `c`.
pub proof fn lemma_count_at_least_one(s: Seq<BoardCell>, c: PlayerColor, i: int)
    requires
        0 <= i < s.len(),
        s[i] == Some(c),
    ensures
        color_count(s, c) >= 1,
    decreases s.len(),
{
    lemma_color_count_bounds(s.drop_last(), c);
    if i < s.len() - 1 {
        lemma_count_at_least_one(s.drop_last(), c, i);
    }
}

/// The color whose goal track and home base sit at table position `g`.
pub open spec fn color_of_index(g: int) -> PlayerColor {
    if g == 0 {
        PlayerColor::Red
    } else if g == 1 {
        PlayerColor::Blue
    } else if g == 2 {
        PlayerColor::Yellow
    } else {
        PlayerColor::Green
    }
}

/// A move can decide the game only in the mover's favor: if the board had no
/// winner, the board after the move is won by nobody or by the mover.
pub proof fn lemma_winner_after_move(b0: Board, player: PlayerColor, m: StruggleMove, b1: Board)
    requires
        b0.wf(),
        b1.lens_ok(),
        b0.spec_winner() is None,
        forall|c: PlayerColor|
            #[trigger] b1.goal_of(c) == (if c == player {
                moved_goal(b0, player, m)
            } else {
                b0.goal_of(c)
            }),
    ensures
        b1.spec_winner() is None || b1.spec_winner() == Some(player),
{
    assert forall|g: int| 0 <= g < 4 && g != player.idx() implies !b1.goal_full(g) by {
        let cg = color_of_index(g);
        assert(cg.idx() == g);
        assert(b1.goal_of(cg) == b0.goal_of(cg));
        assert(!b0.goal_full(g));
        let s = choose|s: int| 0 <= s < 4 && !((#[trigger] b0.goals@[g]@[s]) is Some);
        assert(b1.goals@[g]@[s] == b0.goals@[g]@[s]);
    }
}

/// Piece conservation: on a well-formed board each color's four pieces are
/// split exactly between its home base, the ring, and its goal track.  Move
/// application preserves well-formedness, so this holds before and after
/// every move (see `perform_move`).
pub proof fn lemma_piece_conservation(b: Board, c: PlayerColor)
    requires
        b.wf(),
    ensures
        b.waiting(c) + color_count(b.tiles@, c) + filled_count(b.goal_of(c)) == 4,
{
}

/// A vector of `n` cells equal to the cells of `v`.
pub(crate) fn copy_cells_vec(v: &Vec<BoardCell>) -> (r: Vec<BoardCell>)
    ensures
        r@ == v@,
{
    let mut r: Vec<BoardCell> = Vec::new();
    let mut i: usize = 0;
    while i < v.len()
        invariant
            i <= v@.len(),
            r@.len() == i,
            forall|j: int| 0 <= j < i ==> #[trigger] r@[j] == v@[j],
        decreases v@.len() - i,
    {
        r.push(v[i]);
        i = i + 1;
    }
    proof {
        assert(r@ =~= v@);
    }
    r
}

/// A vector of the same piece positions as `v`.
pub(crate) fn copy_pieces_vec(v: &Vec<PiecePosition>) -> (r: Vec<PiecePosition>)
    ensures
        r@ == v@,
{
    let mut r: Vec<PiecePosition> = Vec::new();
    let mut i: usize = 0;
    while i < v.len()
        invariant
            i <= v@.len(),
            r@.len() == i,
            forall|j: int| 0 <= j < i ==> #[trigger] r@[j] == v@[j],
        decreases v@.len() - i,
    {
        r.push(v[i]);
        i = i + 1;
    }
    proof {
        assert(r@ =~= v@);
    }
    r
}

/// A vector of `n` empty cells.
pub(crate) fn empty_cells(n: usize) -> (r: Vec<BoardCell>)
    ensures
        r@.len() == n,
        forall|i: int| 0 <= i < n ==> (#[trigger] r@[i]) is None,
{
    let mut v: Vec<BoardCell> = Vec::new();
    let mut i: usize = 0;
    while i < n
        invariant
            v@.len() == i,
            i <= n,
            forall|j: int| 0 <= j < i ==> (#[trigger] v@[j]) is None,
        decreases n - i,
    {
        v.push(None);
        i = i + 1;
    }
    v
}

/// A sequence of empty cells holds no piece of any color.
pub proof fn lemma_count_of_empty(s: Seq<BoardCell>, c: PlayerColor)
    requires
        forall|i: int| 0 <= i < s.len() ==> (#[trigger] s[i]) is None,
    ensures
        color_count(s, c) == 0,
        filled_count(s) == 0,
    decreases s.len(),
{
    if s.len() > 0 {
        lemma_count_of_empty(s.drop_last(), c);
    }
}


} // verus!
