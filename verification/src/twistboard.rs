use vstd::prelude::*;

use crate::board::{BoardCell, HomeBase, PiecePosition};
use crate::color::PlayerColor;
use crate::rngs::rand_below;
use crate::seqcount::{
    color_count, filled_count, lemma_color_count_extend,
    lemma_color_count_update, lemma_filled_count_bounds, lemma_filled_count_extend,
    lemma_filled_count_update, lemma_seq_push_contains,
};

verus! {

broadcast use lemma_seq_push_contains;

/// Orientation of the rotating board, in counterclockwise quarter turns.
#[derive(Clone, Copy, Debug, PartialEq, Eq, Structural)]
pub enum TwistRotation {
    Initial,
    Ccw90,
    Ccw180,
    Ccw270,
}

impl TwistRotation {
    /// The orientation after one more quarter turn.
    pub open spec fn spec_next(self) -> TwistRotation {
        match self {
            TwistRotation::Initial => TwistRotation::Ccw90,
            TwistRotation::Ccw90 => TwistRotation::Ccw180,
            TwistRotation::Ccw180 => TwistRotation::Ccw270,
            TwistRotation::Ccw270 => TwistRotation::Initial,
        }
    }

    /// Runtime counterpart of [`TwistRotation::spec_next`].
    pub fn next(self) -> (r: Self)
        ensures
            r == self.spec_next(),
    {
        match self {
            TwistRotation::Initial => TwistRotation::Ccw90,
            TwistRotation::Ccw90 => TwistRotation::Ccw180,
            TwistRotation::Ccw180 => TwistRotation::Ccw270,
            TwistRotation::Ccw270 => TwistRotation::Initial,
        }
    }

    /// How far this orientation shifts every goal entrance along the ring.
    pub open spec fn spec_offset(self) -> int {
        match self {
            TwistRotation::Initial => 0,
            TwistRotation::Ccw90 => 24,
            TwistRotation::Ccw180 => 16,
            TwistRotation::Ccw270 => 8,
        }
    }

    /// Runtime counterpart of [`TwistRotation::spec_offset`].
    pub fn to_offset(self) -> (r: u8)
        ensures
            r == self.spec_offset(),
    {
        match self {
            TwistRotation::Initial => 0,
            TwistRotation::Ccw90 => 24,
            TwistRotation::Ccw180 => 16,
            TwistRotation::Ccw270 => 8,
        }
    }
}

/// One of the four reversible five-cell arcs between consecutive starts.
#[derive(Clone, Copy, Debug, PartialEq, Eq, Structural)]
pub enum SpinSection {
    RedToBlue,
    BlueToYellow,
    YellowToGreen,
    GreenToRed,
}

impl SpinSection {
    /// First ring cell of this arc.
    pub open spec fn spec_start(self) -> int {
        match self {
            SpinSection::RedToBlue => 1,
            SpinSection::BlueToYellow => 9,
            SpinSection::YellowToGreen => 17,
            SpinSection::GreenToRed => 25,
        }
    }
}

/// The face of the action die.
#[derive(Debug, Clone, Copy, PartialEq, Eq, Structural)]
pub enum ActionDie {
    DoNothing,
    SpinSection,
    RotateBoard,
}

impl ActionDie {
    /// One action-die throw: half the faces do nothing, a third spin an arc,
    /// a sixth rotate the board.
    pub fn get_random(rng: &mut rand::rngs::SmallRng) -> (r: Self) {
        let draw = rand_below(rng, 6);
        if draw < 3 {
            ActionDie::DoNothing
        } else if draw < 5 {
            ActionDie::SpinSection
        } else {
            ActionDie::RotateBoard
        }
    }
}

/// One throw of both dice of the rotating variant.
#[derive(Debug, Clone, Copy, PartialEq, Eq, Structural)]
pub struct DieResult {
    pub number: u8,
    pub action: ActionDie,
}

/// Where a number-die sub-move takes its piece from.
#[derive(Debug, Clone, Copy, PartialEq, Eq, Structural)]
pub enum MoveFrom {
    Home,
    Board(u8),
}

/// The number-die half of a move of the rotating variant.
#[derive(Debug, Clone, Copy, PartialEq, Eq, Structural)]
pub enum NumberDieMove {
    DoNothing,
    MovePiece { from: MoveFrom, to: u8, eats: bool },
    MoveToGoal { from_board: u8, to_goal: u8 },
}

impl NumberDieMove {
    /// Whether this half captures an opposing piece.
    pub open spec fn spec_eats(self) -> bool {
        match self {
            NumberDieMove::MovePiece { eats, .. } => eats,
            _ => false,
        }
    }
}

/// The action-die half of a move of the rotating variant.
#[derive(Debug, Clone, Copy, PartialEq, Eq, Structural)]
pub enum ActionDieMove {
    DoNothing,
    SpinSection(SpinSection),
    RotateBoard,
}

/// One move of the rotating variant: a number-die half and an action-die
/// half, applied in that order.
#[derive(Debug, Clone, Copy, PartialEq, Eq, Structural)]
pub struct TwistMove(pub NumberDieMove, pub ActionDieMove);

impl Default for TwistMove {
    /// The sentinel that ignores both dice.
    fn default() -> (r: Self)
        ensures
            r == TwistMove(NumberDieMove::DoNothing, ActionDieMove::DoNothing),
    {
        TwistMove(NumberDieMove::DoNothing, ActionDieMove::DoNothing)
    }
}

/// Number of ring cells of the rotating variant.
pub const TWIST_RING_LEN: usize = 32;

/// Number of slots of each goal track of the rotating variant.
pub const TWIST_GOAL_LEN: usize = 3;

/// The board of the rotating variant: a 32-cell ring, four 3-slot goal
/// tracks, four home bases, an orientation that remaps the goal entrances,
/// the two colors playing, and their cached piece lists.
pub struct TwistBoard {
    pub tiles: Vec<BoardCell>,
    pub goals: Vec<Vec<BoardCell>>,
    pub home_bases: Vec<HomeBase>,
    pub rotation: TwistRotation,
    pub players: (PlayerColor, PlayerColor),
    pub piece_cache: (Vec<PiecePosition>, Vec<PiecePosition>),
}

impl TwistBoard {
    /// Ring cell on which pieces of `p` enter from home.
    pub open spec fn start_of(p: PlayerColor) -> int {
        8 * p.idx()
    }

    /// Goal entrance of `p` before any rotation.
    pub open spec fn base_entrance_of(p: PlayerColor) -> int {
        (8 * p.idx() + 31) % 32
    }

    /// Goal entrance of `p` under orientation `rotation`.
    pub open spec fn entrance_of(rotation: TwistRotation, p: PlayerColor) -> int {
        (TwistBoard::base_entrance_of(p) + rotation.spec_offset()) % 32
    }

    /// Steps needed to walk clockwise from ring cell `from` to ring cell
    /// `to`.
    pub open spec fn cw_dist(from: int, to: int) -> int {
        if to >= from {
            to - from
        } else {
            32 - from + to
        }
    }

    /// The goal track of color `c`.
    pub open spec fn goal_of(self, c: PlayerColor) -> Seq<BoardCell> {
        self.goals@[c.idx()]@
    }

    /// Pieces of `c` still waiting in its home base.
    pub open spec fn waiting(self, c: PlayerColor) -> int {
        self.home_bases@[c.idx()].pieces_waiting as int
    }

    /// Whether `c` is one of the two colors playing on this board.
    pub open spec fn is_player(self, c: PlayerColor) -> bool {
        c == self.players.0 || c == self.players.1
    }

    /// The fixed shape of the board.
    pub open spec fn lens_ok(self) -> bool {
        &&& self.tiles@.len() == 32
        &&& self.goals@.len() == 4
        &&& forall|g: int| 0 <= g < 4 ==> (#[trigger] self.goals@[g])@.len() == 3
        &&& self.home_bases@.len() == 4
    }

    /// Ring cells hold only pieces of the two playing colors.
    pub open spec fn tiles_ok(self) -> bool {
        forall|i: int|
            0 <= i < 32 ==> (#[trigger] self.tiles@[i] matches Some(c) ==> self.is_player(c))
    }

    /// Goal slots hold only pieces of the owning, playing color.
    pub open spec fn goals_ok(self) -> bool {
        forall|g: int, s: int|
            0 <= g < 4 && 0 <= s < 3 ==> (#[trigger] self.goals@[g]@[s] matches Some(c) ==> c.idx()
                == g && self.is_player(c))
    }

    /// Every color owns exactly four pieces, split between its home base,
    /// the ring, and its goal track.
    pub open spec fn conservation(self) -> bool {
        forall|c: PlayerColor|
            #[trigger] self.waiting(c) + color_count(self.tiles@, c) + filled_count(
                self.goal_of(c),
            ) == 4
    }

    /// Colors that are not playing still have all pieces at home.
    pub open spec fn nonplayers_idle(self) -> bool {
        forall|c: PlayerColor|
            !self.is_player(c) ==> #[trigger] self.waiting(c) == 4 && filled_count(self.goal_of(c))
                == 0
    }

    /// `s` is the canonical piece list of color `c`.
    pub open spec fn lists_pieces(self, c: PlayerColor, s: Seq<PiecePosition>) -> bool {
        &&& forall|k: int|
            0 <= k < s.len() ==> (match #[trigger] s[k] {
                PiecePosition::Board(i) => i < 32 && self.tiles@[i as int] == Some(c),
                PiecePosition::Goal(g) => g < 3 && self.goal_of(c)[g as int] is Some,
            })
        &&& forall|i: int|
            0 <= i < 32 && #[trigger] self.tiles@[i] == Some(c) ==> s.contains(
                PiecePosition::Board(i as u8),
            )
        &&& forall|g: int|
            0 <= g < 3 && (#[trigger] self.goal_of(c)[g]) is Some ==> s.contains(
                PiecePosition::Goal(g as u8),
            )
        &&& forall|k1: int, k2: int| 0 <= k1 < k2 < s.len() ==> s[k1].key() < s[k2].key()
        &&& s.len() == color_count(self.tiles@, c) + filled_count(self.goal_of(c))
    }

    /// The cached piece lists are the canonical lists of the two players.
    pub open spec fn cache_ok(self) -> bool {
        &&& self.lists_pieces(self.players.0, self.piece_cache.0@)
        &&& self.lists_pieces(self.players.1, self.piece_cache.1@)
    }

    /// Well-formedness of the rotating board.
    pub open spec fn wf(self) -> bool {
        &&& self.lens_ok()
        &&& self.players.0 != self.players.1
        &&& self.tiles_ok()
        &&& self.goals_ok()
        &&& self.conservation()
        &&& self.nonplayers_idle()
        &&& self.cache_ok()
    }

    /// Whether `g`'s owner has won: its goal track is full and its own piece
    /// stands on its goal entrance.
    pub open spec fn spec_won(self, g: int) -> bool {
        let cg = crate::board::color_of_index(g);
        &&& self.tiles@[TwistBoard::entrance_of(self.rotation, cg)] == Some(cg)
        &&& forall|s: int| 0 <= s < 3 ==> self.goals@[g]@[s] == Some(cg)
    }

    /// The winner, if any: the owner of the first decided goal track.
    pub open spec fn spec_winner(self) -> Option<PlayerColor> {
        if self.spec_won(0) {
            Some(PlayerColor::Red)
        } else if self.spec_won(1) {
            Some(PlayerColor::Blue)
        } else if self.spec_won(2) {
            Some(PlayerColor::Yellow)
        } else if self.spec_won(3) {
            Some(PlayerColor::Green)
        } else {
            None
        }
    }
}

impl TwistBoard {
    /// A fresh rotating board for the two given colors.
    pub fn new(players: (PlayerColor, PlayerColor)) -> (r: TwistBoard)
        requires
            players.0 != players.1,
        ensures
            r.wf(),
            r.players == players,
            r.rotation == TwistRotation::Initial,
            forall|i: int| 0 <= i < 32 ==> (#[trigger] r.tiles@[i]) is None,
            forall|g: int, s: int| 0 <= g < 4 && 0 <= s < 3 ==> (#[trigger] r.goals@[g]@[s]) is None,
            forall|c: PlayerColor| #[trigger] r.waiting(c) == 4,
    {
        let tiles: Vec<BoardCell> = crate::board::empty_cells(TWIST_RING_LEN);
        let mut goals: Vec<Vec<BoardCell>> = Vec::new();
        let mut g: usize = 0;
        while g < 4
            invariant
                goals@.len() == g,
                g <= 4,
                forall|gi: int|
                    0 <= gi < g ==> (#[trigger] goals@[gi])@.len() == 3 && forall|s: int|
                        0 <= s < 3 ==> goals@[gi]@[s] is None,
            decreases 4 - g,
        {
            goals.push(crate::board::empty_cells(TWIST_GOAL_LEN));
            g = g + 1;
        }
        let mut home_bases: Vec<HomeBase> = Vec::new();
        let mut h: usize = 0;
        while h < 4
            invariant
                home_bases@.len() == h,
                h <= 4,
                forall|hi: int| 0 <= hi < h ==> (#[trigger] home_bases@[hi]).pieces_waiting == 4,
            decreases 4 - h,
        {
            home_bases.push(HomeBase::new());
            h = h + 1;
        }
        let board = TwistBoard {
            tiles,
            goals,
            home_bases,
            rotation: TwistRotation::Initial,
            players,
            piece_cache: (Vec::new(), Vec::new()),
        };
        proof {
            assert forall|c: PlayerColor| #[trigger] board.waiting(c) + color_count(
                board.tiles@,
                c,
            ) + filled_count(board.goal_of(c)) == 4 by {
                crate::board::lemma_count_of_empty(board.tiles@, c);
                crate::board::lemma_count_of_empty(board.goal_of(c), c);
            }
            assert forall|c: PlayerColor| !board.is_player(c) implies #[trigger] board.waiting(c)
                == 4 && filled_count(board.goal_of(c)) == 0 by {
                crate::board::lemma_count_of_empty(board.goal_of(c), c);
            }
            assert(board.lists_pieces(board.players.0, board.piece_cache.0@)) by {
                crate::board::lemma_count_of_empty(board.tiles@, board.players.0);
                crate::board::lemma_count_of_empty(board.goal_of(board.players.0), board.players.0);
            }
            assert(board.lists_pieces(board.players.1, board.piece_cache.1@)) by {
                crate::board::lemma_count_of_empty(board.tiles@, board.players.1);
                crate::board::lemma_count_of_empty(board.goal_of(board.players.1), board.players.1);
            }
        }
        board
    }

    /// Goal entrance of `color` under orientation `rotation`.
    pub fn get_goal_entrance(rotation: TwistRotation, color: PlayerColor) -> (r: u8)
        ensures
            r == TwistBoard::entrance_of(rotation, color),
            r < 32,
    {
        let base: u8 = match color {
            PlayerColor::Red => 31,
            PlayerColor::Blue => 7,
            PlayerColor::Yellow => 15,
            PlayerColor::Green => 23,
        };
        (base + rotation.to_offset()) % 32
    }

    /// Ring cell on which pieces of `color` enter from home.
    pub fn get_start(color: PlayerColor) -> (r: u8)
        ensures
            r == TwistBoard::start_of(color),
    {
        match color {
            PlayerColor::Red => 0,
            PlayerColor::Blue => 8,
            PlayerColor::Yellow => 16,
            PlayerColor::Green => 24,
        }
    }

    /// The winner, if a goal track together with its entrance is filled by
    /// its owner.
    pub fn get_winner(&self) -> (r: Option<PlayerColor>)
        requires
            self.lens_ok(),
        ensures
            r == self.spec_winner(),
    {
        let mut g: usize = 0;
        while g < 4
            invariant
                self.lens_ok(),
                g <= 4,
                forall|gi: int| 0 <= gi < g ==> !self.spec_won(gi),
            decreases 4 - g,
        {
            let player = PlayerColor::from_index(g);
            proof {
                assert(crate::board::color_of_index(g as int) == player);
            }
            let goal_entry_pos = TwistBoard::get_goal_entrance(self.rotation, player);
            let track = &self.goals[g];
            if self.tiles[goal_entry_pos as usize] == Some(player) && track[0] == Some(player)
                && track[1] == Some(player) && track[2] == Some(player) {
                return Some(player);
            }
            g = g + 1;
        }
        None
    }

    /// First and one-past-last ring cell of a reversible arc.
    pub fn get_spin_section_range(spin_section: SpinSection) -> (r: (usize, usize))
        ensures
            r.0 == spin_section.spec_start(),
            r.1 == spin_section.spec_start() + 5,
    {
        let start: usize = match spin_section {
            SpinSection::RedToBlue => 1,
            SpinSection::BlueToYellow => 9,
            SpinSection::YellowToGreen => 17,
            SpinSection::GreenToRed => 25,
        };
        (start, start + 5)
    }

    /// The five cells of a reversible arc, in ring order.
    pub fn get_spin_section(&self, spin_section: SpinSection) -> (r: Vec<BoardCell>)
        requires
            self.lens_ok(),
        ensures
            r@.len() == 5,
            forall|j: int| 0 <= j < 5 ==> #[trigger] r@[j] == self.tiles@[spin_section.spec_start() + j],
    {
        let range = TwistBoard::get_spin_section_range(spin_section);
        let mut cells: Vec<BoardCell> = Vec::new();
        let mut j: usize = 0;
        while j < 5
            invariant
                self.lens_ok(),
                range.0 == spin_section.spec_start(),
                j <= 5,
                cells@.len() == j,
                forall|t: int|
                    0 <= t < j ==> #[trigger] cells@[t] == self.tiles@[spin_section.spec_start()
                        + t],
            decreases 5 - j,
        {
            cells.push(self.tiles[range.0 + j]);
            j = j + 1;
        }
        cells
    }

    /// Reverse one arc in place.  The cached piece lists are not touched;
    /// the caller rebuilds them.
    pub fn rotate_spin_section(&mut self, spin_section: SpinSection)
        requires
            old(self).lens_ok(),
        ensures
            final(self).tiles@ == reversed_arc(old(self).tiles@, spin_section.spec_start()),
            final(self).goals == old(self).goals,
            final(self).home_bases == old(self).home_bases,
            final(self).rotation == old(self).rotation,
            final(self).players == old(self).players,
            final(self).piece_cache == old(self).piece_cache,
    {
        let range = TwistBoard::get_spin_section_range(spin_section);
        let a = range.0;
        let first = self.tiles[a];
        let last = self.tiles[a + 4];
        self.tiles[a] = last;
        self.tiles[a + 4] = first;
        let second = self.tiles[a + 1];
        let fourth = self.tiles[a + 3];
        self.tiles[a + 1] = fourth;
        self.tiles[a + 3] = second;
    }
}

impl TwistBoard {
    /// Steps needed to walk clockwise from ring cell `from` to ring cell
    /// `to`.
    pub fn clockwise_distance(from: u8, to: u8) -> (r: u8)
        requires
            from < 32,
            to < 32,
        ensures
            r == TwistBoard::cw_dist(from as int, to as int),
    {
        if to >= from {
            to - from
        } else {
            32 - from + to
        }
    }

    /// Clockwise distance from `pos` to the goal entrance of `player` under
    /// the current orientation.
    pub fn distance_to_goal(&self, player: PlayerColor, pos: u8) -> (r: u8)
        requires
            pos < 32,
        ensures
            r == TwistBoard::cw_dist(
                pos as int,
                TwistBoard::entrance_of(self.rotation, player),
            ),
    {
        let goal = TwistBoard::get_goal_entrance(self.rotation, player);
        TwistBoard::clockwise_distance(pos, goal)
    }

    /// Rebuild the canonical piece lists of `player` and `enemy` from the
    /// board content.
    fn get_pieces_internal(&self, player: PlayerColor, enemy: PlayerColor) -> (r: (
        Vec<PiecePosition>,
        Vec<PiecePosition>,
    ))
        requires
            self.lens_ok(),
            player != enemy,
            forall|i: int|
                0 <= i < 32 ==> (#[trigger] self.tiles@[i] matches Some(c) ==> c == player || c
                    == enemy),
        ensures
            self.lists_pieces(player, r.0@),
            self.lists_pieces(enemy, r.1@),
    {
        let mut own: Vec<PiecePosition> = Vec::new();
        let mut opp: Vec<PiecePosition> = Vec::new();

        let mut i: usize = 0;
        while i < 32
            invariant
                self.lens_ok(),
                player != enemy,
                forall|j: int|
                    0 <= j < 32 ==> (#[trigger] self.tiles@[j] matches Some(c) ==> c == player || c
                        == enemy),
                i <= 32,
                forall|k: int|
                    0 <= k < own@.len() ==> (#[trigger] own@[k] matches PiecePosition::Board(j)
                        && j < i && self.tiles@[j as int] == Some(player)),
                forall|k: int|
                    0 <= k < opp@.len() ==> (#[trigger] opp@[k] matches PiecePosition::Board(j)
                        && j < i && self.tiles@[j as int] == Some(enemy)),
                forall|j: int|
                    0 <= j < i && #[trigger] self.tiles@[j] == Some(player) ==> own@.contains(
                        PiecePosition::Board(j as u8),
                    ),
                forall|j: int|
                    0 <= j < i && #[trigger] self.tiles@[j] == Some(enemy) ==> opp@.contains(
                        PiecePosition::Board(j as u8),
                    ),
                forall|k1: int, k2: int|
                    0 <= k1 < k2 < own@.len() ==> own@[k1].key() < own@[k2].key(),
                forall|k1: int, k2: int|
                    0 <= k1 < k2 < opp@.len() ==> opp@[k1].key() < opp@[k2].key(),
                forall|k: int| 0 <= k < own@.len() ==> (#[trigger] own@[k]).key() < i,
                forall|k: int| 0 <= k < opp@.len() ==> (#[trigger] opp@[k]).key() < i,
                own@.len() == color_count(self.tiles@.subrange(0, i as int), player),
                opp@.len() == color_count(self.tiles@.subrange(0, i as int), enemy),
            decreases 32 - i,
        {
            proof {
                lemma_color_count_extend(self.tiles@, player, i as int);
                lemma_color_count_extend(self.tiles@, enemy, i as int);
            }
            match self.tiles[i] {
                Some(color) => {
                    if color == player {
                        own.push(PiecePosition::Board(i as u8));
                    } else {
                        opp.push(PiecePosition::Board(i as u8));
                    }
                },
                None => {},
            }
            i = i + 1;
        }
        proof {
            assert(self.tiles@.subrange(0, 32) =~= self.tiles@);
        }

        let own_track = &self.goals[player.index()];
        let mut s: usize = 0;
        while s < 3
            invariant
                self.lens_ok(),
                own_track@ == self.goal_of(player),
                s <= 3,
                forall|k: int|
                    0 <= k < own@.len() ==> (match #[trigger] own@[k] {
                        PiecePosition::Board(j) => j < 32 && self.tiles@[j as int] == Some(player),
                        PiecePosition::Goal(g) => g < s && self.goal_of(player)[g as int] is Some,
                    }),
                forall|j: int|
                    0 <= j < 32 && #[trigger] self.tiles@[j] == Some(player) ==> own@.contains(
                        PiecePosition::Board(j as u8),
                    ),
                forall|g: int|
                    0 <= g < s && (#[trigger] self.goal_of(player)[g]) is Some ==> own@.contains(
                        PiecePosition::Goal(g as u8),
                    ),
                forall|k1: int, k2: int|
                    0 <= k1 < k2 < own@.len() ==> own@[k1].key() < own@[k2].key(),
                forall|k: int| 0 <= k < own@.len() ==> (#[trigger] own@[k]).key() < 100 + s,
                own@.len() == color_count(self.tiles@, player) + filled_count(
                    self.goal_of(player).subrange(0, s as int),
                ),
            decreases 3 - s,
        {
            proof {
                lemma_filled_count_extend(self.goal_of(player), s as int);
            }
            if own_track[s].is_some() {
                own.push(PiecePosition::Goal(s as u8));
            }
            s = s + 1;
        }
        proof {
            assert(self.goal_of(player).subrange(0, 3) =~= self.goal_of(player));
        }

        let opp_track = &self.goals[enemy.index()];
        let mut t: usize = 0;
        while t < 3
            invariant
                self.lens_ok(),
                opp_track@ == self.goal_of(enemy),
                t <= 3,
                forall|k: int|
                    0 <= k < opp@.len() ==> (match #[trigger] opp@[k] {
                        PiecePosition::Board(j) => j < 32 && self.tiles@[j as int] == Some(enemy),
                        PiecePosition::Goal(g) => g < t && self.goal_of(enemy)[g as int] is Some,
                    }),
                forall|j: int|
                    0 <= j < 32 && #[trigger] self.tiles@[j] == Some(enemy) ==> opp@.contains(
                        PiecePosition::Board(j as u8),
                    ),
                forall|g: int|
                    0 <= g < t && (#[trigger] self.goal_of(enemy)[g]) is Some ==> opp@.contains(
                        PiecePosition::Goal(g as u8),
                    ),
                forall|k1: int, k2: int|
                    0 <= k1 < k2 < opp@.len() ==> opp@[k1].key() < opp@[k2].key(),
                forall|k: int| 0 <= k < opp@.len() ==> (#[trigger] opp@[k]).key() < 100 + t,
                opp@.len() == color_count(self.tiles@, enemy) + filled_count(
                    self.goal_of(enemy).subrange(0, t as int),
                ),
            decreases 3 - t,
        {
            proof {
                lemma_filled_count_extend(self.goal_of(enemy), t as int);
            }
            if opp_track[t].is_some() {
                opp.push(PiecePosition::Goal(t as u8));
            }
            t = t + 1;
        }
        proof {
            assert(self.goal_of(enemy).subrange(0, 3) =~= self.goal_of(enemy));
        }

        (own, opp)
    }

    /// Recompute the cached piece lists after a mutation.
    pub fn update_piece_cache(&mut self)
        requires
            old(self).lens_ok(),
            old(self).players.0 != old(self).players.1,
            forall|i: int|
                0 <= i < 32 ==> (#[trigger] old(self).tiles@[i] matches Some(c) ==> old(
                    self,
                ).is_player(c)),
        ensures
            final(self).tiles == old(self).tiles,
            final(self).goals == old(self).goals,
            final(self).home_bases == old(self).home_bases,
            final(self).rotation == old(self).rotation,
            final(self).players == old(self).players,
            final(self).cache_ok(),
    {
        let cache = self.get_pieces_internal(self.players.0, self.players.1);
        self.piece_cache = cache;
    }

    /// The cached piece lists of `player` and of its opponent.
    pub fn get_pieces(&self, player: PlayerColor) -> (r: (
        &Vec<PiecePosition>,
        &Vec<PiecePosition>,
    ))
        ensures
            player == self.players.0 ==> r.0@ == self.piece_cache.0@ && r.1@
                == self.piece_cache.1@,
            player != self.players.0 ==> r.0@ == self.piece_cache.1@ && r.1@
                == self.piece_cache.0@,
    {
        if player == self.players.0 {
            (&self.piece_cache.0, &self.piece_cache.1)
        } else {
            (&self.piece_cache.1, &self.piece_cache.0)
        }
    }
}

/// A ring with the five-cell arc starting at `a` reversed, written as the
/// two swaps that realize the reversal.
pub open spec fn reversed_arc(s: Seq<BoardCell>, a: int) -> Seq<BoardCell> {
    s.update(a, s[a + 4]).update(a + 4, s[a]).update(a + 1, s[a + 3]).update(a + 3, s[a + 1])
}

/// What a move of the rotating variant demands of the board it is applied
/// to.  Only the number-die half touches pieces; the action-die half is a
/// permutation and always applies.
pub open spec fn twist_applicable(b: TwistBoard, player: PlayerColor, m: TwistMove) -> bool {
    number_applicable(b, player, m.0)
}

/// What the number-die half demands of the board.
pub open spec fn number_applicable(b: TwistBoard, player: PlayerColor, nm: NumberDieMove) -> bool {
    match nm {
        NumberDieMove::DoNothing => true,
        NumberDieMove::MovePiece { from, to, eats } => {
            &&& to < 32
            &&& (if eats {
                b.tiles@[to as int] matches Some(c) && c != player
            } else {
                b.tiles@[to as int] is None
            })
            &&& match from {
                MoveFrom::Home => b.waiting(player) > 0,
                MoveFrom::Board(pos) => pos < 32 && pos != to && b.tiles@[pos as int] == Some(
                    player,
                ),
            }
        },
        NumberDieMove::MoveToGoal { from_board, to_goal } => from_board < 32 && to_goal < 3
            && b.tiles@[from_board as int] == Some(player) && b.goal_of(player)[to_goal as int]
            is None,
    }
}

/// The ring after the number-die half of `m`, as a function of the ring
/// cells alone.
pub open spec fn t_number_tiles_s(
    tiles: Seq<BoardCell>,
    player: PlayerColor,
    nm: NumberDieMove,
) -> Seq<BoardCell> {
    match nm {
        NumberDieMove::DoNothing => tiles,
        NumberDieMove::MovePiece { from, to, .. } => {
            let s1 = tiles.update(to as int, Some(player));
            match from {
                MoveFrom::Home => s1,
                MoveFrom::Board(pos) => s1.update(pos as int, None),
            }
        },
        NumberDieMove::MoveToGoal { from_board, .. } => tiles.update(from_board as int, None),
    }
}

/// The ring after the number-die half of `m`.
pub open spec fn t_number_tiles(b: TwistBoard, player: PlayerColor, nm: NumberDieMove) -> Seq<
    BoardCell,
> {
    t_number_tiles_s(b.tiles@, player, nm)
}

/// The ring after the whole move `m`, as a function of the ring cells alone.
pub open spec fn t_result_tiles_s(tiles: Seq<BoardCell>, player: PlayerColor, m: TwistMove) -> Seq<
    BoardCell,
> {
    let s = t_number_tiles_s(tiles, player, m.0);
    match m.1 {
        ActionDieMove::SpinSection(sec) => reversed_arc(s, sec.spec_start()),
        _ => s,
    }
}

/// The ring after the whole move `m`.
pub open spec fn t_result_tiles(b: TwistBoard, player: PlayerColor, m: TwistMove) -> Seq<
    BoardCell,
> {
    t_result_tiles_s(b.tiles@, player, m)
}

/// The mover's goal track after the number-die half `nm`, as a function of
/// that track alone.
pub open spec fn t_moved_goal_s(goal: Seq<BoardCell>, player: PlayerColor, nm: NumberDieMove) -> Seq<
    BoardCell,
> {
    match nm {
        NumberDieMove::MoveToGoal { to_goal, .. } => goal.update(to_goal as int, Some(player)),
        _ => goal,
    }
}

/// The mover's goal track after the number-die half `nm`.
pub open spec fn t_moved_goal_n(b: TwistBoard, player: PlayerColor, nm: NumberDieMove) -> Seq<
    BoardCell,
> {
    t_moved_goal_s(b.goal_of(player), player, nm)
}

/// The mover's goal track after `m`.
pub open spec fn t_moved_goal(b: TwistBoard, player: PlayerColor, m: TwistMove) -> Seq<BoardCell> {
    t_moved_goal_n(b, player, m.0)
}

/// The orientation after `m`, as a function of the old orientation alone.
pub open spec fn t_rotation_after_s(rot: TwistRotation, m: TwistMove) -> TwistRotation {
    match m.1 {
        ActionDieMove::RotateBoard => rot.spec_next(),
        _ => rot,
    }
}

/// The orientation after `m`.
pub open spec fn t_rotation_after(b: TwistBoard, m: TwistMove) -> TwistRotation {
    t_rotation_after_s(b.rotation, m)
}

/// Color of the piece a capturing number-die half sends back home, read
/// off the ring.
pub open spec fn t_eaten_color_s(
    tiles: Seq<BoardCell>,
    player: PlayerColor,
    nm: NumberDieMove,
) -> PlayerColor {
    match nm {
        NumberDieMove::MovePiece { to, .. } => crate::board::cell_color(tiles[to as int]),
        _ => player,
    }
}

/// Color of the piece a capturing number-die half sends back home.
pub open spec fn t_eaten_color_n(b: TwistBoard, player: PlayerColor, nm: NumberDieMove) -> PlayerColor {
    t_eaten_color_s(b.tiles@, player, nm)
}

/// Color of the piece a capturing move sends back home.
pub open spec fn t_eaten_color(b: TwistBoard, player: PlayerColor, m: TwistMove) -> PlayerColor {
    t_eaten_color_n(b, player, m.0)
}

/// The home-base count of `c` after the number-die half `nm`, as a
/// function of the old count and the ring.
pub open spec fn t_waiting_after_sv(
    w: int,
    tiles: Seq<BoardCell>,
    player: PlayerColor,
    nm: NumberDieMove,
    c: PlayerColor,
) -> int {
    w + (if c == player && (nm matches NumberDieMove::MovePiece {
        from: MoveFrom::Home,
        ..
    }) {
        -1int
    } else {
        0int
    }) + (if nm.spec_eats() && c == t_eaten_color_s(tiles, player, nm) {
        1int
    } else {
        0int
    })
}

/// The home-base count of `c` after the number-die half `nm`.
pub open spec fn t_waiting_after_n(
    b: TwistBoard,
    player: PlayerColor,
    nm: NumberDieMove,
    c: PlayerColor,
) -> int {
    t_waiting_after_sv(b.waiting(c), b.tiles@, player, nm, c)
}

/// The home-base count of `c` after applying `m`.
pub open spec fn t_waiting_after(
    b: TwistBoard,
    player: PlayerColor,
    m: TwistMove,
    c: PlayerColor,
) -> int {
    t_waiting_after_n(b, player, m.0, c)
}

/// How one applied move shifts the three piece pools of each color.
proof fn lemma_twist_move_conservation(
    b0: TwistBoard,
    player: PlayerColor,
    m: TwistMove,
    b1: TwistBoard,
    c: PlayerColor,
)
    requires
        b0.wf(),
        b0.is_player(player),
        twist_applicable(b0, player, m),
        b1.tiles@ == t_result_tiles(b0, player, m),
        forall|cc: PlayerColor|
            #[trigger] b1.goal_of(cc) == (if cc == player {
                t_moved_goal(b0, player, m)
            } else {
                b0.goal_of(cc)
            }),
        forall|cc: PlayerColor| #[trigger] b1.waiting(cc) == t_waiting_after(b0, player, m, cc),
    ensures
        b1.waiting(c) + color_count(b1.tiles@, c) + filled_count(b1.goal_of(c)) == 4,
        m.0.spec_eats() && c == t_eaten_color(b0, player, m) ==> color_count(b1.tiles@, c)
            == color_count(b0.tiles@, c) - 1,
    decreases 0int,
{
    let mid = t_number_tiles(b0, player, m.0);
    match m.1 {
        ActionDieMove::SpinSection(sec) => {
            lemma_reversed_arc_counts(mid, sec.spec_start(), c);
        },
        _ => {},
    }
    match m.0 {
        NumberDieMove::DoNothing => {},
        NumberDieMove::MovePiece { from, to, eats } => {
            let s1 = b0.tiles@.update(to as int, Some(player));
            lemma_color_count_update(b0.tiles@, c, to as int, Some(player));
            match from {
                MoveFrom::Home => {},
                MoveFrom::Board(pos) => {
                    lemma_color_count_update(s1, c, pos as int, None);
                },
            }
        },
        NumberDieMove::MoveToGoal { from_board, to_goal } => {
            lemma_color_count_update(b0.tiles@, c, from_board as int, None);
            if c == player {
                lemma_filled_count_update(b0.goal_of(player), to_goal as int, Some(player));
            }
        },
    }
}

impl TwistBoard {
    /// Apply the number-die half of a move: relocate or remove one piece,
    /// returning a captured piece to its owner's home base.  The cached
    /// piece lists are left stale; the caller rebuilds them.
    fn apply_number_move(&mut self, player: PlayerColor, nm: &NumberDieMove)
        requires
            old(self).wf(),
            old(self).is_player(player),
            number_applicable(*old(self), player, *nm),
        ensures
            final(self).tiles@ == t_number_tiles(*old(self), player, *nm),
            final(self).tiles@.len() == 32,
            forall|c: PlayerColor|
                #[trigger] final(self).goal_of(c) == (if c == player {
                    t_moved_goal_n(*old(self), player, *nm)
                } else {
                    old(self).goal_of(c)
                }),
            forall|c: PlayerColor|
                #[trigger] final(self).waiting(c) == t_waiting_after_n(*old(self), player, *nm, c),
            final(self).goals@.len() == 4,
            forall|g: int| 0 <= g < 4 ==> (#[trigger] final(self).goals@[g])@.len() == 3,
            final(self).home_bases@.len() == 4,
            final(self).rotation == old(self).rotation,
            final(self).players == old(self).players,
            forall|i: int|
                0 <= i < 32 ==> (#[trigger] final(self).tiles@[i] matches Some(c)
                    ==> final(self).is_player(c)),
            final(self).goals_ok(),
    {
        let ghost b0 = *old(self);
        match nm {
            NumberDieMove::MovePiece { from, to, eats } => {
                if *eats {
                    let target_player = self.tiles[*to as usize].unwrap();
                    proof {
                        crate::board::lemma_count_at_least_one(b0.tiles@, target_player, *to as int);
                        lemma_filled_count_bounds(b0.goal_of(target_player));
                        assert(b0.waiting(target_player) + color_count(b0.tiles@, target_player)
                            + filled_count(b0.goal_of(target_player)) == 4);
                    }
                    let vi = target_player.index();
                    let w = self.home_bases[vi].pieces_waiting;
                    self.home_bases[vi] = HomeBase { pieces_waiting: w + 1 };
                }
                self.tiles[*to as usize] = Some(player);
                match from {
                    MoveFrom::Home => {
                        let pi = player.index();
                        let w = self.home_bases[pi].pieces_waiting;
                        self.home_bases[pi] = HomeBase { pieces_waiting: w - 1 };
                    },
                    MoveFrom::Board(pos) => {
                        self.tiles[*pos as usize] = None;
                    },
                }
            },
            NumberDieMove::MoveToGoal { from_board, to_goal } => {
                self.tiles[*from_board as usize] = None;
                let gi = player.index();
                let track = &mut self.goals[gi];
                track[*to_goal as usize] = Some(player);
            },
            NumberDieMove::DoNothing => {},
        }
        proof {
            assert forall|c: PlayerColor| #[trigger]
                self.goal_of(c) == (if c == player {
                    t_moved_goal_n(b0, player, *nm)
                } else {
                    b0.goal_of(c)
                }) by {
                if c.idx() != player.idx() {
                    assert(self.goals@[c.idx()] == b0.goals@[c.idx()]);
                }
            }
            assert forall|i: int|
                0 <= i < 32 implies (#[trigger] self.tiles@[i] matches Some(c) ==> self.is_player(
                c,
            )) by {
                assert(b0.tiles@[i] matches Some(c) ==> b0.is_player(c));
            }
        }
    }

    /// Apply one previously generated move: the number-die half relocates or
    /// removes a piece (a capture returns exactly one opposing piece home),
    /// the action-die half reverses an arc or rotates the board, and the
    /// cached piece lists are rebuilt.
    #[verifier::rlimit(100)]
    pub fn perform_move(&mut self, player: PlayerColor, mov: &TwistMove)
        requires
            old(self).wf(),
            old(self).is_player(player),
            twist_applicable(*old(self), player, *mov),
        ensures
            final(self).wf(),
            final(self).players == old(self).players,
            final(self).rotation == t_rotation_after(*old(self), *mov),
            final(self).tiles@ == t_result_tiles(*old(self), player, *mov),
            forall|c: PlayerColor|
                #[trigger] final(self).goal_of(c) == (if c == player {
                    t_moved_goal(*old(self), player, *mov)
                } else {
                    old(self).goal_of(c)
                }),
            forall|c: PlayerColor|
                #[trigger] final(self).waiting(c) == t_waiting_after(*old(self), player, *mov, c),
            mov.0.spec_eats() ==> {
                let victim = t_eaten_color(*old(self), player, *mov);
                final(self).waiting(victim) == old(self).waiting(victim) + 1 && color_count(
                    final(self).tiles@,
                    victim,
                ) == color_count(old(self).tiles@, victim) - 1
            },
    {
        let ghost b0 = *old(self);
        self.apply_number_move(player, &mov.0);
        let ghost m1 = *self;

        match &mov.1 {
            ActionDieMove::SpinSection(section) => {
                self.rotate_spin_section(*section);
                proof {
                    let ghost mid = t_number_tiles(b0, player, mov.0);
                    assert forall|i: int|
                        0 <= i < 32 implies (#[trigger] self.tiles@[i] matches Some(c)
                        ==> self.is_player(c)) by {
                        assert(mid[i] matches Some(c) ==> self.is_player(c));
                    }
                }
            },
            ActionDieMove::RotateBoard => {
                self.rotation = self.rotation.next();
            },
            ActionDieMove::DoNothing => {},
        }

        self.update_piece_cache();

        proof {
            let b1 = *self;
            assert(b1.tiles@ == t_result_tiles(b0, player, *mov));
            assert(b1.goals == m1.goals);
            assert(b1.home_bases == m1.home_bases);
            assert forall|c: PlayerColor| #[trigger]
                b1.goal_of(c) == (if c == player {
                    t_moved_goal(b0, player, *mov)
                } else {
                    b0.goal_of(c)
                }) by {
                assert(b1.goals@[c.idx()] == m1.goals@[c.idx()]);
                assert(m1.goal_of(c) == (if c == player {
                    t_moved_goal_n(b0, player, mov.0)
                } else {
                    b0.goal_of(c)
                }));
            }
            assert forall|c: PlayerColor| #[trigger]
                b1.waiting(c) == t_waiting_after(b0, player, *mov, c) by {
                assert(b1.home_bases@[c.idx()] == m1.home_bases@[c.idx()]);
                assert(m1.waiting(c) == t_waiting_after_n(b0, player, mov.0, c));
            }
            assert(b1.lens_ok()) by {
                assert forall|g: int| 0 <= g < 4 implies (#[trigger] b1.goals@[g])@.len() == 3 by {
                    assert(b1.goals@[g] == m1.goals@[g]);
                }
            }
            assert(b1.goals_ok()) by {
                assert forall|g: int, s: int|
                    0 <= g < 4 && 0 <= s < 3 implies (#[trigger] b1.goals@[g]@[s] matches Some(c)
                    ==> c.idx() == g && b1.is_player(c)) by {
                    assert(b1.goals@[g] == m1.goals@[g]);
                    assert(m1.goals@[g]@[s] matches Some(c) ==> c.idx() == g && m1.is_player(c));
                }
            }
            assert(b1.tiles_ok()) by {
                let mid = t_number_tiles(b0, player, mov.0);
                assert(forall|j: int|
                    0 <= j < 32 ==> (#[trigger] mid[j] matches Some(c) ==> b1.is_player(c)));
            }
            assert forall|c: PlayerColor| #[trigger]
                b1.waiting(c) + color_count(b1.tiles@, c) + filled_count(b1.goal_of(c))
                == 4 by {
                lemma_twist_move_conservation(b0, player, *mov, b1, c);
            }
            assert forall|c: PlayerColor|
                !b1.is_player(c) implies #[trigger] b1.waiting(c) == 4 && filled_count(
                b1.goal_of(c),
            ) == 0 by {
                lemma_twist_move_conservation(b0, player, *mov, b1, c);
                if mov.0.spec_eats() && c == t_eaten_color(b0, player, *mov) {
                    assert(b0.is_player(c));
                }
            }
            if mov.0.spec_eats() {
                lemma_twist_move_conservation(b0, player, *mov, b1, t_eaten_color(b0, player, *mov));
            }
        }
    }
}

/// Two rotating boards hold the same position when all their parts agree,
/// view for view.
pub open spec fn t_same_position(a: TwistBoard, b: TwistBoard) -> bool {
    &&& b.tiles@ == a.tiles@
    &&& b.goals@.len() == a.goals@.len()
    &&& forall|g: int| 0 <= g < a.goals@.len() ==> (#[trigger] b.goals@[g])@ == a.goals@[g]@
    &&& b.home_bases@ == a.home_bases@
    &&& b.rotation == a.rotation
    &&& b.players == a.players
    &&& b.piece_cache.0@ == a.piece_cache.0@
    &&& b.piece_cache.1@ == a.piece_cache.1@
}

/// Well-formedness carries over between rotating boards holding the same
/// position.
pub proof fn lemma_t_same_position_wf(a: TwistBoard, b: TwistBoard)
    requires
        t_same_position(a, b),
        a.wf(),
    ensures
        b.wf(),
        forall|c: PlayerColor| #[trigger] b.goal_of(c) == a.goal_of(c),
{
    assert forall|c: PlayerColor| #[trigger] b.goal_of(c) == a.goal_of(c) by {
        assert(b.goals@[c.idx()]@ == a.goals@[c.idx()]@);
    }
    assert(b.lens_ok()) by {
        assert forall|g: int| 0 <= g < 4 implies (#[trigger] b.goals@[g])@.len() == 3 by {
            assert(b.goals@[g]@ == a.goals@[g]@);
        }
    }
    assert(b.goals_ok()) by {
        assert forall|g: int, s: int|
            0 <= g < 4 && 0 <= s < 3 implies (#[trigger] b.goals@[g]@[s] matches Some(c) ==> c.idx()
            == g && b.is_player(c)) by {
            assert(b.goals@[g]@ == a.goals@[g]@);
            assert(a.goals@[g]@[s] matches Some(c) ==> c.idx() == g && a.is_player(c));
        }
    }
    assert forall|c: PlayerColor| #[trigger]
        b.waiting(c) + color_count(b.tiles@, c) + filled_count(b.goal_of(c)) == 4 by {
        assert(b.goal_of(c) == a.goal_of(c));
        assert(a.waiting(c) + color_count(a.tiles@, c) + filled_count(a.goal_of(c)) == 4);
    }
    assert forall|c: PlayerColor|
        !b.is_player(c) implies #[trigger] b.waiting(c) == 4 && filled_count(b.goal_of(c))
        == 0 by {
        assert(b.goal_of(c) == a.goal_of(c));
        assert(!a.is_player(c) ==> a.waiting(c) == 4 && filled_count(a.goal_of(c)) == 0);
    }
    assert(b.cache_ok()) by {
        assert(b.goal_of(b.players.0) == a.goal_of(a.players.0));
        assert(b.goal_of(b.players.1) == a.goal_of(a.players.1));
    }
}

/// The four goal tracks of a rotating board, as plain sequences.
pub open spec fn t_goals_view(b: TwistBoard) -> Seq<Seq<BoardCell>> {
    Seq::new(4, |g: int| b.goals@[g]@)
}

/// The four home-base counts of a rotating board, as plain integers.
pub open spec fn t_waiting_view(b: TwistBoard) -> Seq<int> {
    Seq::new(4, |i: int| b.home_bases@[i].pieces_waiting as int)
}

/// What any well-formed rotating board reached by applying `m` to the
/// position given by the plain arguments must look like.
pub open spec fn t_after_core(
    tiles: Seq<BoardCell>,
    goalsv: Seq<Seq<BoardCell>>,
    waitingv: Seq<int>,
    rot: TwistRotation,
    players: (PlayerColor, PlayerColor),
    player: PlayerColor,
    m: TwistMove,
    x: TwistBoard,
) -> bool {
    &&& x.wf()
    &&& x.players == players
    &&& x.rotation == t_rotation_after_s(rot, m)
    &&& x.tiles@ == t_result_tiles_s(tiles, player, m)
    &&& forall|c: PlayerColor|
        #[trigger] x.goal_of(c) == (if c == player {
            t_moved_goal_s(goalsv[player.idx()], player, m.0)
        } else {
            goalsv[c.idx()]
        })
    &&& forall|c: PlayerColor|
        #[trigger] x.waiting(c) == t_waiting_after_sv(waitingv[c.idx()], tiles, player, m.0, c)
}

/// Some well-formed rotating board after applying `m` to the given
/// position; any two boards fitting that description hold the same position
/// (`lemma_t_after_unique`).
pub open spec fn t_board_after(
    tiles: Seq<BoardCell>,
    goalsv: Seq<Seq<BoardCell>>,
    waitingv: Seq<int>,
    rot: TwistRotation,
    players: (PlayerColor, PlayerColor),
    player: PlayerColor,
    m: TwistMove,
) -> TwistBoard {
    choose|x: TwistBoard| t_after_core(tiles, goalsv, waitingv, rot, players, player, m, x)
}

/// The canonical piece list of a color of the rotating board is unique.
pub proof fn lemma_t_piece_list_unique(
    a: TwistBoard,
    c: PlayerColor,
    s1: Seq<PiecePosition>,
    s2: Seq<PiecePosition>,
)
    requires
        a.lists_pieces(c, s1),
        a.lists_pieces(c, s2),
    ensures
        s1 == s2,
{
    assert forall|p: PiecePosition| s1.contains(p) implies s2.contains(p) by {
        let k = choose|k: int| 0 <= k < s1.len() && s1[k] == p;
        match p {
            PiecePosition::Board(i) => {
                assert(a.tiles@[i as int] == Some(c));
                assert(s2.contains(PiecePosition::Board(((i as int)) as u8)));
            },
            PiecePosition::Goal(g) => {
                assert(a.goal_of(c)[g as int] is Some);
                assert(s2.contains(PiecePosition::Goal(((g as int)) as u8)));
            },
        }
    }
    assert forall|p: PiecePosition| s2.contains(p) implies s1.contains(p) by {
        let k = choose|k: int| 0 <= k < s2.len() && s2[k] == p;
        match p {
            PiecePosition::Board(i) => {
                assert(a.tiles@[i as int] == Some(c));
                assert(s1.contains(PiecePosition::Board(((i as int)) as u8)));
            },
            PiecePosition::Goal(g) => {
                assert(a.goal_of(c)[g as int] is Some);
                assert(s1.contains(PiecePosition::Goal(((g as int)) as u8)));
            },
        }
    }
    assert(forall|p: PiecePosition| s1.contains(p) <==> s2.contains(p));
    crate::boardhash::lemma_strictly_sorted_same_members(s1, s2);
}

/// Two well-formed rotating boards that fit the same applied-move
/// description hold the same position, cached piece lists included.
pub proof fn lemma_t_after_unique(
    tiles: Seq<BoardCell>,
    goalsv: Seq<Seq<BoardCell>>,
    waitingv: Seq<int>,
    rot: TwistRotation,
    players: (PlayerColor, PlayerColor),
    player: PlayerColor,
    m: TwistMove,
    x1: TwistBoard,
    x2: TwistBoard,
)
    requires
        t_after_core(tiles, goalsv, waitingv, rot, players, player, m, x1),
        t_after_core(tiles, goalsv, waitingv, rot, players, player, m, x2),
    ensures
        t_same_position(x1, x2),
{
    assert forall|g: int| 0 <= g < 4 implies (#[trigger] x2.goals@[g])@ == x1.goals@[g]@ by {
        let cg = crate::board::color_of_index(g);
        assert(cg.idx() == g);
        assert(x1.goal_of(cg) == x2.goal_of(cg));
    }
    assert(x2.home_bases@ =~= x1.home_bases@) by {
        assert forall|i: int| 0 <= i < 4 implies x2.home_bases@[i] == x1.home_bases@[i] by {
            let ci = crate::board::color_of_index(i);
            assert(ci.idx() == i);
            assert(x1.waiting(ci) == x2.waiting(ci));
        }
    }
    lemma_t_piece_list_unique(x1, x1.players.0, x1.piece_cache.0@, x2.piece_cache.0@);
    lemma_t_piece_list_unique(x1, x1.players.1, x1.piece_cache.1@, x2.piece_cache.1@);
}

impl TwistBoard {
    /// A fresh board holding the same position.
    pub fn copy_board(&self) -> (r: TwistBoard)
        ensures
            t_same_position(*self, r),
    {
        let tiles = crate::board::copy_cells_vec(&self.tiles);
        let mut goals: Vec<Vec<BoardCell>> = Vec::new();
        let mut g: usize = 0;
        while g < self.goals.len()
            invariant
                g <= self.goals@.len(),
                goals@.len() == g,
                forall|gi: int| 0 <= gi < g ==> (#[trigger] goals@[gi])@ == self.goals@[gi]@,
            decreases self.goals@.len() - g,
        {
            goals.push(crate::board::copy_cells_vec(&self.goals[g]));
            g = g + 1;
        }
        let mut home_bases: Vec<HomeBase> = Vec::new();
        let mut h: usize = 0;
        while h < self.home_bases.len()
            invariant
                h <= self.home_bases@.len(),
                home_bases@.len() == h,
                forall|hi: int| 0 <= hi < h ==> #[trigger] home_bases@[hi] == self.home_bases@[hi],
            decreases self.home_bases@.len() - h,
        {
            home_bases.push(self.home_bases[h]);
            h = h + 1;
        }
        let cache_a = crate::board::copy_pieces_vec(&self.piece_cache.0);
        let cache_b = crate::board::copy_pieces_vec(&self.piece_cache.1);
        let r = TwistBoard {
            tiles,
            goals,
            home_bases,
            rotation: self.rotation,
            players: self.players,
            piece_cache: (cache_a, cache_b),
        };
        proof {
            assert(r.home_bases@ =~= self.home_bases@);
        }
        r
    }

    /// A copy of this board with the given move applied; the board itself is
    /// left untouched.
    pub fn with_move(&self, player: PlayerColor, mov: &TwistMove) -> (r: TwistBoard)
        requires
            self.wf(),
            self.is_player(player),
            twist_applicable(*self, player, *mov),
        ensures
            r.wf(),
            r.players == self.players,
            r.rotation == t_rotation_after(*self, *mov),
            r.tiles@ == t_result_tiles(*self, player, *mov),
            forall|c: PlayerColor|
                #[trigger] r.goal_of(c) == (if c == player {
                    t_moved_goal(*self, player, *mov)
                } else {
                    self.goal_of(c)
                }),
            forall|c: PlayerColor|
                #[trigger] r.waiting(c) == t_waiting_after(*self, player, *mov, c),
    {
        let mut board = self.copy_board();
        proof {
            lemma_t_same_position_wf(*self, board);
        }
        board.perform_move(player, mov);
        board
    }
}

/// Piece conservation of the rotating variant: on a well-formed board each
/// color's four pieces are split exactly between its home base, the ring,
/// and its goal track.  Move application preserves well-formedness, so this
/// holds before and after every move (see `perform_move`).
pub proof fn lemma_twist_piece_conservation(b: TwistBoard, c: PlayerColor)
    requires
        b.wf(),
    ensures
        b.waiting(c) + color_count(b.tiles@, c) + filled_count(b.goal_of(c)) == 4,
{
}

/// Reversing an arc moves pieces around but neither adds nor removes any.
pub proof fn lemma_reversed_arc_counts(s: Seq<BoardCell>, a: int, c: PlayerColor)
    requires
        0 <= a,
        a + 5 <= s.len(),
    ensures
        color_count(reversed_arc(s, a), c) == color_count(s, c),
{
    let s1 = s.update(a, s[a + 4]);
    let s2 = s1.update(a + 4, s[a]);
    let s3 = s2.update(a + 1, s[a + 3]);
    lemma_color_count_update(s, c, a, s[a + 4]);
    lemma_color_count_update(s1, c, a + 4, s[a]);
    lemma_color_count_update(s2, c, a + 1, s[a + 3]);
    lemma_color_count_update(s3, c, a + 3, s[a + 1]);
}

} // verus!
