use vstd::prelude::*;

use crate::board::{Board, PiecePosition};
use crate::color::PlayerColor;

verus! {

/// A board position packed into 64 bits: for each of the up-to-four pieces
/// of each side a presence bit and a 5-bit unified location (ring cells
/// first, goal slots just above them).  Home pieces are the absent flags;
/// the waiting counts are reconstructible and not stored.
#[derive(Copy, Clone, Debug, PartialEq, Eq, Hash, Structural)]
pub struct BoardHash(pub u64);

/// The 5-bit location code of one piece.
pub open spec fn piece_code(p: PiecePosition) -> u64 {
    match p {
        PiecePosition::Board(i) => i as u64,
        PiecePosition::Goal(g) => ((g as int + 28) as u64),
    }
}

/// The bits of the pieces `pieces[..n]` of one side, laid out six bits per
/// piece starting at `base`.
pub open spec fn side_hash_upto(pieces: Seq<PiecePosition>, base: int, n: int) -> u64
    decreases n,
{
    if n <= 0 {
        0u64
    } else {
        side_hash_upto(pieces, base, n - 1) | (1u64 << ((base + 6 * (n - 1)) as u64)) | (
        piece_code(pieces[n - 1]) << ((base + 6 * (n - 1) + 1) as u64))
    }
}

/// The packed fingerprint of a board: both sides' piece bits, one side from
/// bit 0, the other from bit 24.
pub open spec fn spec_board_hash(b: Board) -> u64 {
    side_hash_upto(b.piece_cache.0@, 0, b.piece_cache.0@.len() as int) | side_hash_upto(
        b.piece_cache.1@,
        24,
        b.piece_cache.1@.len() as int,
    )
}

/// The packed fingerprint with the optional side-to-move bit folded in.
pub open spec fn spec_board_hash_with_turn(
    b: Board,
    current_player: PlayerColor,
    include_turn: bool,
) -> u64 {
    if include_turn && current_player != b.players.0 {
        spec_board_hash(b) | (1u64 << 48)
    } else {
        spec_board_hash(b)
    }
}

/// Two strictly key-sorted sequences with the same members are the same
/// sequence.
pub(crate) proof fn lemma_strictly_sorted_same_members(s1: Seq<PiecePosition>, s2: Seq<PiecePosition>)
    requires
        forall|k1: int, k2: int| 0 <= k1 < k2 < s1.len() ==> s1[k1].key() < s1[k2].key(),
        forall|k1: int, k2: int| 0 <= k1 < k2 < s2.len() ==> s2[k1].key() < s2[k2].key(),
        forall|p: PiecePosition| s1.contains(p) <==> s2.contains(p),
    ensures
        s1 == s2,
    decreases s1.len(),
{
    if s1.len() == 0 {
        if s2.len() > 0 {
            assert(s2.contains(s2[0]));
            assert(s1.contains(s2[0]));
        }
        assert(s1 =~= s2);
    } else {
        assert(s1.contains(s1[0]));
        let j = choose|j: int| 0 <= j < s2.len() && s2[j] == s1[0];
        assert(s2.contains(s2[0]));
        let i = choose|i: int| 0 <= i < s1.len() && s1[i] == s2[0];
        assert(s2[0].key() <= s2[j].key());
        assert(s1[0].key() <= s1[i].key());
        if j > 0 {
            assert(s2[0].key() < s2[j].key());
        }
        assert(s2[0] == s1[0]);

        let t1 = s1.subrange(1, s1.len() as int);
        let t2 = s2.subrange(1, s2.len() as int);
        assert forall|p: PiecePosition| t1.contains(p) implies t2.contains(p) by {
            let k = choose|k: int| 0 <= k < t1.len() && t1[k] == p;
            assert(s1[k + 1] == p);
            assert(s1.contains(p));
            assert(s2.contains(p));
            let m = choose|m: int| 0 <= m < s2.len() && s2[m] == p;
            assert(s1[0].key() < s1[k + 1].key());
            assert(m != 0);
            assert(t2[m - 1] == p);
            assert(t2.contains(p));
        }
        assert forall|p: PiecePosition| t2.contains(p) implies t1.contains(p) by {
            let k = choose|k: int| 0 <= k < t2.len() && t2[k] == p;
            assert(s2[k + 1] == p);
            assert(s2.contains(p));
            assert(s1.contains(p));
            let m = choose|m: int| 0 <= m < s1.len() && s1[m] == p;
            assert(s2[0].key() < s2[k + 1].key());
            assert(m != 0);
            assert(t1[m - 1] == p);
            assert(t1.contains(p));
        }
        assert(forall|p: PiecePosition| t1.contains(p) <==> t2.contains(p));
        lemma_strictly_sorted_same_members(t1, t2);
        assert(s1 =~= s2) by {
            assert(s2.len() == s1.len());
            assert forall|k: int| 0 <= k < s1.len() implies s1[k] == s2[k] by {
                if k > 0 {
                    assert(s1[k] == t1[k - 1]);
                    assert(s2[k] == t2[k - 1]);
                }
            }
        }
    }
}

/// The canonical piece list of a color is unique: two lists of the same
/// content are the same list.
pub proof fn lemma_piece_list_unique(
    a: Board,
    c: PlayerColor,
    s1: Seq<PiecePosition>,
    s2: Seq<PiecePosition>,
)
    requires
        a.lists_pieces(c, s1),
        a.lists_pieces(c, s2),
    ensures
        s1 == s2,
{
    assert forall|p: PiecePosition| s1.contains(p) implies s2.contains(p) by {
        let k = choose|k: int| 0 <= k < s1.len() && s1[k] == p;
        match p {
            PiecePosition::Board(i) => {
                assert(a.tiles@[i as int] == Some(c));
                assert(s2.contains(PiecePosition::Board(((i as int)) as u8)));
            },
            PiecePosition::Goal(g) => {
                assert(a.goal_of(c)[g as int] is Some);
                assert(s2.contains(PiecePosition::Goal(((g as int)) as u8)));
            },
        }
    }
    assert forall|p: PiecePosition| s2.contains(p) implies s1.contains(p) by {
        let k = choose|k: int| 0 <= k < s2.len() && s2[k] == p;
        match p {
            PiecePosition::Board(i) => {
                assert(a.tiles@[i as int] == Some(c));
                assert(s1.contains(PiecePosition::Board(((i as int)) as u8)));
            },
            PiecePosition::Goal(g) => {
                assert(a.goal_of(c)[g as int] is Some);
                assert(s1.contains(PiecePosition::Goal(((g as int)) as u8)));
            },
        }
    }
    assert(forall|p: PiecePosition| s1.contains(p) <==> s2.contains(p));
    lemma_strictly_sorted_same_members(s1, s2);
}

/// The fingerprint is a pure function of the board content: two well-formed
/// boards of the same players holding the same cells hash identically,
/// however their positions were reached.
pub proof fn lemma_board_hash_content(a: Board, b: Board)
    requires
        a.wf(),
        b.wf(),
        a.players == b.players,
        a.tiles@ == b.tiles@,
        forall|c: PlayerColor| #[trigger] a.goal_of(c) == b.goal_of(c),
    ensures
        spec_board_hash(a) == spec_board_hash(b),
{
    assert(a.lists_pieces(a.players.0, b.piece_cache.0@)) by {
        assert(a.goal_of(a.players.0) == b.goal_of(b.players.0));
    }
    assert(a.lists_pieces(a.players.1, b.piece_cache.1@)) by {
        assert(a.goal_of(a.players.1) == b.goal_of(b.players.1));
    }
    lemma_piece_list_unique(a, a.players.0, a.piece_cache.0@, b.piece_cache.0@);
    lemma_piece_list_unique(a, a.players.1, a.piece_cache.1@, b.piece_cache.1@);
}

/// The bits of one side's pieces, six bits per piece starting at `base`.
fn side_hash(pieces: &Vec<PiecePosition>, base: u64) -> (r: u64)
    requires
        pieces@.len() <= 4,
        base == 0 || base == 24,
    ensures
        r == side_hash_upto(pieces@, base as int, pieces@.len() as int),
{
    let mut packed: u64 = 0;
    let mut k: usize = 0;
    while k < pieces.len()
        invariant
            pieces@.len() <= 4,
            base == 0 || base == 24,
            k <= pieces@.len(),
            packed == side_hash_upto(pieces@, base as int, k as int),
        decreases pieces@.len() - k,
    {
        let piece_offset: u64 = base + (k as u64) * 6;
        packed = packed | (1u64 << piece_offset);
        match pieces[k] {
            PiecePosition::Board(board_index) => {
                packed = packed | ((board_index as u64) << (piece_offset + 1));
            },
            PiecePosition::Goal(goal_index) => {
                packed = packed | ((28 + goal_index as u64) << (piece_offset + 1));
            },
        }
        k = k + 1;
    }
    packed
}

/// Pack a board into its 64-bit fingerprint: a pure function of the cached
/// piece lists, and so of the board content alone.  The side to move is
/// folded in as one bit only on request, for a cache shared across both
/// sides.
pub fn get_board_hash(board: &Board, current_player: PlayerColor, include_turn: bool) -> (r:
    BoardHash)
    requires
        board.wf(),
    ensures
        r.0 == spec_board_hash_with_turn(*board, current_player, include_turn),
{
    proof {
        crate::board::lemma_piece_conservation(*board, board.players.0);
        crate::board::lemma_piece_conservation(*board, board.players.1);
        crate::seqcount::lemma_color_count_bounds(board.tiles@, board.players.0);
        crate::seqcount::lemma_color_count_bounds(board.tiles@, board.players.1);
        crate::seqcount::lemma_filled_count_bounds(board.goal_of(board.players.0));
        crate::seqcount::lemma_filled_count_bounds(board.goal_of(board.players.1));
    }
    let first = side_hash(&board.piece_cache.0, 0);
    let second = side_hash(&board.piece_cache.1, 24);
    let packed = first | second;
    if include_turn && current_player != board.players.0 {
        BoardHash(packed | (1u64 << 48))
    } else {
        BoardHash(packed)
    }
}

} // verus!
