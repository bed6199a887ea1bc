use vstd::prelude::*;

use crate::color::PlayerColor;

verus! {

/// Number of cells in `s` that hold a piece of color `c`.
pub open spec fn color_count(s: Seq<Option<PlayerColor>>, c: PlayerColor) -> int
    decreases s.len(),
{
    if s.len() == 0 {
        0
    } else {
        color_count(s.drop_last(), c) + if s.last() == Some(c) {
            1int
        } else {
            0int
        }
    }
}

/// Number of occupied cells in `s`, whichever color owns them.
pub open spec fn filled_count(s: Seq<Option<PlayerColor>>) -> int
    decreases s.len(),
{
    if s.len() == 0 {
        0
    } else {
        filled_count(s.drop_last()) + if s.last() is Some {
            1int
        } else {
            0int
        }
    }
}

pub proof fn lemma_color_count_bounds(s: Seq<Option<PlayerColor>>, c: PlayerColor)
    ensures
        0 <= color_count(s, c) <= s.len(),
    decreases s.len(),
{
    if s.len() > 0 {
        lemma_color_count_bounds(s.drop_last(), c);
    }
}

pub proof fn lemma_filled_count_bounds(s: Seq<Option<PlayerColor>>)
    ensures
        0 <= filled_count(s) <= s.len(),
    decreases s.len(),
{
    if s.len() > 0 {
        lemma_filled_count_bounds(s.drop_last());
    }
}

/// How replacing one cell changes the count of color `c`.
pub proof fn lemma_color_count_update(
    s: Seq<Option<PlayerColor>>,
    c: PlayerColor,
    i: int,
    v: Option<PlayerColor>,
)
    requires
        0 <= i < s.len(),
    ensures
        color_count(s.update(i, v), c) == color_count(s, c) - (if s[i] == Some(c) {
            1int
        } else {
            0int
        }) + (if v == Some(c) {
            1int
        } else {
            0int
        }),
    decreases s.len(),
{
    if i == s.len() - 1 {
        assert(s.update(i, v).drop_last() =~= s.drop_last());
    } else {
        assert(s.update(i, v).drop_last() =~= s.drop_last().update(i, v));
        lemma_color_count_update(s.drop_last(), c, i, v);
    }
}

/// How replacing one cell changes the number of occupied cells.
pub proof fn lemma_filled_count_update(
    s: Seq<Option<PlayerColor>>,
    i: int,
    v: Option<PlayerColor>,
)
    requires
        0 <= i < s.len(),
    ensures
        filled_count(s.update(i, v)) == filled_count(s) - (if s[i] is Some {
            1int
        } else {
            0int
        }) + (if v is Some {
            1int
        } else {
            0int
        }),
    decreases s.len(),
{
    if i == s.len() - 1 {
        assert(s.update(i, v).drop_last() =~= s.drop_last());
    } else {
        assert(s.update(i, v).drop_last() =~= s.drop_last().update(i, v));
        lemma_filled_count_update(s.drop_last(), i, v);
    }
}

/// Extending a prefix by one cell adds that cell's contribution to the count.
pub proof fn lemma_color_count_extend(s: Seq<Option<PlayerColor>>, c: PlayerColor, i: int)
    requires
        0 <= i < s.len(),
    ensures
        color_count(s.subrange(0, i + 1), c) == color_count(s.subrange(0, i), c) + (if s[i]
            == Some(c) {
            1int
        } else {
            0int
        }),
{
    assert(s.subrange(0, i + 1).drop_last() =~= s.subrange(0, i));
}

pub proof fn lemma_filled_count_extend(s: Seq<Option<PlayerColor>>, i: int)
    requires
        0 <= i < s.len(),
    ensures
        filled_count(s.subrange(0, i + 1)) == filled_count(s.subrange(0, i)) + (if s[i] is Some {
            1int
        } else {
            0int
        }),
{
    assert(s.subrange(0, i + 1).drop_last() =~= s.subrange(0, i));
}

/// What a sequence extended by one element contains.
pub broadcast proof fn lemma_seq_push_contains<T>(s: Seq<T>, x: T, y: T)
    ensures
        #[trigger] s.push(x).contains(y) <==> (s.contains(y) || x == y),
{
    if s.contains(y) {
        let k = choose|k: int| 0 <= k < s.len() && s[k] == y;
        assert(s.push(x)[k] == y);
    }
    if x == y {
        assert(s.push(x)[s.len() as int] == y);
    }
    if s.push(x).contains(y) {
        let k = choose|k: int| 0 <= k < s.push(x).len() && s.push(x)[k] == y;
        if k < s.len() {
            assert(s[k] == y);
        }
    }
}

} // verus!
