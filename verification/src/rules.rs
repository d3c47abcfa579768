//! The rules engine: win detection over the eight fixed lines, and
//! enumeration of the empty cells.

use vstd::prelude::*;

use crate::game::{GameState, board_ok, cell_ok, is_mark, other_mark};

verus! {

/// The three cell indices of winning line `k`, for `k` in `0..8`:
/// the three rows top to bottom, the three columns left to right,
/// then the two diagonals.
pub open spec fn triple(k: int) -> (int, int, int) {
    if k == 0 {
        (0, 1, 2)
    } else if k == 1 {
        (3, 4, 5)
    } else if k == 2 {
        (6, 7, 8)
    } else if k == 3 {
        (0, 3, 6)
    } else if k == 4 {
        (1, 4, 7)
    } else if k == 5 {
        (2, 5, 8)
    } else if k == 6 {
        (0, 4, 8)
    } else {
        (2, 4, 6)
    }
}

/// Line `k` is fully occupied by mark `m`.
pub open spec fn triple_won(b: Seq<Option<char>>, m: char, k: int) -> bool {
    &&& b[triple(k).0] == Some(m)
    &&& b[triple(k).1] == Some(m)
    &&& b[triple(k).2] == Some(m)
}

/// Some line is fully occupied by mark `m`.
pub open spec fn has_win(b: Seq<Option<char>>, m: char) -> bool {
    exists|k: int| 0 <= k < 8 && triple_won(b, m, k)
}

/// The winner found by scanning the lines from `k` upward: the mark of the
/// first line fully occupied by one mark, if any.
pub open spec fn winner_from(b: Seq<Option<char>>, k: int) -> Option<char>
    decreases 8 - k,
{
    if k < 0 || k >= 8 {
        None
    } else if b[triple(k).0] is Some && b[triple(k).0] == b[triple(k).1] && b[triple(k).1]
        == b[triple(k).2] {
        b[triple(k).0]
    } else {
        winner_from(b, k + 1)
    }
}

/// The winner of the board: the mark of the first fully occupied line in
/// the fixed scan order, or `None` when no line is complete.
pub open spec fn spec_winner(b: Seq<Option<char>>) -> Option<char> {
    winner_from(b, 0)
}

/// Every cell is occupied.
pub open spec fn board_full(b: Seq<Option<char>>) -> bool {
    forall|i: int| 0 <= i < 9 ==> #[trigger] b[i] is Some
}

/// The number of empty cells among indices `i..9`.
pub open spec fn empties_from(b: Seq<Option<char>>, i: int) -> int
    decreases 9 - i,
{
    if i < 0 || i >= 9 {
        0
    } else {
        (if b[i] is None {
            1int
        } else {
            0int
        }) + empties_from(b, i + 1)
    }
}

/// The number of empty cells of the board.
pub open spec fn empty_count(b: Seq<Option<char>>) -> int {
    empties_from(b, 0)
}

pub proof fn lemma_empties_from_nonneg(b: Seq<Option<char>>, i: int)
    ensures
        0 <= empties_from(b, i),
    decreases 9 - i,
{
    if 0 <= i < 9 {
        lemma_empties_from_nonneg(b, i + 1);
    }
}

/// Placing a mark in an empty cell lowers the count of empty cells at or
/// after `i` by one when the cell is at or after `i`, and leaves it alone
/// otherwise.
pub proof fn lemma_empties_from_update(b: Seq<Option<char>>, j: int, m: char, i: int)
    requires
        b.len() == 9,
        0 <= j < 9,
        b[j] is None,
        0 <= i <= 9,
    ensures
        empties_from(b.update(j, Some(m)), i) == empties_from(b, i) - (if i <= j {
            1int
        } else {
            0int
        }),
    decreases 9 - i,
{
    if i < 9 {
        lemma_empties_from_update(b, j, m, i + 1);
    }
}

/// What a list of the empty cells is: each entry an empty cell, every
/// empty cell listed, in strictly ascending order.
pub open spec fn moves_list_ok(b: Seq<Option<char>>, moves: Seq<usize>) -> bool {
    &&& forall|j: int|
        0 <= j < moves.len() ==> #[trigger] moves[j] < 9 && b[moves[j] as int] is None
    &&& forall|i: usize| i < 9 && b[i as int] is None ==> moves.contains(i)
    &&& forall|j1: int, j2: int| 0 <= j1 < j2 < moves.len() ==> moves[j1] < moves[j2]
}

/// Every empty cell stands somewhere in such a list.
pub proof fn lemma_empty_cell_index(b: Seq<Option<char>>, moves: Seq<usize>, c: usize)
    requires
        moves_list_ok(b, moves),
        c < 9,
        b[c as int] is None,
    ensures
        exists|k: int| 0 <= k < moves.len() && moves[k] == c,
{
    assert(moves.contains(c));
}

impl GameState {
    /// The three cell indices of winning line `k`.
    fn triple_cells(k: usize) -> (t: (usize, usize, usize))
        requires
            k < 8,
        ensures
            t.0 as int == triple(k as int).0,
            t.1 as int == triple(k as int).1,
            t.2 as int == triple(k as int).2,
            t.0 < 9 && t.1 < 9 && t.2 < 9,
    {
        match k {
            0 => (0, 1, 2),
            1 => (3, 4, 5),
            2 => (6, 7, 8),
            3 => (0, 3, 6),
            4 => (1, 4, 7),
            5 => (2, 5, 8),
            6 => (0, 4, 8),
            _ => (2, 4, 6),
        }
    }

    /// Scans the eight winning lines in the fixed order and returns the
    /// mark of the first line fully occupied by one mark, if any.
    pub fn check_winner(&self) -> (r: Option<char>)
        requires
            self.board@.len() == 9,
        ensures
            r == spec_winner(self.board@),
    {
        let mut k: usize = 0;
        while k < 8
            invariant
                k <= 8,
                self.board@.len() == 9,
                winner_from(self.board@, 0) == winner_from(self.board@, k as int),
            decreases 8 - k,
        {
            let (ia, ib, ic) = Self::triple_cells(k);
            if let (Some(a), Some(b), Some(c)) = (self.board[ia], self.board[ib], self.board[ic]) {
                if a == b && b == c {
                    return Some(a);
                }
            }
            k = k + 1;
        }
        None
    }

    /// The indices of the empty cells, in ascending order.
    pub fn available_moves(&self) -> (moves: Vec<usize>)
        requires
            self.board@.len() == 9,
        ensures
            moves_list_ok(self.board@, moves@),
    {
        let mut moves: Vec<usize> = Vec::new();
        let mut i: usize = 0;
        while i < 9
            invariant
                i <= 9,
                self.board@.len() == 9,
                forall|j: int|
                    0 <= j < moves@.len() ==> #[trigger] moves@[j] < i && self.board@[moves@[j] as int]
                        is None,
                forall|c: usize| c < i && self.board@[c as int] is None ==> moves@.contains(c),
                forall|j1: int, j2: int| 0 <= j1 < j2 < moves@.len() ==> moves@[j1] < moves@[j2],
            decreases 9 - i,
        {
            if self.board[i].is_none() {
                let ghost old_moves = moves@;
                moves.push(i);
                proof {
                    assert forall|c: usize| c < i + 1 && self.board@[c as int] is None implies moves@.contains(
                        c,
                    ) by {
                        if c < i {
                            assert(old_moves.contains(c));
                            let k = choose|k: int|
                                0 <= k < old_moves.len() && old_moves[k] == c;
                            assert(moves@[k] == c);
                        } else {
                            assert(moves@[moves@.len() - 1] == c);
                        }
                    }
                }
            }
            i = i + 1;
        }
        moves
    }

    /// Whether every cell is occupied.
    pub(crate) fn is_full(&self) -> (r: bool)
        requires
            self.board@.len() == 9,
        ensures
            r == board_full(self.board@),
    {
        let mut i: usize = 0;
        while i < 9
            invariant
                i <= 9,
                self.board@.len() == 9,
                forall|j: int| 0 <= j < i ==> #[trigger] self.board@[j] is Some,
            decreases 9 - i,
        {
            if self.board[i].is_none() {
                return false;
            }
            i = i + 1;
        }
        true
    }
}

/// What `spec_winner` decides, stated over the lines themselves: it is
/// `None` exactly when neither mark holds a complete line; a returned mark
/// always holds a complete line; and a mark that holds a complete line
/// while the other mark holds none is the one returned.
pub proof fn lemma_winner_characterization(b: Seq<Option<char>>)
    requires
        board_ok(b),
    ensures
        spec_winner(b) is None <==> !has_win(b, 'X') && !has_win(b, 'O'),
        spec_winner(b) matches Some(m) ==> is_mark(m) && has_win(b, m),
        forall|m: char|
            is_mark(m) && has_win(b, m) && !has_win(b, other_mark(m)) ==> spec_winner(b) == Some(m),
{
    lemma_winner_from_characterization(b, 0);
    assert forall|m: char|
        is_mark(m) && has_win(b, m) && !has_win(b, other_mark(m)) implies spec_winner(b) == Some(m) by {
        if spec_winner(b) is None {
            assert(!has_win(b, m));
        } else {
            let w = spec_winner(b)->0;
            assert(is_mark(w) && has_win(b, w));
            if w != m {
                assert(w == other_mark(m));
            }
        }
    }
}

proof fn lemma_winner_from_characterization(b: Seq<Option<char>>, k: int)
    requires
        board_ok(b),
        0 <= k <= 8,
    ensures
        winner_from(b, k) is None <==> (forall|m: char, j: int|
            k <= j < 8 ==> !#[trigger] triple_won(b, m, j)),
        winner_from(b, k) matches Some(m) ==> is_mark(m) && exists|j: int|
            k <= j < 8 && triple_won(b, m, j),
    decreases 8 - k,
{
    if k < 8 {
        lemma_winner_from_characterization(b, k + 1);
        let t = triple(k);
        if b[t.0] is Some && b[t.0] == b[t.1] && b[t.1] == b[t.2] {
            let m = b[t.0]->0;
            assert(0 <= t.0 < 9 && cell_ok(b[t.0]));
            assert(triple_won(b, m, k));
        } else {
            assert forall|m: char, j: int| k <= j < 8 && winner_from(b, k) is None implies !#[trigger] triple_won(
                b,
                m,
                j,
            ) by {
                if j == k {
                    assert(!triple_won(b, m, k));
                }
            }
        }
    }
}

} // verus!
