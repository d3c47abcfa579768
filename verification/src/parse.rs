//! The snapshot codec: a board parsed from its flat nine-character
//! textual form, with the mark to move inferred from the counts.

use vstd::prelude::*;
use vstd::string::StrSliceExecFns;

use crate::game::{GameState, cell_ok};

verus! {

/// A rejected snapshot string: longer than nine significant characters,
/// or holding a character that is neither a mark symbol nor the
/// placeholder.
#[derive(Clone, Copy, Debug, PartialEq, Eq, Structural)]
pub enum ParseError {
    TooLong,
    InvalidCharacter,
}

/// The whitespace stripped from either end of a snapshot string.
pub open spec fn is_space(c: char) -> bool {
    c == ' ' || c == '\t' || c == '\n' || c == '\r'
}

/// The index of the first non-space character at or after `i`.
pub open spec fn trim_start_idx(s: Seq<char>, i: int) -> int
    decreases s.len() - i,
{
    if i < 0 || i >= s.len() || !is_space(s[i]) {
        i
    } else {
        trim_start_idx(s, i + 1)
    }
}

/// The index after the last non-space character before `j`.
pub open spec fn trim_end_idx(s: Seq<char>, j: int) -> int
    decreases j,
{
    if j <= 0 || j > s.len() || !is_space(s[j - 1]) {
        j
    } else {
        trim_end_idx(s, j - 1)
    }
}

/// The snapshot string with surrounding whitespace removed.
pub open spec fn trimmed(s: Seq<char>) -> Seq<char> {
    let a = trim_start_idx(s, 0);
    if a >= s.len() {
        Seq::empty()
    } else {
        s.subrange(a, trim_end_idx(s, s.len() as int))
    }
}

/// The three characters a snapshot may hold: the two mark symbols and the
/// placeholder for an empty cell.
pub open spec fn valid_snapshot_char(c: char) -> bool {
    c == 'X' || c == 'O' || c == '_'
}

/// A parseable snapshot: at most nine significant characters, all valid.
pub open spec fn snapshot_ok(t: Seq<char>) -> bool {
    &&& t.len() <= 9
    &&& forall|i: int| 0 <= i < t.len() ==> valid_snapshot_char(#[trigger] t[i])
}

/// The cell that position `i` of a parsed snapshot holds.
pub open spec fn cell_of(t: Seq<char>, i: int) -> Option<char> {
    if i < t.len() && t[i] != '_' {
        Some(t[i])
    } else {
        None
    }
}

/// The number of cells among the first `i` holding mark `m`.
pub open spec fn mark_count_to(b: Seq<Option<char>>, m: char, i: int) -> int
    decreases i,
{
    if i <= 0 {
        0
    } else {
        mark_count_to(b, m, i - 1) + (if b[i - 1] == Some(m) {
            1int
        } else {
            0int
        })
    }
}

/// The number of cells holding mark `m`.
pub open spec fn mark_count(b: Seq<Option<char>>, m: char) -> int {
    mark_count_to(b, m, 9)
}

/// The mark to move on a parsed board: the second mark when the first
/// outnumbers it, else the first. An empty board thus starts with 'X'.
pub open spec fn inferred_player(b: Seq<Option<char>>) -> char {
    if mark_count(b, 'X') > mark_count(b, 'O') {
        'O'
    } else {
        'X'
    }
}

proof fn lemma_mark_count_to_empty_board(b: Seq<Option<char>>, m: char, i: int)
    requires
        0 <= i <= 9,
        forall|c: int| 0 <= c < 9 ==> #[trigger] b[c] is None,
    ensures
        mark_count_to(b, m, i) == 0,
    decreases i,
{
    if i > 0 {
        lemma_mark_count_to_empty_board(b, m, i - 1);
    }
}

/// Whether a character is stripped as whitespace.
fn is_space_char(c: char) -> (r: bool)
    ensures
        r == is_space(c),
{
    c == ' ' || c == '\t' || c == '\n' || c == '\r'
}

impl GameState {
    fn count_marks(board: &Vec<Option<char>>, m: char) -> (cnt: usize)
        requires
            board@.len() == 9,
        ensures
            cnt as int == mark_count(board@, m),
    {
        let mut cnt: usize = 0;
        let mut i: usize = 0;
        while i < 9
            invariant
                i <= 9,
                board@.len() == 9,
                cnt <= i,
                cnt as int == mark_count_to(board@, m, i as int),
            decreases 9 - i,
        {
            match board[i] {
                Some(c) => if c == m {
                    cnt = cnt + 1;
                },
                None => {},
            }
            i = i + 1;
        }
        cnt
    }

    /// Parses a snapshot string into a game at the lowest opponent
    /// strength. After surrounding whitespace is dropped, character `i`
    /// fills cell `i`: a mark symbol occupies the cell and the
    /// placeholder `'_'` leaves it empty, as do cells beyond the string's
    /// end. More than nine characters, or any character that is neither a
    /// mark symbol nor the placeholder, is rejected with a typed error.
    /// The mark to move is inferred from the counts of the marks placed.
    pub fn from_str(input: &str) -> (r: Result<GameState, ParseError>)
        ensures
            ({
                let t = trimmed(input@);
                &&& (r is Ok <==> snapshot_ok(t))
                &&& (r == Err::<GameState, ParseError>(ParseError::InvalidCharacter) <==> exists|
                    j: int,
                |
                    0 <= j < t.len() && j < 9 && !valid_snapshot_char(#[trigger] t[j]))
                &&& (r == Err::<GameState, ParseError>(ParseError::TooLong) <==> (t.len() > 9
                    && forall|j: int| 0 <= j < 9 ==> valid_snapshot_char(#[trigger] t[j])))
                &&& (r matches Ok(g) ==> {
                    &&& g.wf()
                    &&& g.board@.len() == 9
                    &&& (forall|i: int| 0 <= i < 9 ==> g.board@[i] == cell_of(t, i))
                    &&& g.current_player == inferred_player(g.board@)
                    &&& g.difficulty == 1
                })
            }),
    {
        let n = input.unicode_len();

        let mut a: usize = 0;
        while a < n
            invariant
                a <= n,
                n == input@.len(),
                trim_start_idx(input@, 0) == trim_start_idx(input@, a as int),
            ensures
                a <= n,
                n == input@.len(),
                trim_start_idx(input@, 0) == a as int,
                a < n ==> !is_space(input@[a as int]),
            decreases n - a,
        {
            let c = input.get_char(a);
            if !is_space_char(c) {
                break ;
            }
            a = a + 1;
        }

        if a == n {
            let game = GameState::with_difficulty(1);
            proof {
                lemma_mark_count_to_empty_board(game.board@, 'X', 9);
                lemma_mark_count_to_empty_board(game.board@, 'O', 9);
            }
            return Ok(game);
        }

        let mut e: usize = n;
        while e > a
            invariant
                n == input@.len(),
                a < n,
                !is_space(input@[a as int]),
                a < e <= n,
                trim_end_idx(input@, n as int) == trim_end_idx(input@, e as int),
            ensures
                n == input@.len(),
                a < e <= n,
                trim_end_idx(input@, n as int) == e as int,
            decreases e,
        {
            let c = input.get_char(e - 1);
            if !is_space_char(c) {
                break ;
            }
            e = e - 1;
        }

        let ghost t = trimmed(input@);
        proof {
            assert(t =~= input@.subrange(a as int, e as int));
        }

        let len_t = e - a;
        let mut board: Vec<Option<char>> = Self::empty_board();
        let mut idx: usize = 0;
        while idx < len_t
            invariant
                idx <= len_t,
                len_t == e - a,
                a < e <= n,
                n == input@.len(),
                t == trimmed(input@),
                t == input@.subrange(a as int, e as int),
                idx <= 9,
                board@.len() == 9,
                forall|c: int| 0 <= c < idx ==> valid_snapshot_char(#[trigger] t[c]),
                forall|c: int| 0 <= c < idx ==> board@[c] == cell_of(t, c),
                forall|c: int| idx <= c < 9 ==> #[trigger] board@[c] is None,
            decreases len_t - idx,
        {
            if idx >= 9 {
                return Err(ParseError::TooLong);
            }
            let ch = input.get_char(a + idx);
            assert(ch == t[idx as int]);
            if ch == 'X' || ch == 'O' {
                board[idx] = Some(ch);
            } else if ch == '_' {
            } else {
                return Err(ParseError::InvalidCharacter);
            }
            idx = idx + 1;
        }

        let x_count = Self::count_marks(&board, 'X');
        let o_count = Self::count_marks(&board, 'O');
        let current_player = if x_count > o_count {
            'O'
        } else {
            'X'
        };

        proof {
            assert forall|i: int| 0 <= i < 9 implies cell_ok(board@[i]) by {
                if board@[i] is Some {
                    assert(board@[i] == cell_of(t, i));
                }
            }
        }
        Ok(GameState { board, current_player, difficulty: 1 })
    }
}

} // verus!
