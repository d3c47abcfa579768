//! The move selector: uniform-random choice, the single-ply win/block
//! heuristic, and the exhaustive game-tree search.

use vstd::prelude::*;

use rand::seq::SliceRandom;

use crate::game::{GameState, board_ok, is_mark, other_mark};
use crate::rules::{
    board_full, empty_count, lemma_empties_from_nonneg, lemma_empties_from_update,
    lemma_empty_cell_index, moves_list_ok, spec_winner,
};

verus! {

/// Placing mark `m` in cell `i` completes a line for `m`.
pub open spec fn would_win(b: Seq<Option<char>>, m: char, i: int) -> bool {
    spec_winner(b.update(i, Some(m))) == Some(m)
}

/// Some empty cell gives `m` an immediate win.
pub open spec fn winning_cell_exists(b: Seq<Option<char>>, m: char) -> bool {
    exists|i: int| 0 <= i < 9 && b[i] is None && would_win(b, m, i)
}

/// `i` is the lowest-indexed empty cell that gives `m` an immediate win.
pub open spec fn first_winning_cell(b: Seq<Option<char>>, m: char, i: int) -> bool {
    &&& 0 <= i < 9 && b[i] is None && would_win(b, m, i)
    &&& forall|j: int| 0 <= j < i && b[j] is None ==> !would_win(b, m, j)
}

/// What the single-ply heuristic owes mark `m`: the lowest-indexed
/// immediately winning cell if one exists, else the lowest-indexed cell
/// that blocks the opponent's immediate win, else any empty cell.
pub open spec fn heuristic_choice_ok(b: Seq<Option<char>>, m: char, i: int) -> bool {
    if winning_cell_exists(b, m) {
        first_winning_cell(b, m, i)
    } else if winning_cell_exists(b, other_mark(m)) {
        first_winning_cell(b, other_mark(m), i)
    } else {
        0 <= i < 9 && b[i] is None
    }
}

/// Relies on rand's `SliceRandom::choose` with `thread_rng`: it returns a
/// reference to one element of the slice, or `None` exactly when the slice
/// is empty. Which element comes back depends on the random generator, so
/// only membership is stated.
#[verifier::external_body]
fn pick_random(moves: &Vec<usize>) -> (r: Option<usize>)
    ensures
        r is Some <==> moves@.len() > 0,
        r matches Some(i) ==> moves@.contains(i),
{
    moves.choose(&mut rand::thread_rng()).copied()
}

impl GameState {
    /// A copy of the board with mark `m` placed in cell `i`.
    fn board_with(&self, i: usize, m: char) -> (r: Vec<Option<char>>)
        requires
            self.board@.len() == 9,
            i < 9,
        ensures
            r@ == self.board@.update(i as int, Some(m)),
    {
        let mut r: Vec<Option<char>> = Vec::new();
        let mut j: usize = 0;
        while j < 9
            invariant
                j <= 9,
                self.board@.len() == 9,
                r@.len() == j,
                forall|c: int| 0 <= c < j ==> r@[c] == self.board@[c],
            decreases 9 - j,
        {
            r.push(self.board[j]);
            j = j + 1;
        }
        r[i] = Some(m);
        proof {
            assert(r@ =~= self.board@.update(i as int, Some(m)));
        }
        r
    }

    /// Whether placing `player` in the empty cell `i` would complete a
    /// line for `player`, judged on a copied board.
    pub fn would_move_win(&self, player: char, i: usize) -> (r: bool)
        requires
            self.board@.len() == 9,
            i < 9,
        ensures
            r == would_win(self.board@, player, i as int),
    {
        let simulated_board = self.board_with(i, player);
        let simulated_state = GameState {
            board: simulated_board,
            current_player: player,
            difficulty: self.difficulty,
        };
        match simulated_state.check_winner() {
            Some(w) => w == player,
            None => false,
        }
    }

    /// A uniformly random empty cell, or `None` when the board is full.
    pub fn random_move(&self) -> (r: Option<usize>)
        requires
            self.board@.len() == 9,
        ensures
            r is Some <==> !board_full(self.board@),
            r matches Some(i) ==> i < 9 && self.board@[i as int] is None,
    {
        let empty_squares = self.available_moves();
        if empty_squares.is_empty() {
            proof {
                assert forall|i: int| 0 <= i < 9 implies self.board@[i] is Some by {
                    if !(self.board@[i] is Some) {
                        assert(empty_squares@.contains(i as usize));
                    }
                }
            }
            None
        } else {
            let r = pick_random(&empty_squares);
            proof {
                let i = r->0;
                assert(empty_squares@.contains(i));
                let k = choose|k: int| 0 <= k < empty_squares@.len() && empty_squares@[k] == i;
                assert(empty_squares@[k] < 9 && self.board@[empty_squares@[k] as int] is None);
                assert(self.board@[empty_squares@[0] as int] is None);
            }
            r
        }
    }

    /// The single-ply heuristic: take an immediate win if one exists,
    /// else block the opponent's immediate win, else fall back to a
    /// random empty cell. Returns `None` only on a full board.
    pub fn best_move(&self, player: char) -> (r: Option<usize>)
        requires
            self.wf(),
            is_mark(player),
        ensures
            r is Some <==> !board_full(self.board@),
            r matches Some(i) ==> heuristic_choice_ok(self.board@, player, i as int),
    {
        let opponent = if player == 'X' {
            'O'
        } else {
            'X'
        };
        let available_moves = self.available_moves();

        let mut idx: usize = 0;
        while idx < available_moves.len()
            invariant
                idx <= available_moves@.len(),
                self.board@.len() == 9,
                moves_list_ok(self.board@, available_moves@),
                forall|k: int|
                    0 <= k < idx ==> !would_win(
                        self.board@,
                        player,
                        #[trigger] available_moves@[k] as int,
                    ),
            decreases available_moves@.len() - idx,
        {
            let i = available_moves[idx];
            if self.would_move_win(player, i) {
                proof {
                    lemma_first_listed_is_first(self.board@, available_moves@, player, idx as int);
                }
                return Some(i);
            }
            idx = idx + 1;
        }
        proof {
            lemma_none_listed_means_none(self.board@, available_moves@, player);
        }

        let mut idx: usize = 0;
        while idx < available_moves.len()
            invariant
                idx <= available_moves@.len(),
                self.board@.len() == 9,
                moves_list_ok(self.board@, available_moves@),
                opponent == other_mark(player),
                !winning_cell_exists(self.board@, player),
                forall|k: int|
                    0 <= k < idx ==> !would_win(
                        self.board@,
                        opponent,
                        #[trigger] available_moves@[k] as int,
                    ),
            decreases available_moves@.len() - idx,
        {
            let i = available_moves[idx];
            if self.would_move_win(opponent, i) {
                proof {
                    lemma_first_listed_is_first(self.board@, available_moves@, opponent, idx as int);
                }
                return Some(i);
            }
            idx = idx + 1;
        }
        proof {
            lemma_none_listed_means_none(self.board@, available_moves@, opponent);
        }
        self.random_move()
    }
}

/// The score and chosen cell of the exhaustive search from board `b`.
/// `maximizing` tells whose turn it is: the maximizer plays 'O', the
/// minimizer plays 'X'. A board won by 'X' scores -10 and one won by 'O'
/// scores +10, whoever is to move; a full board with no winner scores 0.
/// Otherwise every empty cell is tried in ascending order and the mover
/// keeps the strictly best score, so ties go to the earliest cell tried.
pub open spec fn minimax_value(b: Seq<Option<char>>, maximizing: bool) -> (int, Option<usize>)
    decreases empty_count(b), 10int,
{
    match spec_winner(b) {
        Some(w) => if w == 'X' {
            (-10, None)
        } else if w == 'O' {
            (10, None)
        } else {
            (0, None)
        },
        None => if board_full(b) {
            (0, None)
        } else {
            minimax_search(
                b,
                maximizing,
                0,
                if maximizing {
                    i32::MIN as int
                } else {
                    i32::MAX as int
                },
                None,
            )
        },
    }
}

/// The fold behind `minimax_value`: scans cells `i..9`, evaluates each
/// empty one, and keeps the strictly best score seen so far together with
/// the cell that produced it.
pub open spec fn minimax_search(
    b: Seq<Option<char>>,
    maximizing: bool,
    i: int,
    best: int,
    best_mv: Option<usize>,
) -> (int, Option<usize>)
    decreases empty_count(b), 9 - i,
    via minimax_search_decreases
{
    if i < 0 || i >= 9 || b.len() != 9 {
        (best, best_mv)
    } else if b[i] is None {
        let child = minimax_value(
            b.update(i, Some(if maximizing {
                'O'
            } else {
                'X'
            })),
            !maximizing,
        ).0;
        if (maximizing && child > best) || (!maximizing && child < best) {
            minimax_search(b, maximizing, i + 1, child, Some(i as usize))
        } else {
            minimax_search(b, maximizing, i + 1, best, best_mv)
        }
    } else {
        minimax_search(b, maximizing, i + 1, best, best_mv)
    }
}

#[via_fn]
proof fn minimax_search_decreases(
    b: Seq<Option<char>>,
    maximizing: bool,
    i: int,
    best: int,
    best_mv: Option<usize>,
) {
    if 0 <= i < 9 && b.len() == 9 && b[i] is None {
        let m = if maximizing {
            'O'
        } else {
            'X'
        };
        lemma_empties_from_update(b, i, m, 0);
        lemma_empties_from_nonneg(b.update(i, Some(m)), 0);
    }
}

/// Scanning a stretch of occupied cells leaves the running best alone.
proof fn lemma_search_skip(
    b: Seq<Option<char>>,
    maximizing: bool,
    i1: int,
    i2: int,
    best: int,
    best_mv: Option<usize>,
)
    requires
        b.len() == 9,
        0 <= i1 <= i2 <= 9,
        forall|c: int| i1 <= c < i2 ==> #[trigger] b[c] is Some,
    ensures
        minimax_search(b, maximizing, i1, best, best_mv) == minimax_search(
            b,
            maximizing,
            i2,
            best,
            best_mv,
        ),
    decreases i2 - i1,
{
    if i1 < i2 {
        assert(b[i1] is Some);
        lemma_search_skip(b, maximizing, i1 + 1, i2, best, best_mv);
    }
}

/// The cell the list points at next: the listed cell at position `j`, or
/// the end of the board once the list is exhausted.
spec fn next_cell(moves: Seq<usize>, j: int) -> int {
    if j < moves.len() {
        moves[j] as int
    } else {
        9
    }
}

/// Between the cells listed before position `j` and the cell the list
/// points at next, every cell is occupied.
proof fn lemma_occupied_upto(b: Seq<Option<char>>, moves: Seq<usize>, j: int, lo: int)
    requires
        moves_list_ok(b, moves),
        0 <= j <= moves.len(),
        0 <= lo,
        forall|k: int| 0 <= k < j ==> #[trigger] moves[k] < lo,
    ensures
        forall|c: int| lo <= c < next_cell(moves, j) ==> #[trigger] b[c] is Some,
{
    assert forall|c: int| lo <= c < next_cell(moves, j) implies #[trigger] b[c] is Some by {
        if !(b[c] is Some) {
            lemma_empty_cell_index(b, moves, c as usize);
            let k = choose|k: int| 0 <= k < moves.len() && moves[k] == c as usize;
            if k < j {
                assert(moves[k] < lo);
            } else {
                assert(j < moves.len());
                if k > j {
                    assert(moves[j] < moves[k]);
                }
            }
            assert(false);
        }
    }
}

impl GameState {
    /// The exhaustive strategy: full recursive search of the remaining
    /// game tree, maximizing for 'O' and minimizing for 'X', with ties
    /// broken in favour of the first cell tried.
    pub fn minimax(&self, is_maximizing: bool) -> (r: (i32, Option<usize>))
        requires
            self.wf(),
        ensures
            r.0 as int == minimax_value(self.board@, is_maximizing).0,
            r.1 == minimax_value(self.board@, is_maximizing).1,
        decreases empty_count(self.board@),
    {
        if let Some(winner) = self.check_winner() {
            return match winner {
                'X' => (-10, None),
                'O' => (10, None),
                _ => (0, None),
            };
        }

        if self.is_full() {
            return (0, None);
        }

        let mut best_score: i32 = if is_maximizing {
            i32::MIN
        } else {
            i32::MAX
        };
        let mut best_move: Option<usize> = None;
        let moves = self.available_moves();
        let ghost b = self.board@;
        let ghost init: int = if is_maximizing {
            i32::MIN as int
        } else {
            i32::MAX as int
        };

        proof {
            lemma_occupied_upto(b, moves@, 0, 0);
            lemma_search_skip(b, is_maximizing, 0, next_cell(moves@, 0), init, None);
        }

        let mut j: usize = 0;
        while j < moves.len()
            invariant
                j <= moves@.len(),
                self.wf(),
                b == self.board@,
                moves_list_ok(b, moves@),
                minimax_search(b, is_maximizing, 0, init, None) == minimax_search(
                    b,
                    is_maximizing,
                    next_cell(moves@, j as int),
                    best_score as int,
                    best_move,
                ),
            decreases moves@.len() - j,
        {
            let i = moves[j];
            assert(moves@[j as int] < 9 && b[moves@[j as int] as int] is None);
            let mark = if is_maximizing {
                'O'
            } else {
                'X'
            };
            let simulated_board = self.board_with(i, mark);
            let simulated_state = GameState {
                board: simulated_board,
                current_player: if is_maximizing {
                    'X'
                } else {
                    'O'
                },
                difficulty: self.difficulty,
            };
            proof {
                lemma_empties_from_update(b, i as int, mark, 0);
                lemma_empties_from_nonneg(b.update(i as int, Some(mark)), 0);
            }
            let (score, _chosen) = simulated_state.minimax(!is_maximizing);

            let ghost prev_best: int = best_score as int;
            let ghost prev_mv = best_move;
            if is_maximizing {
                if score > best_score {
                    best_score = score;
                    best_move = Some(i);
                }
            } else {
                if score < best_score {
                    best_score = score;
                    best_move = Some(i);
                }
            }
            proof {
                assert(minimax_search(b, is_maximizing, i as int, prev_best, prev_mv)
                    == minimax_search(b, is_maximizing, i as int + 1, best_score as int, best_move));
                assert forall|k: int| 0 <= k < j + 1 implies #[trigger] moves@[k] < i + 1 by {
                    if k < j as int {
                        assert(moves@[k] < moves@[j as int]);
                    }
                }
                lemma_occupied_upto(b, moves@, j as int + 1, i as int + 1);
                lemma_search_skip(
                    b,
                    is_maximizing,
                    i as int + 1,
                    next_cell(moves@, j as int + 1),
                    best_score as int,
                    best_move,
                );
            }
            j = j + 1;
        }
        (best_score, best_move)
    }
}

/// The search result is always a score in `[-10, 10]` with an empty cell
/// attached, except on a terminal board, where no cell is chosen.
proof fn lemma_minimax_props(b: Seq<Option<char>>, maximizing: bool)
    requires
        board_ok(b),
    ensures
        -10 <= minimax_value(b, maximizing).0 <= 10,
        spec_winner(b) is None && !board_full(b) ==> (minimax_value(b, maximizing).1 matches Some(
            c,
        ) && c < 9 && b[c as int] is None),
    decreases empty_count(b), 10int,
{
    if spec_winner(b) is None && !board_full(b) {
        lemma_search_props(
            b,
            maximizing,
            0,
            if maximizing {
                i32::MIN as int
            } else {
                i32::MAX as int
            },
            None,
        );
        let c0 = choose|c: int| 0 <= c < 9 && !(b[c] is Some);
        assert(b[c0] is None);
    }
}

/// How the fold keeps its running best: the result either is the running
/// pair untouched, or names an empty cell and a score in `[-10, 10]`; and
/// once a cell is in hand, or some empty cell remains to be scanned, the
/// result certainly names one.
proof fn lemma_search_props(
    b: Seq<Option<char>>,
    maximizing: bool,
    i: int,
    best: int,
    best_mv: Option<usize>,
)
    requires
        board_ok(b),
        0 <= i <= 9,
        best_mv matches Some(c) ==> c < 9 && b[c as int] is None && -10 <= best <= 10,
        best_mv is None ==> best == (if maximizing {
            i32::MIN as int
        } else {
            i32::MAX as int
        }),
    ensures
        ({
            let r = minimax_search(b, maximizing, i, best, best_mv);
            &&& r == (best, best_mv) || (r.1 matches Some(c) && c < 9 && b[c as int] is None && -10
                <= r.0 <= 10)
            &&& (best_mv is Some || (exists|c: int| i <= c < 9 && #[trigger] b[c] is None)) ==> (
            r.1 matches Some(c) && c < 9 && b[c as int] is None && -10 <= r.0 <= 10)
        }),
    decreases empty_count(b), 9 - i,
{
    if i < 9 {
        if b[i] is None {
            let m = if maximizing {
                'O'
            } else {
                'X'
            };
            let b2 = b.update(i, Some(m));
            assert(board_ok(b2));
            lemma_empties_from_update(b, i, m, 0);
            lemma_empties_from_nonneg(b2, 0);
            lemma_minimax_props(b2, !maximizing);
            let child = minimax_value(b2, !maximizing).0;
            if (maximizing && child > best) || (!maximizing && child < best) {
                lemma_search_props(b, maximizing, i + 1, child, Some(i as usize));
            } else {
                assert(best_mv is Some);
                lemma_search_props(b, maximizing, i + 1, best, best_mv);
            }
        } else {
            lemma_search_props(b, maximizing, i + 1, best, best_mv);
        }
    }
}

/// The score of the board after the mover fills cell `c`: the maximizer
/// places 'O', the minimizer places 'X', and the other side moves next.
pub open spec fn child_score(b: Seq<Option<char>>, maximizing: bool, c: int) -> int {
    minimax_value(
        b.update(c, Some(if maximizing {
            'O'
        } else {
            'X'
        })),
        !maximizing,
    ).0
}

/// `x` is no improvement on `y` for the mover: the maximizer wants
/// strictly greater scores, the minimizer strictly smaller ones.
pub open spec fn no_better(maximizing: bool, x: int, y: int) -> bool {
    if maximizing {
        x <= y
    } else {
        x >= y
    }
}

/// `x` is strictly worse than `y` for the mover.
pub open spec fn strictly_worse(maximizing: bool, x: int, y: int) -> bool {
    if maximizing {
        x < y
    } else {
        x > y
    }
}

/// The exhaustive search is a true optimum. On an undecided board with a
/// free cell it chooses an empty cell whose own evaluation equals the
/// returned score, no empty cell evaluates strictly better for the mover,
/// and every earlier empty cell evaluates strictly worse, so ties go to
/// the first cell tried.
pub proof fn lemma_minimax_optimal(b: Seq<Option<char>>, maximizing: bool)
    requires
        board_ok(b),
        spec_winner(b) is None,
        !board_full(b),
    ensures
        ({
            let r = minimax_value(b, maximizing);
            &&& (r.1 matches Some(c) && c < 9 && b[c as int] is None && child_score(
                b,
                maximizing,
                c as int,
            ) == r.0)
            &&& forall|c2: int|
                0 <= c2 < 9 && c2 != (r.1->0 as int) && b[c2] is None ==> no_better(
                    maximizing,
                    #[trigger] child_score(b, maximizing, c2),
                    r.0,
                )
            &&& forall|c2: int|
                0 <= c2 < (r.1->0 as int) && b[c2] is None ==> strictly_worse(
                    maximizing,
                    #[trigger] child_score(b, maximizing, c2),
                    r.0,
                )
        }),
{
    let c0 = choose|c: int| 0 <= c < 9 && !(b[c] is Some);
    assert(b[c0] is None);
    lemma_search_optimal(
        b,
        maximizing,
        0,
        if maximizing {
            i32::MIN as int
        } else {
            i32::MAX as int
        },
        None,
    );
}

/// The induction behind `lemma_minimax_optimal`: while the fold scans, the
/// running best is the strict optimum of the cells already tried, held by
/// the first cell that attained it.
proof fn lemma_search_optimal(
    b: Seq<Option<char>>,
    maximizing: bool,
    i: int,
    best: int,
    best_mv: Option<usize>,
)
    requires
        board_ok(b),
        0 <= i <= 9,
        best_mv matches Some(c) ==> {
            &&& c < 9 && (c as int) < i && b[c as int] is None
            &&& child_score(b, maximizing, c as int) == best
            &&& forall|c2: int|
                0 <= c2 < (c as int) && b[c2] is None ==> strictly_worse(
                    maximizing,
                    #[trigger] child_score(b, maximizing, c2),
                    best,
                )
            &&& forall|c2: int|
                (c as int) < c2 < i && b[c2] is None ==> no_better(
                    maximizing,
                    #[trigger] child_score(b, maximizing, c2),
                    best,
                )
        },
        best_mv is None ==> best == (if maximizing {
            i32::MIN as int
        } else {
            i32::MAX as int
        }) && (forall|c2: int| 0 <= c2 < i ==> !(#[trigger] b[c2] is None)),
    ensures
        ({
            let r = minimax_search(b, maximizing, i, best, best_mv);
            (best_mv is Some || (exists|c2: int| i <= c2 < 9 && #[trigger] b[c2] is None)) ==> {
                &&& (r.1 matches Some(c) && c < 9 && b[c as int] is None && child_score(
                    b,
                    maximizing,
                    c as int,
                ) == r.0)
                &&& forall|c2: int|
                    0 <= c2 < 9 && c2 != (r.1->0 as int) && b[c2] is None ==> no_better(
                        maximizing,
                        #[trigger] child_score(b, maximizing, c2),
                        r.0,
                    )
                &&& forall|c2: int|
                    0 <= c2 < (r.1->0 as int) && b[c2] is None ==> strictly_worse(
                        maximizing,
                        #[trigger] child_score(b, maximizing, c2),
                        r.0,
                    )
            }
        }),
    decreases 9 - i,
{
    if i < 9 {
        if b[i] is None {
            let m = if maximizing {
                'O'
            } else {
                'X'
            };
            let b2 = b.update(i, Some(m));
            assert(board_ok(b2));
            lemma_minimax_props(b2, !maximizing);
            let child = minimax_value(b2, !maximizing).0;
            assert(child == child_score(b, maximizing, i));
            if (maximizing && child > best) || (!maximizing && child < best) {
                lemma_search_optimal(b, maximizing, i + 1, child, Some(i as usize));
            } else {
                assert(best_mv is Some);
                lemma_search_optimal(b, maximizing, i + 1, best, best_mv);
            }
        } else {
            lemma_search_optimal(b, maximizing, i + 1, best, best_mv);
        }
    }
}

impl GameState {
    /// One computer turn for `player`: picks a cell by the configured
    /// strategy, places the mark there, and passes the turn to the other
    /// mark. The board must not be full, and the exhaustive strategy must
    /// not be asked to move on a board already won.
    pub fn ai_move(&mut self, player: char)
        requires
            old(self).wf(),
            is_mark(player),
            1 <= old(self).difficulty <= 3,
            !board_full(old(self).board@),
            old(self).difficulty == 3 ==> spec_winner(old(self).board@) is None,
        ensures
            final(self).wf(),
            final(self).difficulty == old(self).difficulty,
            final(self).current_player == other_mark(player),
            exists|i: int|
                {
                    &&& 0 <= i < 9
                    &&& old(self).board@[i] is None
                    &&& final(self).board@ == #[trigger] old(self).board@.update(i, Some(player))
                    &&& old(self).difficulty == 2 ==> heuristic_choice_ok(
                        old(self).board@,
                        player,
                        i,
                    )
                    &&& old(self).difficulty == 3 ==> minimax_value(old(self).board@, player == 'O').1
                        == Some(i as usize)
                },
    {
        let move_index: Option<usize> = match self.difficulty {
            1 => self.random_move(),
            2 => self.best_move(player),
            _ => {
                let is_maximizing = player == 'O';
                proof {
                    lemma_minimax_props(self.board@, is_maximizing);
                }
                let (_score, chosen) = self.minimax(is_maximizing);
                chosen
            },
        };

        let i = move_index.unwrap();
        self.board[i] = Some(player);
        self.current_player = if player == 'X' {
            'O'
        } else {
            'X'
        };
        proof {
            let w = i as int;
            assert(self.board@ == old(self).board@.update(w, Some(player)));
            assert(exists|i: int|
                {
                    &&& 0 <= i < 9
                    &&& old(self).board@[i] is None
                    &&& self.board@ == #[trigger] old(self).board@.update(i, Some(player))
                    &&& old(self).difficulty == 2 ==> heuristic_choice_ok(
                        old(self).board@,
                        player,
                        i,
                    )
                    &&& old(self).difficulty == 3 ==> minimax_value(old(self).board@, player == 'O').1
                        == Some(i as usize)
                });
        }
    }
}

/// When no listed empty cell before position `idx` wins for `m` and the
/// cell at `idx` does, that cell is the lowest-indexed winning cell.
proof fn lemma_first_listed_is_first(
    b: Seq<Option<char>>,
    moves: Seq<usize>,
    m: char,
    idx: int,
)
    requires
        moves_list_ok(b, moves),
        0 <= idx < moves.len(),
        would_win(b, m, moves[idx] as int),
        forall|k: int| 0 <= k < idx ==> !would_win(b, m, #[trigger] moves[k] as int),
    ensures
        first_winning_cell(b, m, moves[idx] as int),
        winning_cell_exists(b, m),
        !board_full(b),
{
    let i = moves[idx] as int;
    assert(moves[idx] < 9 && b[moves[idx] as int] is None);
    assert forall|j: int| 0 <= j < i && b[j] is None implies !would_win(b, m, j) by {
        lemma_empty_cell_index(b, moves, j as usize);
        let k = choose|k: int| 0 <= k < moves.len() && moves[k] == j as usize;
        if k >= idx {
            if k > idx {
                assert(moves[idx] < moves[k]);
            }
            assert(false);
        }
    }
    assert(0 <= i < 9 && b[i] is None && would_win(b, m, i));
}

/// When no listed empty cell wins for `m`, no empty cell does.
proof fn lemma_none_listed_means_none(b: Seq<Option<char>>, moves: Seq<usize>, m: char)
    requires
        moves_list_ok(b, moves),
        forall|k: int| 0 <= k < moves.len() ==> !would_win(b, m, #[trigger] moves[k] as int),
    ensures
        !winning_cell_exists(b, m),
{
    if winning_cell_exists(b, m) {
        let i = choose|i: int| 0 <= i < 9 && b[i] is None && would_win(b, m, i);
        lemma_empty_cell_index(b, moves, i as usize);
        let k = choose|k: int| 0 <= k < moves.len() && moves[k] == i as usize;
        assert(!would_win(b, m, moves[k] as int));
        assert(false);
    }
}

} // verus!
