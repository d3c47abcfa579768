//! The board model: nine cells, each empty or holding one of the two marks.

use vstd::prelude::*;

verus! {

/// The two marks a player can place.
pub open spec fn is_mark(c: char) -> bool {
    c == 'X' || c == 'O'
}

/// The mark belonging to the other player.
pub open spec fn other_mark(c: char) -> char {
    if c == 'X' {
        'O'
    } else {
        'X'
    }
}

/// A cell is empty or holds one of the two marks.
pub open spec fn cell_ok(c: Option<char>) -> bool {
    c matches Some(m) ==> is_mark(m)
}

/// A well-formed board: exactly nine cells, each empty or holding a mark.
pub open spec fn board_ok(b: Seq<Option<char>>) -> bool {
    &&& b.len() == 9
    &&& forall|i: int| 0 <= i < 9 ==> cell_ok(#[trigger] b[i])
}

/// A game in progress: the board, the mark whose turn it is, and the
/// strength of the computer opponent (1: random, 2: heuristic, 3: exhaustive).
#[derive(Debug, Clone)]
pub struct GameState {
    pub board: Vec<Option<char>>,
    pub current_player: char,
    pub difficulty: u8,
}

impl GameState {
    /// Well-formedness: nine valid cells and a valid mark to move.
    pub open spec fn wf(self) -> bool {
        &&& board_ok(self.board@)
        &&& is_mark(self.current_player)
    }

    /// Nine empty cells.
    pub(crate) fn empty_board() -> (board: Vec<Option<char>>)
        ensures
            board@.len() == 9,
            forall|i: int| 0 <= i < 9 ==> board@[i] is None,
    {
        let mut board: Vec<Option<char>> = Vec::new();
        let mut i: usize = 0;
        while i < 9
            invariant
                i <= 9,
                board@.len() == i,
                forall|j: int| 0 <= j < i ==> board@[j] is None,
            decreases 9 - i,
        {
            board.push(None);
            i = i + 1;
        }
        board
    }

    /// A fresh game on an empty board, with the first mark to move.
    pub fn with_difficulty(difficulty: u8) -> (g: GameState)
        ensures
            g.wf(),
            g.board@.len() == 9,
            forall|i: int| 0 <= i < 9 ==> g.board@[i] is None,
            g.current_player == 'X',
            g.difficulty == difficulty,
    {
        GameState { board: Self::empty_board(), current_player: 'X', difficulty }
    }

    /// A fresh game at the default (heuristic) opponent strength.
    pub fn new() -> (g: GameState)
        ensures
            g.wf(),
            g.board@.len() == 9,
            forall|i: int| 0 <= i < 9 ==> g.board@[i] is None,
            g.current_player == 'X',
            g.difficulty == 2,
    {
        Self::with_difficulty(2)
    }
}

impl GameState {
    /// Attempts a move for the mark whose turn it is, at a one-based
    /// position. A position outside `1..=9`, or one naming an occupied
    /// cell, is rejected and the game is left untouched; otherwise the
    /// mark is placed there and the turn passes to the other mark.
    pub fn try_play(&mut self, position: usize) -> (ok: bool)
        requires
            old(self).wf(),
        ensures
            final(self).wf(),
            final(self).difficulty == old(self).difficulty,
            ok <==> 1 <= position <= 9 && old(self).board@[position as int - 1] is None,
            ok ==> final(self).board@ == old(self).board@.update(
                position as int - 1,
                Some(old(self).current_player),
            ) && final(self).current_player == other_mark(old(self).current_player),
            !ok ==> *final(self) == *old(self),
    {
        if position >= 1 && position <= 9 && self.board[position - 1].is_none() {
            let mover = self.current_player;
            self.board[position - 1] = Some(mover);
            self.current_player = if mover == 'X' {
                'O'
            } else {
                'X'
            };
            true
        } else {
            false
        }
    }
}

/// The character a cell is rendered as: its mark, or a blank for empty.
pub open spec fn spec_symbol(square: Option<char>) -> char {
    match square {
        Some(c) => c,
        None => ' ',
    }
}

impl GameState {
    /// The character a cell is rendered as: its mark, or a blank for empty.
    pub fn symbol(square: Option<char>) -> (c: char)
        ensures
            c == spec_symbol(square),
    {
        match square {
            Some(c) => c,
            None => ' ',
        }
    }
}

} // verus!
