//! A verified 3x3 grid game engine with a computer opponent.
//!
//! The board holds nine cells, each empty or occupied by one of the two
//! marks `'X'` and `'O'`. The engine detects completed lines, enumerates
//! empty cells, and offers three opponent strategies of increasing
//! strength: uniform-random choice, a single-ply win/block heuristic, and
//! an exhaustive game-tree search.

mod game;
mod parse;
mod rules;
mod select;

pub use game::GameState;
pub use game::board_ok;
pub use game::is_mark;
pub use game::other_mark;
pub use game::spec_symbol;
pub use parse::ParseError;
pub use parse::cell_of;
pub use parse::inferred_player;
pub use parse::mark_count;
pub use parse::snapshot_ok;
pub use parse::trimmed;
pub use parse::valid_snapshot_char;
pub use rules::board_full;
pub use rules::empty_count;
pub use rules::has_win;
pub use rules::lemma_winner_characterization;
pub use rules::moves_list_ok;
pub use rules::spec_winner;
pub use rules::triple;
pub use rules::triple_won;
pub use select::child_score;
pub use select::first_winning_cell;
pub use select::heuristic_choice_ok;
pub use select::lemma_minimax_optimal;
pub use select::minimax_search;
pub use select::minimax_value;
pub use select::no_better;
pub use select::strictly_worse;
pub use select::winning_cell_exists;
pub use select::would_win;
