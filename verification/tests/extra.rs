use tictactoe::GameState;
use tictactoe::ParseError;

#[test]
fn test_check_winner_column() {
    let mut game = GameState::new();
    game.board = vec![
        None,
        Some('O'),
        None,
        None,
        Some('O'),
        None,
        None,
        Some('O'),
        None,
    ];
    assert_eq!(game.check_winner(), Some('O'));
}

#[test]
fn test_check_winner_anti_diagonal() {
    let mut game = GameState::new();
    game.board = vec![
        None,
        None,
        Some('X'),
        None,
        Some('X'),
        None,
        Some('X'),
        None,
        None,
    ];
    assert_eq!(game.check_winner(), Some('X'));
}

#[test]
fn test_check_winner_empty_board() {
    let game = GameState::new();
    assert_eq!(game.check_winner(), None);
}

#[test]
fn test_available_moves_exact() {
    let mut game = GameState::new();
    game.board = vec![
        Some('X'),
        None,
        Some('O'),
        None,
        Some('X'),
        None,
        None,
        Some('O'),
        None,
    ];
    assert_eq!(game.available_moves(), vec![1, 3, 5, 6, 8]);
}

#[test]
fn test_available_moves_empty_board() {
    let game = GameState::new();
    assert_eq!(game.available_moves(), vec![0, 1, 2, 3, 4, 5, 6, 7, 8]);
}

#[test]
fn test_available_moves_full_board() {
    let mut game = GameState::new();
    game.board = vec![
        Some('X'),
        Some('O'),
        Some('X'),
        Some('O'),
        Some('X'),
        Some('O'),
        Some('X'),
        Some('O'),
        Some('X'),
    ];
    assert!(game.available_moves().is_empty());
}

#[test]
fn test_random_move_membership() {
    let mut game = GameState::new();
    game.board = vec![
        Some('X'),
        None,
        Some('O'),
        None,
        Some('X'),
        None,
        None,
        Some('O'),
        None,
    ];
    for _ in 0..50 {
        let i = game.random_move().unwrap();
        assert!(game.board[i].is_none());
    }
}

#[test]
fn test_random_move_single_cell() {
    let mut game = GameState::new();
    game.board = vec![
        Some('X'),
        Some('O'),
        Some('X'),
        Some('O'),
        Some('X'),
        Some('O'),
        Some('X'),
        None,
        Some('X'),
    ];
    for _ in 0..10 {
        assert_eq!(game.random_move(), Some(7));
    }
}

#[test]
fn test_random_move_full_board() {
    let mut game = GameState::new();
    game.board = vec![
        Some('X'),
        Some('O'),
        Some('X'),
        Some('O'),
        Some('X'),
        Some('O'),
        Some('X'),
        Some('O'),
        Some('X'),
    ];
    assert_eq!(game.random_move(), None);
}

#[test]
fn test_would_move_win() {
    let mut game = GameState::new();
    game.board = vec![
        Some('X'),
        Some('X'),
        None,
        None,
        None,
        None,
        None,
        None,
        None,
    ];
    assert!(game.would_move_win('X', 2));
    assert!(!game.would_move_win('O', 2));
    assert!(!game.would_move_win('X', 4));
}

#[test]
fn test_best_move_fallback_is_empty_cell() {
    let mut game = GameState::new();
    game.board = vec![
        Some('X'),
        None,
        None,
        None,
        Some('O'),
        None,
        None,
        None,
        None,
    ];
    let i = game.best_move('X').unwrap();
    assert!(game.board[i].is_none());
}

#[test]
fn test_best_move_full_board() {
    let mut game = GameState::new();
    game.board = vec![
        Some('X'),
        Some('O'),
        Some('X'),
        Some('O'),
        Some('X'),
        Some('O'),
        Some('X'),
        Some('O'),
        Some('X'),
    ];
    assert_eq!(game.best_move('O'), None);
}

#[test]
fn test_minimax_winning_move() {
    let mut game = GameState::new();
    game.board = vec![
        Some('O'),
        Some('O'),
        None,
        Some('X'),
        Some('X'),
        None,
        None,
        None,
        None,
    ];
    let (score, i) = game.minimax(true);
    assert_eq!(score, 10);
    assert_eq!(i, Some(2));
}

#[test]
fn test_ai_move_heuristic_takes_win() {
    let mut game = GameState::with_difficulty(2);
    game.board = vec![
        Some('X'),
        Some('X'),
        None,
        None,
        None,
        None,
        None,
        None,
        None,
    ];
    game.ai_move('X');
    assert_eq!(game.board[2], Some('X'));
    assert_eq!(game.current_player, 'O');
}

#[test]
fn test_ai_move_exhaustive_blocks() {
    let mut game = GameState::with_difficulty(3);
    game.board = vec![
        Some('X'),
        None,
        Some('X'),
        Some('O'),
        None,
        None,
        None,
        None,
        None,
    ];
    game.ai_move('O');
    assert_eq!(game.board[1], Some('O'));
    assert_eq!(game.current_player, 'X');
}

#[test]
fn test_ai_move_random_places_mark() {
    let mut game = GameState::with_difficulty(1);
    game.ai_move('X');
    let placed = game.board.iter().filter(|sq| sq.is_some()).count();
    assert_eq!(placed, 1);
    assert_eq!(game.current_player, 'O');
}

#[test]
fn test_try_play_valid() {
    let mut game = GameState::new();
    assert!(game.try_play(5));
    assert_eq!(game.board[4], Some('X'));
    assert_eq!(game.current_player, 'O');
}

#[test]
fn test_try_play_occupied() {
    let mut game = GameState::new();
    assert!(game.try_play(1));
    assert!(!game.try_play(1));
    assert_eq!(game.board[0], Some('X'));
    assert_eq!(game.current_player, 'O');
}

#[test]
fn test_try_play_out_of_range() {
    let mut game = GameState::new();
    assert!(!game.try_play(0));
    assert!(!game.try_play(10));
    assert!(game.board.iter().all(|&sq| sq.is_none()));
    assert_eq!(game.current_player, 'X');
}

#[test]
fn test_symbol() {
    assert_eq!(GameState::symbol(Some('X')), 'X');
    assert_eq!(GameState::symbol(Some('O')), 'O');
    assert_eq!(GameState::symbol(None), ' ');
}

#[test]
fn test_with_difficulty_fields() {
    let game = GameState::with_difficulty(3);
    assert_eq!(game.difficulty, 3);
    assert_eq!(game.current_player, 'X');
    assert_eq!(game.board.len(), 9);
    assert!(game.board.iter().all(|&sq| sq.is_none()));
}

#[test]
fn test_new_defaults_to_heuristic() {
    let game = GameState::new();
    assert_eq!(game.difficulty, 2);
}

#[test]
fn test_from_str_too_long() {
    let input = "XOXOXOXOXO";
    assert_eq!(GameState::from_str(input).unwrap_err(), ParseError::TooLong);
}

#[test]
fn test_from_str_invalid_character_typed() {
    let input = "XOQ____OX";
    assert_eq!(
        GameState::from_str(input).unwrap_err(),
        ParseError::InvalidCharacter
    );
}

#[test]
fn test_from_str_trims_whitespace() {
    let input = " XOX____OX \n";
    let game = GameState::from_str(input).unwrap();
    assert_eq!(game.board[0], Some('X'));
    assert_eq!(game.board[1], Some('O'));
    assert_eq!(game.board[8], Some('X'));
    assert_eq!(game.current_player, 'O');
}

#[test]
fn test_from_str_short_input() {
    let input = "XOX";
    let game = GameState::from_str(input).unwrap();
    assert_eq!(game.board[0], Some('X'));
    assert_eq!(game.board[1], Some('O'));
    assert_eq!(game.board[2], Some('X'));
    assert!(game.board[3..].iter().all(|&sq| sq.is_none()));
    assert_eq!(game.current_player, 'O');
    assert_eq!(game.difficulty, 1);
}

#[test]
fn test_from_str_blank_input() {
    let game = GameState::from_str("").unwrap();
    assert!(game.board.iter().all(|&sq| sq.is_none()));
    assert_eq!(game.current_player, 'X');
}
