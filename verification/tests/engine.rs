use tictactoe::GameState;

#[test]
fn test_check_winner_row() {
    let mut game = GameState::new();
    game.board = vec![
        Some('X'),
        Some('X'),
        Some('X'),
        None,
        None,
        None,
        None,
        None,
        None,
    ];
    assert_eq!(game.check_winner(), Some('X'));
}

#[test]
fn test_check_winner_diagonal() {
    let mut game = GameState::new();
    game.board = vec![
        Some('O'),
        None,
        None,
        None,
        Some('O'),
        None,
        None,
        None,
        Some('O'),
    ];
    assert_eq!(game.check_winner(), Some('O'));
}

#[test]
fn test_no_winner() {
    let mut game = GameState::new();
    game.board = vec![
        Some('X'),
        Some('O'),
        Some('X'),
        None,
        Some('X'),
        None,
        None,
        None,
        Some('O'),
    ];
    assert_eq!(game.check_winner(), None);
}

#[test]
fn test_invalid_input() {
    let mut game = GameState::new();
    game.board = vec![None; 9];

    let input = "10";
    assert!(matches!(GameState::from_str(input), Err(_)));
}

#[test]
fn test_from_str_valid() {
    let input = "XOX____OX";
    let game = GameState::from_str(input).unwrap();
    assert_eq!(game.board[0], Some('X'));
    assert_eq!(game.board[8], Some('X'));
    assert_eq!(game.current_player, 'O');
}

#[test]
fn test_from_str_invalid_character() {
    let input = "XOQ____OX";
    assert!(GameState::from_str(input).is_err());
}

#[test]
fn test_from_str_empty() {
    let input = "_________";
    let game = GameState::from_str(input).unwrap();
    assert!(game.board.iter().all(|&sq| sq.is_none()));
    assert_eq!(game.current_player, 'X');
}

#[test]
fn test_best_move_winning() {
    let mut game = GameState::new();
    game.board = vec![
        Some('X'),
        Some('X'),
        None,
        None,
        None,
        None,
        None,
        None,
        None,
    ];
    assert_eq!(game.best_move('X'), Some(2));
}

#[test]
fn test_best_move_blocking() {
    let mut game = GameState::new();
    game.board = vec![
        Some('O'),
        Some('O'),
        None,
        None,
        None,
        None,
        None,
        None,
        None,
    ];
    assert_eq!(game.best_move('X'), Some(2));
}

#[test]
fn test_minimax_block() {
    let mut game = GameState::new();
    game.board = vec![
        Some('X'),
        None,
        Some('X'),
        Some('O'),
        None,
        None,
        None,
        None,
        None,
    ];
    let (score, i) = game.minimax(true);
    assert_eq!(score, -10);
    assert_eq!(i, Some(1));
}

#[test]
fn test_ai_draws() {
    let mut game = GameState::with_difficulty(3);

    loop {
        game.ai_move(game.current_player);

        assert_eq!(game.check_winner(), None);
        if game.available_moves().is_empty() {
            break;
        }
    }
}
