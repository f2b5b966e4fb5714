use nim::display::GameDisplay;
use nim::nim::NimGame;
use nim::selection::{Key, Step};

fn full_board() -> (NimGame, GameDisplay) {
    let game = NimGame::new(vec![1, 3, 5, 7]);
    let mut display = GameDisplay::new(&game);
    display.start_selection(&game);
    (game, display)
}

#[test]
fn selection_starts_on_the_first_row_with_one_object() {
    let (game, display) = full_board();
    assert_eq!(display.highlighted_move, (0, 1));
    assert!(display.has_valid_selection(&game));
}

#[test]
fn selection_starts_on_the_first_row_that_holds_objects() {
    let mut game = NimGame::new(vec![1, 3, 5, 7]);
    assert!(game.apply_move((0, 1)));
    assert!(game.apply_move((1, 3)));
    let mut display = GameDisplay::new(&game);
    display.highlighted_move = (3, 4);
    display.start_selection(&game);
    assert_eq!(display.highlighted_move, (2, 1));
}

#[test]
fn previous_row_from_the_first_wraps_to_the_last() {
    let (game, mut display) = full_board();
    display.move_selection_up(&game);
    assert_eq!(display.highlighted_move, (3, 1));
}

#[test]
fn previous_row_from_the_first_wraps_to_the_last_that_holds_objects() {
    let mut game = NimGame::new(vec![1, 3, 5, 7]);
    assert!(game.apply_move((3, 7)));
    let mut display = GameDisplay::new(&game);
    display.start_selection(&game);
    display.move_selection_up(&game);
    assert_eq!(display.highlighted_move, (2, 1));
}

#[test]
fn previous_row_skips_empty_rows() {
    let mut game = NimGame::new(vec![1, 3, 5, 7]);
    assert!(game.apply_move((1, 3)));
    assert!(game.apply_move((2, 5)));
    let mut display = GameDisplay::new(&game);
    display.highlighted_move = (3, 2);
    display.move_selection_up(&game);
    assert_eq!(display.highlighted_move, (0, 1));
}

#[test]
fn next_row_goes_down_and_wraps_to_the_first() {
    let (game, mut display) = full_board();
    display.move_selection_down(&game);
    assert_eq!(display.highlighted_move, (1, 1));
    display.move_selection_down(&game);
    display.move_selection_down(&game);
    assert_eq!(display.highlighted_move, (3, 1));
    display.move_selection_down(&game);
    assert_eq!(display.highlighted_move, (0, 1));
}

#[test]
fn next_row_skips_empty_rows() {
    let mut game = NimGame::new(vec![1, 3, 5, 7]);
    assert!(game.apply_move((0, 1)));
    assert!(game.apply_move((3, 7)));
    let mut display = GameDisplay::new(&game);
    display.highlighted_move = (2, 3);
    display.move_selection_down(&game);
    assert_eq!(display.highlighted_move, (1, 1));
}

#[test]
fn row_change_comes_back_to_the_only_row_that_holds_objects() {
    let game = NimGame::new(vec![0, 0, 3, 0]);
    let mut display = GameDisplay::new(&game);
    display.start_selection(&game);
    assert_eq!(display.highlighted_move, (2, 1));
    display.move_selection_left(&game);
    assert_eq!(display.highlighted_move, (2, 2));
    display.move_selection_up(&game);
    assert_eq!(display.highlighted_move, (2, 1));
    display.move_selection_left(&game);
    display.move_selection_down(&game);
    assert_eq!(display.highlighted_move, (2, 1));
}

#[test]
fn row_change_on_a_board_of_one_row_resets_the_count() {
    let game = NimGame::new(vec![4]);
    let mut display = GameDisplay::new(&game);
    display.highlighted_move = (0, 3);
    display.move_selection_up(&game);
    assert_eq!(display.highlighted_move, (0, 1));
    display.highlighted_move = (0, 3);
    display.move_selection_down(&game);
    assert_eq!(display.highlighted_move, (0, 1));
}

#[test]
fn count_grows_to_what_the_row_holds_and_no_further() {
    let (game, mut display) = full_board();
    display.move_selection_down(&game);
    assert_eq!(display.highlighted_move, (1, 1));
    display.move_selection_left(&game);
    assert_eq!(display.highlighted_move, (1, 2));
    display.move_selection_left(&game);
    assert_eq!(display.highlighted_move, (1, 3));
    display.move_selection_left(&game);
    assert_eq!(display.highlighted_move, (1, 3));
    for _ in 0..300 {
        display.move_selection_left(&game);
        assert!(display.highlighted_move.1 <= game.rows[1]);
    }
    assert_eq!(display.highlighted_move, (1, 3));
}

#[test]
fn count_on_a_row_of_one_stays_one() {
    let (game, mut display) = full_board();
    display.move_selection_left(&game);
    assert_eq!(display.highlighted_move, (0, 1));
}

#[test]
fn count_shrinks_to_one_and_no_further() {
    let (game, mut display) = full_board();
    display.highlighted_move = (3, 3);
    display.move_selection_right();
    assert_eq!(display.highlighted_move, (3, 2));
    display.move_selection_right();
    assert_eq!(display.highlighted_move, (3, 1));
    display.move_selection_right();
    assert_eq!(display.highlighted_move, (3, 1));
    assert!(display.has_valid_selection(&game));
}

#[test]
fn count_that_is_too_high_is_cut_to_what_the_row_holds() {
    let game = NimGame::new(vec![1, 3, 5, 7]);
    let mut display = GameDisplay::new(&game);
    display.highlighted_move = (1, 200);
    display.move_selection_left(&game);
    assert_eq!(display.highlighted_move, (1, 3));
}

#[test]
fn count_of_zero_becomes_one() {
    let game = NimGame::new(vec![1, 3, 5, 7]);
    let mut display = GameDisplay::new(&game);
    display.highlighted_move = (1, 0);
    display.move_selection_right();
    assert_eq!(display.highlighted_move, (1, 1));
}

#[test]
fn validity_of_the_selection_is_legality_of_the_candidate() {
    let game = NimGame::new(vec![1, 0, 5, 7]);
    let mut display = GameDisplay::new(&game);
    display.highlighted_move = (2, 5);
    assert!(display.has_valid_selection(&game));
    display.highlighted_move = (2, 6);
    assert!(!display.has_valid_selection(&game));
    display.highlighted_move = (2, 0);
    assert!(!display.has_valid_selection(&game));
    display.highlighted_move = (1, 1);
    assert!(!display.has_valid_selection(&game));
    display.highlighted_move = (4, 1);
    assert!(!display.has_valid_selection(&game));
}

#[test]
fn enter_commits_the_candidate() {
    let (game, mut display) = full_board();
    assert_eq!(display.handle_key(&game, Key::Enter), Step::Commit((0, 1)));
    assert_eq!(display.highlighted_move, (0, 1));
}

#[test]
fn esc_cancels_the_turn() {
    let (game, mut display) = full_board();
    assert_eq!(display.handle_key(&game, Key::Esc), Step::Cancel);
    assert_eq!(display.highlighted_move, (0, 1));
}

#[test]
fn other_keys_change_nothing() {
    let (game, mut display) = full_board();
    assert_eq!(display.handle_key(&game, Key::Other), Step::Wait);
    assert_eq!(display.highlighted_move, (0, 1));
}

#[test]
fn direction_keys_steer_the_candidate() {
    let (game, mut display) = full_board();
    assert_eq!(display.handle_key(&game, Key::Up), Step::Redraw);
    assert_eq!(display.highlighted_move, (3, 1));
    assert_eq!(display.handle_key(&game, Key::Left), Step::Redraw);
    assert_eq!(display.handle_key(&game, Key::Left), Step::Redraw);
    assert_eq!(display.highlighted_move, (3, 3));
    assert_eq!(display.handle_key(&game, Key::Right), Step::Redraw);
    assert_eq!(display.highlighted_move, (3, 2));
    assert_eq!(display.handle_key(&game, Key::Down), Step::Redraw);
    assert_eq!(display.highlighted_move, (0, 1));
    assert_eq!(display.handle_key(&game, Key::Down), Step::Redraw);
    assert_eq!(display.handle_key(&game, Key::Left), Step::Redraw);
    assert_eq!(display.handle_key(&game, Key::Enter), Step::Commit((1, 2)));
}

#[test]
fn keys_leave_width_and_last_move_alone() {
    let (game, mut display) = full_board();
    display.last_move = Some((2, 4));
    for key in [Key::Up, Key::Left, Key::Down, Key::Right, Key::Other, Key::Enter, Key::Esc] {
        display.handle_key(&game, key);
        assert_eq!(display.width, 7);
        assert_eq!(display.last_move, Some((2, 4)));
    }
}

#[test]
fn committed_move_is_always_legal() {
    let keys = [Key::Up, Key::Left, Key::Left, Key::Down, Key::Down, Key::Left, Key::Right,
        Key::Right, Key::Up, Key::Up, Key::Left, Key::Other, Key::Down];
    let mut game = NimGame::new(vec![1, 3, 5, 7]);
    let mut display = GameDisplay::new(&game);
    for start in 0..keys.len() {
        if !game.has_objects() {
            break;
        }
        display.start_selection(&game);
        for key in keys.iter().skip(start) {
            assert_eq!(display.handle_key(&game, *key) == Step::Wait, *key == Key::Other);
            assert!(display.has_valid_selection(&game));
        }
        match display.handle_key(&game, Key::Enter) {
            Step::Commit(m) => assert!(game.apply_move(m)),
            _ => panic!("Enter commits"),
        }
    }
}
