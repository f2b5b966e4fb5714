use nim::display::{GameDisplay, RowLayout};
use nim::nim::NimGame;

#[test]
fn display_is_as_wide_as_the_longest_starting_row() {
    let display = GameDisplay::new(&NimGame::new(vec![1, 3, 5, 7]));
    assert_eq!(display.width, 7);
    assert_eq!(display.last_move, None);
    assert_eq!(display.highlighted_move, (0, 1));
    assert_eq!(GameDisplay::new(&NimGame::new(vec![255, 3])).width, 255);
    assert_eq!(GameDisplay::new(&NimGame::new(vec![0])).width, 0);
}

#[test]
fn display_width_stays_when_rows_get_shorter() {
    let mut game = NimGame::new(vec![1, 3, 5, 7]);
    assert!(game.apply_move((3, 6)));
    assert_eq!(GameDisplay::new(&game).width, 7);
}

#[test]
fn fresh_board_shows_full_rows_centred() {
    let game = NimGame::new(vec![1, 3, 5, 7]);
    let display = GameDisplay::new(&game);
    assert!(display.can_display(&game, false));
    let lines = display.layout(&game, false);
    let expected: Vec<RowLayout> = [(6u16, 1u8), (4, 3), (2, 5), (0, 7)]
        .iter()
        .map(|(left_padding, remaining)| RowLayout {
            left_padding: *left_padding,
            remaining: *remaining,
            candidate: 0,
            last_taken: 0,
            taken_earlier: 0,
        })
        .collect();
    assert_eq!(lines, expected);
}

#[test]
fn candidate_is_shown_only_when_highlighted() {
    let game = NimGame::new(vec![1, 3, 5, 7]);
    let mut display = GameDisplay::new(&game);
    display.highlighted_move = (2, 4);
    assert_eq!(
        display.row_layout(&game, 2, true),
        RowLayout { left_padding: 2, remaining: 1, candidate: 4, last_taken: 0, taken_earlier: 0 }
    );
    assert_eq!(
        display.row_layout(&game, 2, false),
        RowLayout { left_padding: 2, remaining: 5, candidate: 0, last_taken: 0, taken_earlier: 0 }
    );
    assert_eq!(
        display.row_layout(&game, 3, true),
        RowLayout { left_padding: 0, remaining: 7, candidate: 0, last_taken: 0, taken_earlier: 0 }
    );
}

#[test]
fn last_move_is_told_apart_from_earlier_moves() {
    let mut game = NimGame::new(vec![1, 3, 5, 7]);
    let mut display = GameDisplay::new(&game);
    assert!(game.apply_move((3, 2)));
    assert!(game.apply_move((3, 3)));
    display.last_move = Some((3, 3));
    display.highlighted_move = (3, 1);
    assert!(display.can_display(&game, true));
    assert_eq!(
        display.row_layout(&game, 3, true),
        RowLayout { left_padding: 0, remaining: 1, candidate: 1, last_taken: 3, taken_earlier: 2 }
    );
    assert_eq!(
        display.row_layout(&game, 1, true),
        RowLayout { left_padding: 4, remaining: 3, candidate: 0, last_taken: 0, taken_earlier: 0 }
    );
}

#[test]
fn layout_accounts_for_every_object() {
    let mut game = NimGame::new(vec![4, 9, 2, 6]);
    let mut display = GameDisplay::new(&game);
    assert!(game.apply_move((1, 4)));
    assert!(game.apply_move((3, 1)));
    assert!(game.apply_move((1, 2)));
    display.last_move = Some((1, 2));
    display.highlighted_move = (1, 3);
    for highlighted in [false, true] {
        assert!(display.can_display(&game, highlighted));
        let lines = display.layout(&game, highlighted);
        assert_eq!(lines.len(), 4);
        for (row, line) in lines.iter().enumerate() {
            assert_eq!(*line, display.row_layout(&game, row, highlighted));
            assert_eq!(line.remaining + line.candidate, game.rows[row]);
            assert_eq!(
                line.remaining + line.candidate + line.last_taken + line.taken_earlier,
                game.initial[row]
            );
            assert_eq!(line.left_padding + game.initial[row] as u16, display.width);
        }
    }
}

#[test]
fn board_that_cannot_be_drawn_is_told() {
    let mut game = NimGame::new(vec![1, 3, 5, 7]);
    let mut display = GameDisplay::new(&game);
    display.highlighted_move = (1, 4);
    assert!(!display.can_display(&game, true));
    assert!(display.can_display(&game, false));
    display.highlighted_move = (1, 3);
    assert!(display.can_display(&game, true));
    display.last_move = Some((2, 1));
    assert!(!display.can_display(&game, true));
    assert!(game.apply_move((2, 1)));
    assert!(display.can_display(&game, true));
    display.last_move = Some((9, 1));
    assert!(display.can_display(&game, true));
    display.width = 6;
    assert!(!display.can_display(&game, true));
    display.width = 7;
    game.rows = vec![1, 3, 5];
    assert!(!display.can_display(&game, false));
}
