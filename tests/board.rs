use game_of_life::{safe, Board, Print, PrintChecker, ALIVE, DEAD};

#[test]
fn cell_has_correct_number_of_neighbours() {
    let mut board = Board::new(10, 10);
    board.turn_on(0, 1);
    board.turn_on(1, 1);
    board.turn_on(1, 0);
    assert_eq!(board.get_neighbours(0, 0), 3);
    assert_eq!(board.get_neighbours(5, 5), 0);
}

#[test]
fn cell_dies_with_fewer_than_two_neighbours() {
    let mut board = Board::new(10, 10);
    board.turn_on(0, 0);
    board.turn_on(0, 1);
    board.update();
    assert_eq!(board.is_on(0, 1), false);
}

#[test]
fn cell_lives_with_two_neighbours() {
    let mut board = Board::new(10, 10);
    board.turn_on(0, 0);
    board.turn_on(0, 1);
    board.turn_on(0, 2);
    board.update();
    assert!(board.is_on(0, 1));
}

#[test]
fn cell_dies_with_more_than_three_neighbours() {
    let mut board = Board::new(10, 10);
    board.turn_on(0, 0);
    board.turn_on(0, 1);
    board.turn_on(0, 2);
    board.turn_on(1, 0);
    board.turn_on(1, 1);
    board.update();
    assert!(board.is_off(1, 1));
}

#[test]
fn cell_lives_with_three_neighbours() {
    let mut board = Board::new(10, 10);
    board.turn_on(0, 0);
    board.turn_on(0, 1);
    board.turn_on(0, 2);
    board.turn_on(1, 1);
    board.update();
    assert!(board.is_on(0, 1));
}

#[test]
fn cell_turns_on_with_three_neighbours() {
    let mut board = Board::new(10, 10);
    board.turn_on(0, 0);
    board.turn_on(0, 1);
    board.turn_on(0, 2);
    board.update();
    assert!(board.is_on(1, 1));
}

#[test]
fn change_cell_to_alive() {
    let mut board = Board::new(10, 10);
    board.turn_on(0, 0);
    assert_eq!(board.is_on(0, 0), true);
}

#[test]
fn change_cell_to_dead() {
    let mut board = Board::new(10, 10);
    let r = 3;
    let c = 4;
    assert_eq!(board.is_off(r, c), true);
    board.turn_on(r, c);
    assert_eq!(board.is_off(r, c), false);
    assert_eq!(board.is_on(r, c), true);
    board.turn_off(r, c);
    assert_eq!(board.is_off(r, c), true);
}

#[test]
fn ensure_cells_do_not_match() {
    let mut board = Board::new(10, 10);

    {
        let r = 3;
        let c = 4;
        assert_eq!(board.is_off(r, c), true);
        board.turn_on(r, c);
        assert_eq!(board.is_off(r, c), false);
        assert_eq!(board.is_on(r, c), true);
    }

    {
        let r = 6;
        let c = 7;
        assert_eq!(board.is_off(r, c), true);
        board.turn_on(r, c);
        assert_eq!(board.is_off(r, c), false);
        assert_eq!(board.is_on(r, c), true);
    }
}

#[test]
fn board_initialized_off() {
    let board = Board::new(10, 10);
    for r in 0..10 {
        for c in 0..10 {
            assert_eq!(board.is_on(r, c), false);
        }
    }
}

#[test]
fn value_is_always_safe() {
    let safe_index_1 = safe(-1, 10);
    assert_eq!(safe_index_1, 9);
    let safe_index_2 = safe(11, 10);
    assert_eq!(safe_index_2, 1);
}

#[test]
fn board_is_printed() {
    let board = Board::new(5, 5);
    let mut print_checker = PrintChecker::new();
    board.print(&mut print_checker);

    assert_eq!(print_checker.characters.len(), 25);

    for &character in print_checker.characters.iter() {
        assert_eq!(character, '*');
    }
}

#[test]
fn fresh_board_is_dead_everywhere_on_a_rectangle() {
    let board = Board::new(3, 7);
    for r in 0..3 {
        for c in 0..7 {
            assert!(board.is_off(r, c));
            assert!(!board.is_on(r, c));
        }
    }
    assert_eq!(board.rows(), 3);
    assert_eq!(board.cols(), 7);
}

#[test]
fn set_alive_then_dead_flips_back_and_leaves_others() {
    let mut board = Board::new(4, 4);
    board.turn_on(2, 3);
    assert!(board.is_on(2, 3));
    assert!(board.is_off(2, 2));
    assert!(board.is_off(3, 3));
    board.turn_off(2, 3);
    assert!(board.is_off(2, 3));
    board.change(1, 1, true);
    assert!(board.is_on(1, 1));
    board.change(1, 1, false);
    assert!(board.is_off(1, 1));
}

#[test]
fn index_is_row_major() {
    let board = Board::new(4, 6);
    assert_eq!(board.index(0, 0), 0);
    assert_eq!(board.index(0, 5), 5);
    assert_eq!(board.index(1, 0), 6);
    assert_eq!(board.index(3, 5), 23);
}

#[test]
fn safe_wraps_one_step_past_either_edge() {
    assert_eq!(safe(-1, 1), 0);
    assert_eq!(safe(0, 10), 0);
    assert_eq!(safe(9, 10), 9);
    assert_eq!(safe(10, 10), 0);
    assert_eq!(safe(-5, 5), 0);
}

#[test]
fn opposite_rows_are_neighbours() {
    let mut board = Board::new(6, 5);
    board.turn_on(5, 2);
    assert_eq!(board.get_neighbours(0, 2), 1);
    assert_eq!(board.get_neighbours(0, 1), 1);
    assert_eq!(board.get_neighbours(0, 3), 1);
    assert_eq!(board.get_neighbours(0, 0), 0);
    let mut board = Board::new(6, 5);
    board.turn_on(0, 2);
    assert_eq!(board.get_neighbours(5, 2), 1);
}

#[test]
fn opposite_columns_are_neighbours() {
    let mut board = Board::new(5, 6);
    board.turn_on(2, 5);
    assert_eq!(board.get_neighbours(2, 0), 1);
    assert_eq!(board.get_neighbours(1, 0), 1);
    assert_eq!(board.get_neighbours(3, 0), 1);
    let mut board = Board::new(5, 6);
    board.turn_on(2, 0);
    assert_eq!(board.get_neighbours(2, 5), 1);
}

#[test]
fn corner_sees_all_three_wrapped_corners() {
    let mut board = Board::new(10, 10);
    board.turn_on(9, 9);
    board.turn_on(9, 0);
    board.turn_on(0, 9);
    assert_eq!(board.get_neighbours(0, 0), 3);
}

#[test]
fn full_board_counts_eight() {
    let mut board = Board::new(3, 3);
    for r in 0..3 {
        for c in 0..3 {
            board.turn_on(r, c);
        }
    }
    assert_eq!(board.get_neighbours(1, 1), 8);
    assert_eq!(board.get_neighbours(0, 0), 8);
}

#[test]
fn small_board_counts_a_cell_once_per_offset() {
    let mut board = Board::new(1, 1);
    board.turn_on(0, 0);
    assert_eq!(board.get_neighbours(0, 0), 8);
    let mut board = Board::new(2, 2);
    board.turn_on(1, 1);
    assert_eq!(board.get_neighbours(0, 0), 4);
}

#[test]
fn queries_repeat_without_change() {
    let mut board = Board::new(10, 10);
    board.turn_on(0, 1);
    board.turn_on(1, 1);
    board.turn_on(1, 0);
    for _ in 0..5 {
        assert_eq!(board.get_neighbours(0, 0), 3);
        assert!(board.is_on(1, 1));
        assert!(board.is_off(0, 0));
    }
}

#[test]
fn blinker_oscillates() {
    let mut board = Board::new(5, 5);
    board.turn_on(2, 1);
    board.turn_on(2, 2);
    board.turn_on(2, 3);
    board.update();
    for r in 0..5 {
        for c in 0..5 {
            assert_eq!(board.is_on(r, c), c == 2 && (1..=3).contains(&r));
        }
    }
    board.update();
    for r in 0..5 {
        for c in 0..5 {
            assert_eq!(board.is_on(r, c), r == 2 && (1..=3).contains(&c));
        }
    }
}

#[test]
fn block_is_still() {
    let mut board = Board::new(6, 6);
    board.turn_on(2, 2);
    board.turn_on(2, 3);
    board.turn_on(3, 2);
    board.turn_on(3, 3);
    board.update();
    for r in 0..6 {
        for c in 0..6 {
            assert_eq!(board.is_on(r, c), (2..=3).contains(&r) && (2..=3).contains(&c));
        }
    }
}

#[test]
fn update_reads_the_previous_generation() {
    // A row of three across the wrapped edge turns into a column of three.
    let mut board = Board::new(5, 5);
    board.turn_on(0, 4);
    board.turn_on(0, 0);
    board.turn_on(0, 1);
    board.update();
    assert!(board.is_on(4, 0));
    assert!(board.is_on(0, 0));
    assert!(board.is_on(1, 0));
    assert!(board.is_off(0, 4));
    assert!(board.is_off(0, 1));
}

#[test]
fn dead_cell_with_four_neighbours_stays_dead() {
    let mut board = Board::new(10, 10);
    board.turn_on(0, 0);
    board.turn_on(0, 2);
    board.turn_on(2, 0);
    board.turn_on(2, 2);
    board.update();
    assert!(board.is_off(1, 1));
}

#[test]
fn glyphs_follow_row_major_order() {
    let mut board = Board::new(2, 3);
    board.turn_on(0, 1);
    board.turn_on(1, 2);
    assert_eq!(board.glyphs(), vec!['*', '@', '*', '*', '*', '@']);
    let fresh = Board::new(4, 5);
    let glyphs = fresh.glyphs();
    assert_eq!(glyphs.len(), 20);
    assert!(glyphs.iter().all(|&g| g == DEAD));
}

struct RowRecorder {
    rows: Vec<String>,
    current: String,
}

impl Print for RowRecorder {
    fn print_char(&mut self, character: char) {
        self.current.push(character);
    }

    fn end_row(&mut self) {
        self.rows.push(std::mem::take(&mut self.current));
    }
}

#[test]
fn print_ends_each_row() {
    let mut board = Board::new(3, 2);
    board.turn_on(1, 0);
    board.turn_on(2, 1);
    let mut recorder = RowRecorder { rows: Vec::new(), current: String::new() };
    board.print(&mut recorder);
    assert_eq!(recorder.rows, vec!["**", "@*", "*@"]);
    assert!(recorder.current.is_empty());
    let mut checker = PrintChecker::new();
    board.print(&mut checker);
    assert_eq!(checker.characters, board.glyphs());
    assert!(board.is_on(1, 0));
}

#[test]
fn glyph_constants_differ() {
    assert_eq!(game_of_life::cell_glyph(true), ALIVE);
    assert_eq!(game_of_life::cell_glyph(false), DEAD);
    assert_ne!(ALIVE, DEAD);
}

#[test]
fn safe_takes_the_largest_coordinate() {
    assert_eq!(safe(i64::MAX, 10), 7);
    assert_eq!(safe(i64::MAX - 1, i64::MAX), i64::MAX - 1);
    assert_eq!(safe(-1, i64::MAX), i64::MAX - 1);
}

#[test]
fn print_appends_after_what_was_received() {
    let mut board = Board::new(2, 2);
    board.turn_on(1, 1);
    let mut checker = PrintChecker::new();
    checker.print_char('x');
    checker.end_row();
    assert_eq!(checker.characters, vec!['x']);
    board.print(&mut checker);
    assert_eq!(checker.characters, vec!['x', '*', '*', '*', '@']);
}
