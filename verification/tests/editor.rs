use accepted::{get_rows, Core, Cursor, Viewport};

const VIEW: Viewport = Viewport { rows: 24, cols: 80 };

fn lines(text: &[&str]) -> Vec<Vec<char>> {
    text.iter().map(|line| line.chars().collect()).collect()
}

fn editor(text: &[&str], row: usize, col: usize) -> Core {
    Core { buffer: lines(text), cursor: Cursor { row, col }, row_offset: 0 }
}

#[test]
fn new_is_one_empty_line_with_the_cursor_at_the_origin() {
    let core = Core::new();
    assert_eq!(core.buffer, vec![Vec::<char>::new()]);
    assert_eq!(core.cursor, Cursor { row: 0, col: 0 });
    assert_eq!(core.row_offset, 0);
}

#[test]
fn typing_hello_world_at_ten_columns_wraps_into_two_rows() {
    let view = Viewport { rows: 24, cols: 10 };
    let mut core = Core::new();
    for c in "hello world".chars() {
        core.insert(c, view);
    }
    assert_eq!(core.buffer, lines(&["hello world"]));
    assert_eq!(core.cursor, Cursor { row: 0, col: 11 });
    assert_eq!(core.row_offset, 0);
    assert_eq!(get_rows(&core.buffer[0], view.cols), 2);
}

#[test]
fn backspace_at_line_start_joins_the_line_to_the_one_above() {
    let mut core = editor(&["abc", "def"], 1, 0);
    core.backspase(VIEW);
    assert_eq!(core.buffer, lines(&["abcdef"]));
    assert_eq!(core.cursor, Cursor { row: 0, col: 3 });
}

#[test]
fn line_break_splits_the_line_at_the_cursor() {
    let mut core = editor(&["ab"], 0, 1);
    core.insert('\n', VIEW);
    assert_eq!(core.buffer, lines(&["a", "b"]));
    assert_eq!(core.cursor, Cursor { row: 1, col: 0 });
}

#[test]
fn line_break_at_the_ends_of_a_line_leaves_an_empty_half() {
    let mut core = editor(&["ab", "cd"], 0, 0);
    core.insert('\n', VIEW);
    assert_eq!(core.buffer, lines(&["", "ab", "cd"]));
    assert_eq!(core.cursor, Cursor { row: 1, col: 0 });
    let mut core = editor(&["ab", "cd"], 0, 2);
    core.insert('\n', VIEW);
    assert_eq!(core.buffer, lines(&["ab", "", "cd"]));
    assert_eq!(core.cursor, Cursor { row: 1, col: 0 });
}

#[test]
fn insert_puts_the_character_before_the_cursor_position() {
    let mut core = editor(&["ac"], 0, 1);
    core.insert('b', VIEW);
    assert_eq!(core.buffer, lines(&["abc"]));
    assert_eq!(core.cursor, Cursor { row: 0, col: 2 });
}

#[test]
fn insert_then_backspace_restores_text_and_cursor() {
    let text = ["", "abc", "de"];
    for row in 0..text.len() {
        for col in 0..=text[row].chars().count() {
            let mut core = editor(&text, row, col);
            core.insert('x', VIEW);
            core.backspase(VIEW);
            assert_eq!(core.buffer, lines(&text));
            assert_eq!(core.cursor, Cursor { row, col });
        }
    }
}

#[test]
fn line_break_then_backspace_restores_text_and_cursor() {
    let text = ["", "abc", "de"];
    for row in 0..text.len() {
        for col in 0..=text[row].chars().count() {
            let mut core = editor(&text, row, col);
            core.insert('\n', VIEW);
            assert_eq!(core.cursor, Cursor { row: row + 1, col: 0 });
            assert_eq!(core.buffer.len(), text.len() + 1);
            core.backspase(VIEW);
            assert_eq!(core.buffer, lines(&text));
            assert_eq!(core.cursor, Cursor { row, col });
        }
    }
}

#[test]
fn backspace_removes_the_character_before_the_cursor() {
    let mut core = editor(&["abc"], 0, 2);
    core.backspase(VIEW);
    assert_eq!(core.buffer, lines(&["ac"]));
    assert_eq!(core.cursor, Cursor { row: 0, col: 1 });
}

#[test]
fn backspace_at_the_origin_changes_nothing() {
    let mut core = editor(&["abc", "def"], 0, 0);
    core.backspase(VIEW);
    assert_eq!(core.buffer, lines(&["abc", "def"]));
    assert_eq!(core.cursor, Cursor { row: 0, col: 0 });
    assert_eq!(core.row_offset, 0);
}

#[test]
fn cursor_left_stops_at_the_start_of_the_line() {
    let mut core = editor(&["ab", "cd"], 1, 1);
    core.cursor_left(VIEW);
    assert_eq!(core.cursor, Cursor { row: 1, col: 0 });
    core.cursor_left(VIEW);
    assert_eq!(core.cursor, Cursor { row: 1, col: 0 });
}

#[test]
fn cursor_right_stops_at_the_end_of_the_line() {
    let mut core = editor(&["ab", "cd"], 0, 1);
    core.cursor_right(VIEW);
    assert_eq!(core.cursor, Cursor { row: 0, col: 2 });
    core.cursor_right(VIEW);
    assert_eq!(core.cursor, Cursor { row: 0, col: 2 });
}

#[test]
fn cursor_up_clamps_the_column_to_the_new_line() {
    let mut core = editor(&["ab", "cdefg"], 1, 4);
    core.cursor_up(VIEW);
    assert_eq!(core.cursor, Cursor { row: 0, col: 2 });
    core.cursor_up(VIEW);
    assert_eq!(core.cursor, Cursor { row: 0, col: 2 });
}

#[test]
fn cursor_up_keeps_the_column_where_the_line_is_long_enough() {
    let mut core = editor(&["abcdef", "cd"], 1, 1);
    core.cursor_up(VIEW);
    assert_eq!(core.cursor, Cursor { row: 0, col: 1 });
}

#[test]
fn cursor_down_clamps_the_column_to_the_new_line() {
    let mut core = editor(&["abcdef", "cd", ""], 0, 5);
    core.cursor_down(VIEW);
    assert_eq!(core.cursor, Cursor { row: 1, col: 2 });
    core.cursor_down(VIEW);
    assert_eq!(core.cursor, Cursor { row: 2, col: 0 });
    core.cursor_down(VIEW);
    assert_eq!(core.cursor, Cursor { row: 2, col: 0 });
}

#[test]
fn insert_newline_opens_an_empty_line_below() {
    let mut core = editor(&["abc", "def"], 0, 1);
    core.insert_newline();
    assert_eq!(core.buffer, lines(&["abc", "", "def"]));
    assert_eq!(core.cursor, Cursor { row: 1, col: 0 });
}

#[test]
fn insert_newline_leaves_the_scroll_anchor_alone() {
    let view = Viewport { rows: 3, cols: 80 };
    let mut core = editor(&["a", "b", "c"], 0, 0);
    core.cursor_down(view);
    core.cursor_down(view);
    assert_eq!(core.row_offset, 1);
    core.insert_newline();
    assert_eq!(core.cursor, Cursor { row: 3, col: 0 });
    assert_eq!(core.row_offset, 1);
    core.cursor_left(view);
    assert_eq!(core.row_offset, 2);
}

#[test]
fn replace_overwrites_the_character_under_the_cursor() {
    let mut core = editor(&["abc"], 0, 1);
    core.replace('x');
    assert_eq!(core.buffer, lines(&["axc"]));
    assert_eq!(core.cursor, Cursor { row: 0, col: 1 });
}

#[test]
fn replace_at_the_end_of_the_line_appends() {
    let mut core = editor(&["abc"], 0, 3);
    core.replace('x');
    assert_eq!(core.buffer, lines(&["abcx"]));
    assert_eq!(core.cursor, Cursor { row: 0, col: 3 });
    assert_eq!(core.row_offset, 0);
}

#[test]
fn moving_down_never_moves_the_anchor_up_and_the_first_row_snaps_it_back() {
    let view = Viewport { rows: 4, cols: 80 };
    let text = ["0", "1", "2", "3", "4", "5", "6", "7", "8", "9"];
    let mut core = editor(&text, 0, 0);
    let mut offsets = Vec::new();
    for _ in 0..12 {
        let before = core.row_offset;
        core.cursor_down(view);
        assert!(core.row_offset >= before);
        assert!(core.row_offset <= core.cursor.row);
        offsets.push(core.row_offset);
    }
    assert_eq!(offsets, vec![0, 0, 1, 2, 3, 4, 5, 6, 7, 7, 7, 7]);
    assert_eq!(core.cursor.row, 9);
    for _ in 0..9 {
        core.cursor_up(view);
    }
    assert_eq!(core.cursor.row, 0);
    assert_eq!(core.row_offset, 0);
}

#[test]
fn moving_up_above_the_anchor_snaps_it_to_the_cursor() {
    let view = Viewport { rows: 4, cols: 80 };
    let text = ["0", "1", "2", "3", "4", "5"];
    let mut core = editor(&text, 0, 0);
    for _ in 0..5 {
        core.cursor_down(view);
    }
    assert_eq!(core.row_offset, 3);
    core.cursor_up(view);
    assert_eq!(core.row_offset, 3);
    core.cursor_up(view);
    assert_eq!(core.row_offset, 3);
    core.cursor_up(view);
    assert_eq!((core.cursor.row, core.row_offset), (2, 2));
}

#[test]
fn the_anchor_counts_the_display_rows_of_wrapped_lines() {
    let view = Viewport { rows: 7, cols: 10 };
    let long = "x".repeat(20);
    let text = [long.as_str(), long.as_str(), long.as_str(), "y"];
    assert_eq!(get_rows(&lines(&text)[0], 10), 3);
    let mut core = editor(&text, 0, 0);
    core.cursor_down(view);
    assert_eq!(core.row_offset, 0);
    core.cursor_down(view);
    assert_eq!(core.row_offset, 1);
    core.cursor_down(view);
    assert_eq!(core.cursor.row, 3);
    assert_eq!(core.row_offset, 2);
}

#[test]
fn set_offset_leaves_an_anchor_that_shows_the_cursor_alone() {
    let view = Viewport { rows: 3, cols: 80 };
    let mut core = editor(&["a", "b", "c", "d"], 3, 0);
    core.row_offset = 2;
    core.set_offset(view);
    assert_eq!(core.row_offset, 2);
    core.row_offset = 0;
    core.set_offset(view);
    assert_eq!(core.row_offset, 2);
    core.row_offset = 3;
    core.set_offset(view);
    assert_eq!(core.row_offset, 3);
}

#[test]
fn a_line_taller_than_the_text_area_pushes_the_anchor_past_the_cursor() {
    let view = Viewport { rows: 1, cols: 80 };
    let mut core = editor(&["a", "b"], 0, 0);
    core.cursor_down(view);
    assert_eq!(core.cursor.row, 1);
    assert_eq!(core.row_offset, 2);
    core.cursor_left(view);
    assert_eq!(core.row_offset, 1);
}

#[test]
fn a_terminal_without_rows_has_room_for_no_line() {
    let view = Viewport { rows: 0, cols: 80 };
    let mut core = editor(&["a", "b", "c"], 0, 0);
    core.cursor_down(view);
    assert_eq!(core.row_offset, 2);
    core.cursor_up(view);
    assert_eq!((core.cursor.row, core.row_offset), (0, 0));
}
