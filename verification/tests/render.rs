use accepted::{Command, Core, Cursor, DrawBuffer, Viewport};

fn lines(text: &[&str]) -> Vec<Vec<char>> {
    text.iter().map(|line| line.chars().collect()).collect()
}

fn rows(grid: &DrawBuffer) -> Vec<String> {
    grid.buffer.iter().map(|row| row.iter().collect()).collect()
}

fn editor(text: &[&str], row: usize, col: usize, row_offset: usize) -> Core {
    Core { buffer: lines(text), cursor: Cursor { row, col }, row_offset }
}

#[test]
fn layout_of_an_empty_buffer_puts_the_cursor_at_the_origin() {
    let core = Core::new();
    let mut grid = DrawBuffer::new(3, 10);
    assert_eq!(core.layout(&mut grid), Some(Cursor { row: 0, col: 0 }));
    assert_eq!(rows(&grid), vec!["", "", ""]);
    assert_eq!(grid.cursor, Cursor { row: 1, col: 0 });
}

#[test]
fn layout_feeds_each_line_into_a_row_of_its_own() {
    let core = editor(&["ab", "cd"], 1, 1, 0);
    let mut grid = DrawBuffer::new(3, 10);
    assert_eq!(core.layout(&mut grid), Some(Cursor { row: 1, col: 1 }));
    assert_eq!(rows(&grid), vec!["ab", "cd", ""]);
    assert_eq!(grid.cursor, Cursor { row: 2, col: 0 });
}

#[test]
fn layout_finds_the_cursor_on_a_wrapped_line() {
    let text = ["hello world"];
    let mut grid = DrawBuffer::new(3, 10);
    assert_eq!(editor(&text, 0, 8, 0).layout(&mut grid), Some(Cursor { row: 0, col: 8 }));
    assert_eq!(rows(&grid), vec!["hello wor", "ld", ""]);
    let mut grid = DrawBuffer::new(3, 10);
    assert_eq!(editor(&text, 0, 9, 0).layout(&mut grid), Some(Cursor { row: 1, col: 0 }));
    let mut grid = DrawBuffer::new(3, 10);
    assert_eq!(editor(&text, 0, 10, 0).layout(&mut grid), Some(Cursor { row: 1, col: 1 }));
    let mut grid = DrawBuffer::new(3, 10);
    assert_eq!(editor(&text, 0, 11, 0).layout(&mut grid), Some(Cursor { row: 1, col: 2 }));
}

#[test]
fn layout_counts_wide_glyphs_in_the_column_of_the_cursor() {
    let core = editor(&["aあb"], 0, 2, 0);
    let mut grid = DrawBuffer::new(2, 10);
    assert_eq!(core.layout(&mut grid), Some(Cursor { row: 0, col: 3 }));
}

#[test]
fn layout_starts_at_the_scroll_anchor() {
    let core = editor(&["ab", "cd", "ef"], 2, 0, 1);
    let mut grid = DrawBuffer::new(3, 10);
    assert_eq!(core.layout(&mut grid), Some(Cursor { row: 1, col: 0 }));
    assert_eq!(rows(&grid), vec!["cd", "ef", ""]);
}

#[test]
fn layout_stops_when_the_grid_is_full() {
    let core = editor(&["ab", "cd", "ef", "gh"], 2, 1, 0);
    let mut grid = DrawBuffer::new(2, 10);
    assert_eq!(core.layout(&mut grid), None);
    assert_eq!(rows(&grid), vec!["ab", "cd"]);
    assert_eq!(grid.cursor, Cursor { row: 2, col: 0 });
}

#[test]
fn layout_stops_at_the_character_that_finds_no_room() {
    let text = ["abc", "d"];
    let mut grid = DrawBuffer::new(1, 3);
    assert_eq!(editor(&text, 0, 1, 0).layout(&mut grid), Some(Cursor { row: 0, col: 1 }));
    assert_eq!(rows(&grid), vec!["ab"]);
    assert_eq!(grid.cursor, Cursor { row: 0, col: 2 });
    let mut grid = DrawBuffer::new(1, 3);
    assert_eq!(editor(&text, 0, 2, 0).layout(&mut grid), None);
    let mut grid = DrawBuffer::new(1, 3);
    assert_eq!(editor(&text, 0, 3, 0).layout(&mut grid), None);
    let mut grid = DrawBuffer::new(1, 3);
    assert_eq!(editor(&text, 1, 0, 0).layout(&mut grid), None);
}

#[test]
fn layout_with_the_cursor_above_the_anchor_finds_no_place_for_it() {
    let core = editor(&["ab", "cd"], 0, 0, 1);
    let mut grid = DrawBuffer::new(3, 10);
    assert_eq!(core.layout(&mut grid), None);
    assert_eq!(rows(&grid), vec!["cd", "", ""]);
}

#[test]
fn layout_with_the_anchor_past_the_text_feeds_nothing() {
    let core = editor(&["ab"], 0, 0, 5);
    let mut grid = DrawBuffer::new(2, 10);
    assert_eq!(core.layout(&mut grid), None);
    assert_eq!(rows(&grid), vec!["", ""]);
    assert_eq!(grid.cursor, Cursor { row: 0, col: 0 });
}

#[test]
fn layout_into_a_grid_without_rows_feeds_nothing() {
    let core = editor(&["ab"], 0, 0, 0);
    let mut grid = DrawBuffer::new(0, 10);
    assert_eq!(core.layout(&mut grid), None);
    assert_eq!(grid.cursor, Cursor { row: 0, col: 0 });
}

#[test]
fn is_valid_tells_whether_the_cursor_is_inside_the_buffer() {
    assert!(Core::new().is_valid());
    assert!(editor(&["ab", "c"], 1, 1, 0).is_valid());
    assert!(editor(&["ab", "c"], 0, 2, 7).is_valid());
    assert!(!editor(&["ab", "c"], 1, 2, 0).is_valid());
    assert!(!editor(&["ab", "c"], 2, 0, 0).is_valid());
    assert!(!editor(&[], 0, 0, 0).is_valid());
}

#[test]
fn the_anchor_keeps_the_cursor_on_the_grid() {
    let view = Viewport { rows: 6, cols: 12 };
    let mut core = Core::new();
    let mut seed: u64 = 0x9e37_79b9_7f4a_7c15;
    for _ in 0..3000 {
        seed = seed.wrapping_mul(6364136223846793005).wrapping_add(1442695040888963407);
        let pick = (seed >> 33) % 10;
        let letter = char::from(b'a' + ((seed >> 40) % 26) as u8);
        let command = match pick {
            0 => Command::Left,
            1 => Command::Right,
            2 | 3 => Command::Up,
            4 | 5 => Command::Down,
            6 => Command::Insert(letter),
            7 => Command::Insert('\n'),
            _ => Command::Backspace,
        };
        if let Command::Insert(c) = command {
            if c != '\n' && core.buffer[core.cursor.row].len() >= 40 {
                continue;
            }
        }
        if let Command::Backspace = command {
            if core.cursor.col == 0 && core.cursor.row > 0 {
                let joined =
                    core.buffer[core.cursor.row].len() + core.buffer[core.cursor.row - 1].len();
                if joined > 40 {
                    continue;
                }
            }
        }
        core.apply(command, view);
        assert!(core.row_offset <= core.cursor.row);
        let mut grid = DrawBuffer::new(view.rows - 1, view.cols);
        let at = core.layout(&mut grid);
        assert!(at.is_some());
        assert!(at.unwrap().row < view.rows - 1);
    }
}
