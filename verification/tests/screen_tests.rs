use termfest::attr::{Attribute, Color, Effect};
use termfest::screen::{Cell, Screen};
use termfest::terminal::Command;

fn red_attr() -> Attribute {
    Attribute {
        fg: Color::Red,
        ..Attribute::default()
    }
}

#[test]
fn put_two_adjacent_cells_one_move() {
    // 3x1 screen: two adjacent writes share one cursor move
    let mut s = Screen::new(3, 1);
    s.put_cell(0, 0, Cell::new('H'));
    s.put_cell(1, 0, Cell::new('i'));
    let cmds = s.flush_commands();
    assert_eq!(
        cmds,
        vec![
            Command::ResetAttr,
            Command::MoveCursor { x: 0, y: 0 },
            Command::PutChar('H'),
            Command::PutChar('i'),
            Command::MoveCursor { x: 0, y: 0 },
        ]
    );
}

#[test]
fn gap_forces_second_move() {
    let mut s = Screen::new(3, 1);
    s.put_cell(0, 0, Cell::new('A'));
    s.put_cell(2, 0, Cell::new('C'));
    let cmds = s.flush_commands();
    assert_eq!(
        cmds,
        vec![
            Command::ResetAttr,
            Command::MoveCursor { x: 0, y: 0 },
            Command::PutChar('A'),
            Command::MoveCursor { x: 2, y: 0 },
            Command::PutChar('C'),
            Command::MoveCursor { x: 0, y: 0 },
        ]
    );
}

#[test]
fn wide_char_skips_right_half() {
    let mut s = Screen::new(4, 1);
    s.put_cell(0, 0, Cell::new('あ'));
    s.put_cell(3, 0, Cell::new('x'));
    let cmds = s.flush_commands();
    assert_eq!(
        cmds,
        vec![
            Command::ResetAttr,
            Command::MoveCursor { x: 0, y: 0 },
            Command::PutChar('あ'),
            Command::MoveCursor { x: 3, y: 0 },
            Command::PutChar('x'),
            Command::MoveCursor { x: 0, y: 0 },
        ]
    );
}

#[test]
fn wide_char_in_last_column_clipped_to_space() {
    let mut s = Screen::new(2, 1);
    s.put_cell(1, 0, Cell::new('あ'));
    let cmds = s.flush_commands();
    assert_eq!(
        cmds,
        vec![
            Command::ResetAttr,
            Command::MoveCursor { x: 1, y: 0 },
            Command::PutChar(' '),
            Command::MoveCursor { x: 0, y: 0 },
        ]
    );
}

#[test]
fn second_flush_emits_no_putchar_or_sgr() {
    let mut s = Screen::new(5, 2);
    s.print(0, 0, "ab", red_attr());
    let first = s.flush_commands();
    assert!(first.iter().any(|c| matches!(c, Command::PutChar(_))));
    assert!(first.iter().any(|c| matches!(c, Command::Fg(Color::Red))));
    s.print(0, 0, "ab", red_attr());
    let second = s.flush_commands();
    assert_eq!(
        second,
        vec![Command::ResetAttr, Command::MoveCursor { x: 0, y: 0 }]
    );
}

#[test]
fn shadow_right_half_is_covered_after_flush() {
    // after drawing a wide character, writing the covered cell later
    // must emit a PutChar for it
    let mut s = Screen::new(4, 1);
    s.put_cell(0, 0, Cell::new('あ'));
    s.flush_commands();
    s.put_cell(1, 0, Cell::new('z'));
    let cmds = s.flush_commands();
    assert!(cmds.contains(&Command::PutChar('z')));
    assert!(cmds.contains(&Command::MoveCursor { x: 1, y: 0 }));
}

#[test]
fn attribute_change_emits_sgr_once() {
    let mut s = Screen::new(4, 1);
    s.put_cell(0, 0, Cell::new('a').fg(Color::Red));
    s.put_cell(1, 0, Cell::new('b').fg(Color::Red));
    let cmds = s.flush_commands();
    // one reset for the attribute block, beside the leading reset
    let resets = cmds
        .iter()
        .filter(|c| matches!(c, Command::ResetAttr))
        .count();
    assert_eq!(resets, 2);
    let fgs: Vec<&Command> = cmds
        .iter()
        .filter(|c| matches!(c, Command::Fg(_)))
        .collect();
    assert_eq!(fgs, vec![&Command::Fg(Color::Red)]);
    // no SGR between the two PutChars
    let first_put = cmds
        .iter()
        .position(|c| matches!(c, Command::PutChar(_)))
        .unwrap();
    assert_eq!(cmds[first_put], Command::PutChar('a'));
    assert_eq!(cmds[first_put + 1], Command::PutChar('b'));
}

#[test]
fn clear_emits_spaces_for_former_text() {
    let mut s = Screen::new(3, 1);
    s.print(0, 0, "hi", Attribute::default());
    s.flush_commands();
    s.clear();
    let cmds = s.flush_commands();
    let puts: Vec<&Command> = cmds
        .iter()
        .filter(|c| matches!(c, Command::PutChar(_)))
        .collect();
    assert_eq!(puts, vec![&Command::PutChar(' '), &Command::PutChar(' ')]);
}

#[test]
fn clear_keeps_attributes() {
    let mut s = Screen::new(2, 1);
    s.put_cell(0, 0, Cell::new('x').bg(Color::Blue));
    s.clear();
    assert_eq!(s.cells[0].ch, ' ');
    assert_eq!(s.cells[0].attribute.bg, Color::Blue);
}

#[test]
fn put_cell_in_bounds_lands() {
    let mut s = Screen::new(3, 2);
    let c = Cell::new('Q').fg(Color::Green);
    s.put_cell(2, 1, c);
    assert_eq!(s.cells[2 + 1 * 3], c);
}

#[test]
fn put_cell_out_of_bounds_is_noop() {
    let mut s = Screen::new(3, 2);
    let before = s.cells.clone();
    s.put_cell(3, 0, Cell::new('Q'));
    s.put_cell(0, 2, Cell::new('Q'));
    assert_eq!(s.cells, before);
}

#[test]
fn print_advances_by_display_width() {
    let mut s = Screen::new(6, 1);
    s.print(0, 0, "あb", Attribute::default());
    assert_eq!(s.cells[0].ch, 'あ');
    // the wide character owns two columns, so 'b' lands at x == 2
    assert_eq!(s.cells[1].ch, ' ');
    assert_eq!(s.cells[2].ch, 'b');
}

#[test]
fn print_drops_overflow_without_wrapping() {
    let mut s = Screen::new(3, 2);
    s.print(1, 0, "abcdef", Attribute::default());
    assert_eq!(s.cells[1].ch, 'a');
    assert_eq!(s.cells[2].ch, 'b');
    // nothing wraps to the second row
    for x in 0..3 {
        assert_eq!(s.cells[3 + x].ch, ' ');
    }
}

#[test]
fn resize_preserves_top_left_subrectangle() {
    let mut s = Screen::new(3, 2);
    let letters = ['a', 'b', 'c', 'd', 'e', 'f'];
    for y in 0..2 {
        for x in 0..3 {
            s.put_cell(x, y, Cell::new(letters[x + y * 3]));
        }
    }
    s.resize(2, 3);
    assert_eq!(s.size(), (2, 3));
    // kept: the 2x2 corner
    assert_eq!(s.cells[0].ch, 'a');
    assert_eq!(s.cells[1].ch, 'b');
    assert_eq!(s.cells[2].ch, 'd');
    assert_eq!(s.cells[3].ch, 'e');
    // new cells are defaults
    assert_eq!(s.cells[4], Cell::default());
    assert_eq!(s.cells[5], Cell::default());
}

#[test]
fn resize_grow_fills_defaults() {
    let mut s = Screen::new(1, 1);
    s.put_cell(0, 0, Cell::new('k'));
    s.resize(2, 2);
    assert_eq!(s.cells[0].ch, 'k');
    assert_eq!(s.cells[1], Cell::default());
    assert_eq!(s.cells[2], Cell::default());
    assert_eq!(s.cells[3], Cell::default());
}

#[test]
fn hide_and_show_cursor_emit_once() {
    let mut s = Screen::new(1, 1);
    s.hide_cursor();
    let cmds = s.flush_commands();
    assert!(cmds.contains(&Command::HideCursor));
    let again = s.flush_commands();
    assert!(!again.contains(&Command::HideCursor));
    s.show_cursor();
    let cmds = s.flush_commands();
    assert!(cmds.contains(&Command::ShowCursor));
}

#[test]
fn move_cursor_reflected_in_trailing_move() {
    let mut s = Screen::new(4, 4);
    s.move_cursor(3, 2);
    let cmds = s.flush_commands();
    assert_eq!(cmds.last(), Some(&Command::MoveCursor { x: 3, y: 2 }));
}

#[test]
fn cell_builders_set_fields() {
    let e = Effect::bold().union(Effect::underline());
    let c = Cell::new('x').fg(Color::Red).bg(Color::Blue).effect(e);
    assert_eq!(c.ch, 'x');
    assert_eq!(c.attribute.fg, Color::Red);
    assert_eq!(c.attribute.bg, Color::Blue);
    assert_eq!(c.attribute.effect, e);
    let a = Attribute {
        fg: Color::Cyan,
        bg: Color::White,
        effect: Effect::empty(),
    };
    let c2 = Cell::new('y').attribute(a);
    assert_eq!(c2.attribute, a);
}

#[test]
fn default_cell_is_blank() {
    let c = Cell::default();
    assert_eq!(c.ch, ' ');
    assert_eq!(c.attribute, Attribute::default());
    assert_eq!(Color::default(), Color::Default);
}

#[test]
fn effect_bitset_ops() {
    let b = Effect::bold();
    let d = Effect::dim();
    let both = b.union(d);
    assert!(both.contains(b));
    assert!(both.contains(d));
    assert!(!b.contains(d));
    assert!(both.contains(Effect::empty()));
    assert!(!Effect::empty().contains(Effect::reverse()));
    assert_eq!(Effect::blink().union(Effect::blink()), Effect::blink());
}

#[test]
fn second_flush_after_wide_char_is_quiet() {
    // the covered right half holds a default space, matching the
    // default-attribute wide cell, so nothing is redrawn
    let mut s = Screen::new(4, 1);
    s.put_cell(0, 0, Cell::new('あ'));
    s.flush_commands();
    let second = s.flush_commands();
    assert_eq!(
        second,
        vec![Command::ResetAttr, Command::MoveCursor { x: 0, y: 0 }]
    );
}

#[test]
fn colored_wide_char_redraws_covered_space() {
    // the shadow of the covered cell carries the wide cell's color,
    // while the grid keeps a default space there: the difference is
    // redrawn on the next flush
    let mut s = Screen::new(4, 1);
    s.put_cell(0, 0, Cell::new('あ').fg(Color::Red));
    s.flush_commands();
    let second = s.flush_commands();
    assert!(second.contains(&Command::PutChar(' ')));
    let third = s.flush_commands();
    assert_eq!(
        third,
        vec![Command::ResetAttr, Command::MoveCursor { x: 0, y: 0 }]
    );
}

#[test]
fn empty_screen_flushes_cursor_block_only() {
    let mut s = Screen::new(0, 0);
    let cmds = s.flush_commands();
    assert_eq!(
        cmds,
        vec![Command::ResetAttr, Command::MoveCursor { x: 0, y: 0 }]
    );
}
