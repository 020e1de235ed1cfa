use termfest::attr::{Color, Effect};
use termfest::key::Key;
use termfest::terminal::{Command, Terminal};

fn bare_terminal() -> Terminal {
    Terminal {
        smcup: None,
        rmcup: None,
        smkx: None,
        rmkx: None,
        clear: None,
        civis: None,
        cnorm: None,
        sgr0: None,
        bold: None,
        dim: None,
        smul: None,
        blink: None,
        rev: None,
        kcuu1: None,
        kcud1: None,
        kcub1: None,
        kcuf1: None,
    }
}

#[test]
fn named_foreground_colors() {
    let t = bare_terminal();
    assert_eq!(t.fg(Color::Default), b"\x1b[39m");
    assert_eq!(t.fg(Color::Black), b"\x1b[30m");
    assert_eq!(t.fg(Color::Red), b"\x1b[31m");
    assert_eq!(t.fg(Color::Green), b"\x1b[32m");
    assert_eq!(t.fg(Color::Yellow), b"\x1b[33m");
    assert_eq!(t.fg(Color::Blue), b"\x1b[34m");
    assert_eq!(t.fg(Color::Magenta), b"\x1b[35m");
    assert_eq!(t.fg(Color::Cyan), b"\x1b[36m");
    assert_eq!(t.fg(Color::White), b"\x1b[37m");
}

#[test]
fn named_background_colors() {
    let t = bare_terminal();
    assert_eq!(t.bg(Color::Default), b"\x1b[49m");
    assert_eq!(t.bg(Color::Black), b"\x1b[40m");
    assert_eq!(t.bg(Color::Blue), b"\x1b[44m");
    assert_eq!(t.bg(Color::White), b"\x1b[47m");
}

#[test]
fn palette_and_rgb_colors() {
    let t = bare_terminal();
    assert_eq!(t.fg(Color::EightBit(196)), b"\x1b[38;5;196m");
    assert_eq!(t.bg(Color::EightBit(0)), b"\x1b[48;5;0m");
    assert_eq!(t.fg(Color::Rgb(1, 22, 255)), b"\x1b[38;2;1;22;255m");
    assert_eq!(t.bg(Color::Rgb(0, 0, 0)), b"\x1b[48;2;0;0;0m");
}

#[test]
fn cursor_position_is_one_based_row_col() {
    let t = bare_terminal();
    assert_eq!(t.move_cursor(0, 0), b"\x1b[1;1H");
    assert_eq!(t.move_cursor(3, 0), b"\x1b[1;4H");
    assert_eq!(t.move_cursor(0, 9), b"\x1b[10;1H");
    assert_eq!(t.move_cursor(99, 211), b"\x1b[212;100H");
}

#[test]
fn putchar_is_utf8() {
    let t = bare_terminal();
    assert_eq!(t.put_cell('A'), b"A");
    assert_eq!(t.put_cell('ß'), vec![0xc3, 0x9f]);
    assert_eq!(t.put_cell('あ'), vec![0xe3, 0x81, 0x82]);
    assert_eq!(t.put_cell('\u{1f600}'), vec![0xf0, 0x9f, 0x98, 0x80]);
}

#[test]
fn missing_capability_outputs_nothing() {
    let t = bare_terminal();
    assert_eq!(t.enter_ca(), b"");
    assert_eq!(t.exit_ca(), b"");
    assert_eq!(t.clear(), b"");
    assert_eq!(t.hide_cursor(), b"");
    assert_eq!(t.show_cursor(), b"");
    assert_eq!(t.reset_attr(), b"");
    assert_eq!(t.effect(Effect::bold()), b"");
}

#[test]
fn present_capability_is_written() {
    let t = Terminal {
        smcup: Some(b"CA".to_vec()),
        rmcup: Some(b"XC".to_vec()),
        smkx: Some(b"KP".to_vec()),
        rmkx: Some(b"XK".to_vec()),
        clear: Some(b"CL".to_vec()),
        civis: Some(b"HI".to_vec()),
        cnorm: Some(b"SH".to_vec()),
        sgr0: Some(b"S0".to_vec()),
        ..bare_terminal()
    };
    assert_eq!(t.enter_ca(), b"CA");
    assert_eq!(t.exit_ca(), b"XC");
    assert_eq!(t.enter_keypad(), b"KP");
    assert_eq!(t.exit_keypad(), b"XK");
    assert_eq!(t.clear(), b"CL");
    assert_eq!(t.hide_cursor(), b"HI");
    assert_eq!(t.show_cursor(), b"SH");
    assert_eq!(t.reset_attr(), b"S0");
}

#[test]
fn effects_in_fixed_order() {
    let t = Terminal {
        bold: Some(b"B".to_vec()),
        dim: Some(b"D".to_vec()),
        smul: Some(b"U".to_vec()),
        blink: Some(b"K".to_vec()),
        rev: Some(b"R".to_vec()),
        ..bare_terminal()
    };
    let all = Effect::bold()
        .union(Effect::dim())
        .union(Effect::underline())
        .union(Effect::blink())
        .union(Effect::reverse());
    assert_eq!(t.effect(all), b"BDUKR");
    assert_eq!(t.effect(Effect::reverse().union(Effect::bold())), b"BR");
    assert_eq!(t.effect(Effect::empty()), b"");
}

#[test]
fn write_dispatches_commands() {
    let t = Terminal {
        civis: Some(b"HI".to_vec()),
        cnorm: Some(b"SH".to_vec()),
        sgr0: Some(b"S0".to_vec()),
        bold: Some(b"B".to_vec()),
        ..bare_terminal()
    };
    assert_eq!(t.write(Command::HideCursor), b"HI");
    assert_eq!(t.write(Command::ShowCursor), b"SH");
    assert_eq!(t.write(Command::ResetAttr), b"S0");
    assert_eq!(t.write(Command::MoveCursor { x: 1, y: 2 }), b"\x1b[3;2H");
    assert_eq!(t.write(Command::PutChar('z')), b"z");
    assert_eq!(t.write(Command::Fg(Color::Red)), b"\x1b[31m");
    assert_eq!(t.write(Command::Bg(Color::Red)), b"\x1b[41m");
    assert_eq!(t.write(Command::Effect(Effect::bold())), b"B");
}

#[test]
fn escaped_key_bytes_only_for_arrows() {
    let up = vec![0x1b, b'[', b'A'];
    let t = Terminal {
        kcuu1: Some(up.clone()),
        ..bare_terminal()
    };
    assert_eq!(t.escaped_key_bytes(Key::ArrowUp), Some(&up));
    assert_eq!(t.escaped_key_bytes(Key::ArrowDown), None);
    assert_eq!(t.escaped_key_bytes(Key::CtrlA), None);
    assert_eq!(t.escaped_key_bytes(Key::ESC), None);
}
