use termfest::event::{drain_events, parse, Event};
use termfest::key::Key;
use termfest::terminal::Terminal;

fn bare_terminal() -> Terminal {
    Terminal {
        smcup: None,
        rmcup: None,
        smkx: None,
        rmkx: None,
        clear: None,
        civis: None,
        cnorm: None,
        sgr0: None,
        bold: None,
        dim: None,
        smul: None,
        blink: None,
        rev: None,
        kcuu1: None,
        kcud1: None,
        kcub1: None,
        kcuf1: None,
    }
}

fn arrow_terminal() -> Terminal {
    Terminal {
        kcuu1: Some(vec![0x1b, b'[', b'A']),
        kcud1: Some(vec![0x1b, b'[', b'B']),
        kcub1: Some(vec![0x1b, b'[', b'D']),
        kcuf1: Some(vec![0x1b, b'[', b'C']),
        ..bare_terminal()
    }
}

#[test]
fn arrow_up_sequence_parses() {
    let t = arrow_terminal();
    assert_eq!(
        parse(&[0x1b, b'[', b'A'], &t),
        Some((3, Event::Key(Key::ArrowUp)))
    );
}

#[test]
fn all_arrow_sequences_parse() {
    let t = arrow_terminal();
    assert_eq!(
        parse(&[0x1b, b'[', b'B'], &t),
        Some((3, Event::Key(Key::ArrowDown)))
    );
    assert_eq!(
        parse(&[0x1b, b'[', b'D'], &t),
        Some((3, Event::Key(Key::ArrowLeft)))
    );
    assert_eq!(
        parse(&[0x1b, b'[', b'C', b'x'], &t),
        Some((3, Event::Key(Key::ArrowRight)))
    );
}

#[test]
fn ctrl_c_parses() {
    let t = bare_terminal();
    assert_eq!(parse(&[0x03], &t), Some((1, Event::Key(Key::CtrlC))));
}

#[test]
fn utf8_char_parses() {
    let t = bare_terminal();
    assert_eq!(
        parse(&[0xe3, 0x81, 0x82], &t),
        Some((3, Event::Char('あ')))
    );
}

#[test]
fn incomplete_utf8_waits() {
    let t = bare_terminal();
    assert_eq!(parse(&[0xe3, 0x81], &t), None);
}

#[test]
fn empty_buffer_waits() {
    let t = bare_terminal();
    assert_eq!(parse(&[], &t), None);
}

#[test]
fn lone_escape_waits_while_an_arrow_could_complete() {
    let t = arrow_terminal();
    // a lone escape, or escape-bracket, could still grow into an
    // arrow sequence: the decoder asks for more bytes
    assert_eq!(parse(&[0x1b], &t), None);
    assert_eq!(parse(&[0x1b, b'['], &t), None);
}

#[test]
fn escape_before_unrelated_byte_is_esc_key() {
    let t = arrow_terminal();
    // no arrow sequence starts with escape-x, so escape stands alone
    assert_eq!(
        parse(&[0x1b, b'x'], &t),
        Some((1, Event::Key(Key::ESC)))
    );
}

#[test]
fn escape_without_capabilities_is_esc_key() {
    let t = bare_terminal();
    assert_eq!(
        parse(&[0x1b, b'[', b'A'], &t),
        Some((1, Event::Key(Key::ESC)))
    );
}

#[test]
fn arrows_try_in_fixed_order() {
    // two arrows sharing one byte string: the earlier in the order
    // up, down, left, right wins
    let t = Terminal {
        kcuu1: Some(vec![0x1b, b'O', b'A']),
        kcud1: Some(vec![0x1b, b'O', b'A']),
        ..bare_terminal()
    };
    assert_eq!(
        parse(&[0x1b, b'O', b'A'], &t),
        Some((3, Event::Key(Key::ArrowUp)))
    );
}

#[test]
fn control_bytes_map_to_keys() {
    let t = bare_terminal();
    assert_eq!(parse(&[0x01], &t), Some((1, Event::Key(Key::CtrlA))));
    assert_eq!(parse(&[0x08], &t), Some((1, Event::Key(Key::CtrlH))));
    assert_eq!(parse(&[0x0d], &t), Some((1, Event::Key(Key::CtrlM))));
    assert_eq!(parse(&[0x1a], &t), Some((1, Event::Key(Key::CtrlZ))));
    assert_eq!(parse(&[0x20], &t), Some((1, Event::Key(Key::Space))));
    // aliases name the same keys
    assert_eq!(termfest::key::Backspace, Key::CtrlH);
    assert_eq!(termfest::key::Tab, Key::CtrlI);
    assert_eq!(termfest::key::Enter, Key::CtrlM);
}

#[test]
fn bytes_between_ctrl_and_space_are_chars() {
    let t = bare_terminal();
    assert_eq!(parse(&[0x1c], &t), Some((1, Event::Char('\u{1c}'))));
    assert_eq!(parse(&[0x00], &t), Some((1, Event::Char('\0'))));
    assert_eq!(parse(&[b'q'], &t), Some((1, Event::Char('q'))));
}

#[test]
fn invalid_leading_byte_waits() {
    let t = bare_terminal();
    // a lone continuation byte can never start a character
    assert_eq!(parse(&[0x80], &t), None);
    // an overlong two-byte encoding is rejected
    assert_eq!(parse(&[0xc0, 0x80], &t), None);
    // a surrogate encoded in three bytes is rejected
    assert_eq!(parse(&[0xed, 0xa0, 0x80], &t), None);
}

#[test]
fn four_byte_char_parses() {
    let t = bare_terminal();
    assert_eq!(
        parse(&[0xf0, 0x9f, 0x98, 0x80], &t),
        Some((4, Event::Char('\u{1f600}')))
    );
}

#[test]
fn drain_collects_events_and_keeps_tail() {
    let t = arrow_terminal();
    let buf = [b'h', 0x03, 0x1b, b'[', b'A', 0xe3, 0x81, 0x82, 0xe3, 0x81];
    let (events, consumed) = drain_events(&buf, &t);
    assert_eq!(
        events,
        vec![
            Event::Char('h'),
            Event::Key(Key::CtrlC),
            Event::Key(Key::ArrowUp),
            Event::Char('あ'),
        ]
    );
    // the incomplete trailing character stays buffered
    assert_eq!(consumed, 8);
}

#[test]
fn drain_of_empty_buffer_is_empty() {
    let t = bare_terminal();
    let (events, consumed) = drain_events(&[], &t);
    assert!(events.is_empty());
    assert_eq!(consumed, 0);
}

#[test]
fn empty_capability_string_stops_the_drain() {
    // a degenerate terminfo entry with an empty arrow string would
    // consume nothing; the drain stops instead of spinning
    let t = Terminal {
        kcuu1: Some(vec![]),
        ..bare_terminal()
    };
    let (events, consumed) = drain_events(&[0x1b, b'x'], &t);
    assert!(events.is_empty());
    assert_eq!(consumed, 0);
}
