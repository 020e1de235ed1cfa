//! The terminfo adapter: maps each rendering command to the terminal
//! control bytes that effect it.

use vstd::prelude::*;

use crate::attr::{Color, Effect, BLINK, BOLD, DIM, REVERSE, UNDERLINE};
use crate::key::Key;

verus! {

/// A rendering command, as emitted by the diff engine and consumed by
/// the terminfo adapter.
#[derive(Clone, Copy, Debug, PartialEq, Eq, Structural)]
pub enum Command {
    HideCursor,
    ShowCursor,
    MoveCursor { x: usize, y: usize },
    PutChar(char),
    ResetAttr,
    Fg(Color),
    Bg(Color),
    Effect(Effect),
}

/// The bytes of an optional terminfo capability: its byte string when
/// present, nothing when the terminal lacks it.
pub open spec fn cap_bytes(cap: Option<Vec<u8>>) -> Seq<u8> {
    match cap {
        Option::Some(b) => b@,
        Option::None => Seq::empty(),
    }
}

/// The ASCII digit for a value below ten.
pub open spec fn ascii_digit(n: nat) -> u8 {
    (0x30 + n) as u8
}

/// The ASCII decimal digits of a number, most significant first.
pub open spec fn dec_digits(n: nat) -> Seq<u8>
    decreases n,
{
    if n < 10 {
        seq![ascii_digit(n)]
    } else {
        dec_digits(n / 10).push(ascii_digit(n % 10))
    }
}

/// Appends the decimal digits of `n` to `out`.
fn push_decimal(out: &mut Vec<u8>, n: u64)
    ensures
        final(out)@ == old(out)@ + dec_digits(n as nat),
{
    if n < 10 {
        out.push(0x30 + (n as u8));
        assert(out@ =~= old(out)@ + dec_digits(n as nat));
        return ;
    }
    let mut tmp: Vec<u8> = Vec::new();
    let mut m = n;
    while m >= 10
        invariant
            m >= 1,
            dec_digits(n as nat) == dec_digits(m as nat) + tmp@.reverse(),
        decreases m,
    {
        let d = 0x30 + ((m % 10) as u8);
        proof {
            let t = tmp@;
            assert(t.push(d).reverse() =~= seq![d] + t.reverse());
            assert(dec_digits(m as nat) == dec_digits((m / 10) as nat) + seq![d]);
            assert(dec_digits((m / 10) as nat) + (seq![d] + t.reverse()) =~= (dec_digits(
                (m / 10) as nat,
            ) + seq![d]) + t.reverse());
        }
        tmp.push(d);
        m = m / 10;
    }
    out.push(0x30 + (m as u8));
    assert(out@ =~= old(out)@ + dec_digits(m as nat));
    let ghost mid = out@;
    let ghost rev = tmp@.reverse();
    let mut j = tmp.len();
    assert(mid + rev.take(0) =~= mid);
    while j > 0
        invariant
            0 <= j <= tmp@.len(),
            rev == tmp@.reverse(),
            rev.len() == tmp@.len(),
            out@ == mid + rev.take(rev.len() - j),
        decreases j,
    {
        j = j - 1;
        let d = tmp[j];
        proof {
            assert(rev[rev.len() - j - 1] == tmp@[j as int]);
            assert(rev.take(rev.len() - j) =~= rev.take(rev.len() - (j + 1)).push(d));
        }
        out.push(d);
    }
    proof {
        assert(rev.take(rev.len() as int) =~= rev);
        assert(out@ == mid + tmp@.reverse());
        assert((old(out)@ + dec_digits(m as nat)) + tmp@.reverse() =~= old(out)@ + (dec_digits(
            m as nat,
        ) + tmp@.reverse()));
    }
}

/// The fixed cursor-positioning sequence: `ESC [ row ; col H`, one-based.
pub open spec fn move_cursor_bytes(x: nat, y: nat) -> Seq<u8> {
    seq![0x1bu8, 0x5bu8] + dec_digits(y + 1) + seq![0x3bu8] + dec_digits(x + 1) + seq![0x48u8]
}

/// The SGR parameter digits selecting a color: `3` or `4` first, per
/// foreground or background, supplied by the caller.
pub open spec fn color_param_bytes(plane: u8, c: Color) -> Seq<u8> {
    match c {
        Color::Default => seq![ascii_digit(plane as nat), 0x39u8],
        Color::Black => seq![ascii_digit(plane as nat), 0x30u8],
        Color::Red => seq![ascii_digit(plane as nat), 0x31u8],
        Color::Green => seq![ascii_digit(plane as nat), 0x32u8],
        Color::Yellow => seq![ascii_digit(plane as nat), 0x33u8],
        Color::Blue => seq![ascii_digit(plane as nat), 0x34u8],
        Color::Magenta => seq![ascii_digit(plane as nat), 0x35u8],
        Color::Cyan => seq![ascii_digit(plane as nat), 0x36u8],
        Color::White => seq![ascii_digit(plane as nat), 0x37u8],
        Color::EightBit(x) => seq![ascii_digit(plane as nat), 0x38u8, 0x3bu8, 0x35u8, 0x3bu8]
            + dec_digits(x as nat),
        Color::Rgb(r, g, b) => seq![ascii_digit(plane as nat), 0x38u8, 0x3bu8, 0x32u8, 0x3bu8]
            + dec_digits(r as nat) + seq![0x3bu8] + dec_digits(g as nat) + seq![0x3bu8]
            + dec_digits(b as nat),
    }
}

/// A full SGR sequence: `ESC [ params m`.
pub open spec fn sgr_bytes(params: Seq<u8>) -> Seq<u8> {
    seq![0x1bu8, 0x5bu8] + params + seq![0x6du8]
}

/// Byte sequence setting the foreground color: SGR 30-37 for the named
/// colors, 39 for the default, 38;5;n indexed, 38;2;r;g;b true color.
pub open spec fn fg_bytes(c: Color) -> Seq<u8> {
    sgr_bytes(color_param_bytes(3, c))
}

/// Byte sequence setting the background color: SGR 40-47 for the named
/// colors, 49 for the default, 48;5;n indexed, 48;2;r;g;b true color.
pub open spec fn bg_bytes(c: Color) -> Seq<u8> {
    sgr_bytes(color_param_bytes(4, c))
}

/// The terminfo adapter: the capability byte strings this library
/// consults, already looked up from the terminal's terminfo entry.
/// A missing capability outputs nothing and never fails.
pub struct Terminal {
    /// enter alternate screen
    pub smcup: Option<Vec<u8>>,
    /// exit alternate screen
    pub rmcup: Option<Vec<u8>>,
    /// enter keypad transmit mode
    pub smkx: Option<Vec<u8>>,
    /// exit keypad transmit mode
    pub rmkx: Option<Vec<u8>>,
    /// clear the screen
    pub clear: Option<Vec<u8>>,
    /// hide the cursor
    pub civis: Option<Vec<u8>>,
    /// show the cursor
    pub cnorm: Option<Vec<u8>>,
    /// reset all attributes
    pub sgr0: Option<Vec<u8>>,
    pub bold: Option<Vec<u8>>,
    pub dim: Option<Vec<u8>>,
    /// underline
    pub smul: Option<Vec<u8>>,
    pub blink: Option<Vec<u8>>,
    /// reverse video
    pub rev: Option<Vec<u8>>,
    /// bytes the arrow-up key sends
    pub kcuu1: Option<Vec<u8>>,
    /// bytes the arrow-down key sends
    pub kcud1: Option<Vec<u8>>,
    /// bytes the arrow-left key sends
    pub kcub1: Option<Vec<u8>>,
    /// bytes the arrow-right key sends
    pub kcuf1: Option<Vec<u8>>,
}

/// Text effects are applied by emitting the terminfo string of each
/// effect present, in the fixed order bold, dim, underline, blink,
/// reverse.
pub open spec fn effect_bytes(t: &Terminal, e: Effect) -> Seq<u8> {
    (if e.spec_contains(Effect { bits: BOLD }) {
        cap_bytes(t.bold)
    } else {
        Seq::empty()
    }) + (if e.spec_contains(Effect { bits: DIM }) {
        cap_bytes(t.dim)
    } else {
        Seq::empty()
    }) + (if e.spec_contains(Effect { bits: UNDERLINE }) {
        cap_bytes(t.smul)
    } else {
        Seq::empty()
    }) + (if e.spec_contains(Effect { bits: BLINK }) {
        cap_bytes(t.blink)
    } else {
        Seq::empty()
    }) + (if e.spec_contains(Effect { bits: REVERSE }) {
        cap_bytes(t.rev)
    } else {
        Seq::empty()
    })
}

/// The bytes that effect one rendering command on the terminal.
pub open spec fn command_bytes(t: &Terminal, cmd: Command) -> Seq<u8> {
    match cmd {
        Command::HideCursor => cap_bytes(t.civis),
        Command::ShowCursor => cap_bytes(t.cnorm),
        Command::MoveCursor { x, y } => move_cursor_bytes(x as nat, y as nat),
        Command::PutChar(ch) => vstd::utf8::encode_scalar(ch as u32),
        Command::ResetAttr => cap_bytes(t.sgr0),
        Command::Fg(c) => fg_bytes(c),
        Command::Bg(c) => bg_bytes(c),
        Command::Effect(e) => effect_bytes(t, e),
    }
}

/// Copies the bytes of a capability, or nothing when it is absent.
fn cap_to_vec(cap: &Option<Vec<u8>>) -> (r: Vec<u8>)
    ensures
        r@ == cap_bytes(*cap),
{
    match cap {
        Option::Some(b) => clone_bytes(b),
        Option::None => Vec::new(),
    }
}

/// Appends the bytes of a capability, or nothing when it is absent.
fn append_cap(out: &mut Vec<u8>, cap: &Option<Vec<u8>>)
    ensures
        final(out)@ == old(out)@ + cap_bytes(*cap),
{
    match cap {
        Option::Some(b) => {
            append_bytes(out, b);
        },
        Option::None => {
            assert(out@ =~= old(out)@ + cap_bytes(*cap));
        },
    }
}

/// Copies a byte vector.
fn clone_bytes(b: &Vec<u8>) -> (r: Vec<u8>)
    ensures
        r@ == b@,
{
    let mut r: Vec<u8> = Vec::new();
    append_bytes(&mut r, b);
    assert(r@ =~= b@);
    r
}

/// Appends every byte of `b` to `out`.
fn append_bytes(out: &mut Vec<u8>, b: &Vec<u8>)
    ensures
        final(out)@ == old(out)@ + b@,
{
    let mut i: usize = 0;
    while i < b.len()
        invariant
            0 <= i <= b@.len(),
            out@ == old(out)@ + b@.take(i as int),
        decreases b@.len() - i,
    {
        proof {
            assert(b@.take(i + 1) =~= b@.take(i as int).push(b@[i as int]));
        }
        out.push(b[i]);
        i = i + 1;
    }
    proof {
        assert(b@.take(b@.len() as int) =~= b@);
    }
}

impl Terminal {
    /// Bytes entering the alternate screen.
    pub fn enter_ca(&self) -> (r: Vec<u8>)
        ensures
            r@ == cap_bytes(self.smcup),
    {
        cap_to_vec(&self.smcup)
    }

    /// Bytes leaving the alternate screen.
    pub fn exit_ca(&self) -> (r: Vec<u8>)
        ensures
            r@ == cap_bytes(self.rmcup),
    {
        cap_to_vec(&self.rmcup)
    }

    /// Bytes entering keypad transmit mode.
    pub fn enter_keypad(&self) -> (r: Vec<u8>)
        ensures
            r@ == cap_bytes(self.smkx),
    {
        cap_to_vec(&self.smkx)
    }

    /// Bytes leaving keypad transmit mode.
    pub fn exit_keypad(&self) -> (r: Vec<u8>)
        ensures
            r@ == cap_bytes(self.rmkx),
    {
        cap_to_vec(&self.rmkx)
    }

    /// Bytes clearing the terminal.
    pub fn clear(&self) -> (r: Vec<u8>)
        ensures
            r@ == cap_bytes(self.clear),
    {
        cap_to_vec(&self.clear)
    }

    /// Bytes hiding the cursor.
    pub fn hide_cursor(&self) -> (r: Vec<u8>)
        ensures
            r@ == cap_bytes(self.civis),
    {
        cap_to_vec(&self.civis)
    }

    /// Bytes showing the cursor.
    pub fn show_cursor(&self) -> (r: Vec<u8>)
        ensures
            r@ == cap_bytes(self.cnorm),
    {
        cap_to_vec(&self.cnorm)
    }

    /// Bytes resetting every attribute.
    pub fn reset_attr(&self) -> (r: Vec<u8>)
        ensures
            r@ == cap_bytes(self.sgr0),
    {
        cap_to_vec(&self.sgr0)
    }

    /// Bytes moving the cursor to column `x`, row `y` (zero-based):
    /// the fixed sequence `ESC [ y+1 ; x+1 H`.
    pub fn move_cursor(&self, x: usize, y: usize) -> (r: Vec<u8>)
        requires
            x < usize::MAX,
            y < usize::MAX,
        ensures
            r@ == move_cursor_bytes(x as nat, y as nat),
    {
        let mut out: Vec<u8> = Vec::new();
        out.push(0x1b);
        out.push(0x5b);
        assert(out@ =~= seq![0x1bu8, 0x5bu8]);
        push_decimal(&mut out, (y as u64) + 1);
        out.push(0x3b);
        push_decimal(&mut out, (x as u64) + 1);
        out.push(0x48);
        proof {
            assert(out@ =~= move_cursor_bytes(x as nat, y as nat));
        }
        out
    }

    /// Bytes printing one character: its UTF-8 encoding.
    pub fn put_cell(&self, ch: char) -> (r: Vec<u8>)
        ensures
            r@ == vstd::utf8::encode_scalar(ch as u32),
    {
        crate::utf8::encode_char(ch)
    }

    /// Bytes setting the foreground color.
    pub fn fg(&self, color: Color) -> (r: Vec<u8>)
        ensures
            r@ == fg_bytes(color),
    {
        color_sgr(0x33, color)
    }

    /// Bytes setting the background color.
    pub fn bg(&self, color: Color) -> (r: Vec<u8>)
        ensures
            r@ == bg_bytes(color),
    {
        color_sgr(0x34, color)
    }

    /// Bytes applying each effect present, in the fixed order bold,
    /// dim, underline, blink, reverse.
    pub fn effect(&self, e: Effect) -> (r: Vec<u8>)
        ensures
            r@ == effect_bytes(self, e),
    {
        let mut out: Vec<u8> = Vec::new();
        if e.contains(Effect::new(BOLD)) {
            append_cap(&mut out, &self.bold);
        }
        if e.contains(Effect::new(DIM)) {
            append_cap(&mut out, &self.dim);
        }
        if e.contains(Effect::new(UNDERLINE)) {
            append_cap(&mut out, &self.smul);
        }
        if e.contains(Effect::new(BLINK)) {
            append_cap(&mut out, &self.blink);
        }
        if e.contains(Effect::new(REVERSE)) {
            append_cap(&mut out, &self.rev);
        }
        proof {
            assert(out@ =~= effect_bytes(self, e));
        }
        out
    }

    /// The bytes that effect one rendering command.
    pub fn write(&self, command: Command) -> (r: Vec<u8>)
        requires
            command matches Command::MoveCursor { x, y } ==> x < usize::MAX && y < usize::MAX,
        ensures
            r@ == command_bytes(self, command),
    {
        match command {
            Command::HideCursor => self.hide_cursor(),
            Command::ShowCursor => self.show_cursor(),
            Command::MoveCursor { x, y } => self.move_cursor(x, y),
            Command::PutChar(ch) => self.put_cell(ch),
            Command::ResetAttr => self.reset_attr(),
            Command::Fg(c) => self.fg(c),
            Command::Bg(c) => self.bg(c),
            Command::Effect(e) => self.effect(e),
        }
    }

    /// The byte string the given arrow key sends, when the terminal
    /// defines one. Other keys have no escape sequence.
    pub fn escaped_key_bytes(&self, key: Key) -> (r: Option<&Vec<u8>>)
        ensures
            match r {
                Option::Some(b) => spec_escaped_key_bytes(self, key) == Option::Some(b@),
                Option::None => spec_escaped_key_bytes(self, key) is None,
            },
    {
        match key {
            Key::ArrowUp => self.kcuu1.as_ref(),
            Key::ArrowDown => self.kcud1.as_ref(),
            Key::ArrowLeft => self.kcub1.as_ref(),
            Key::ArrowRight => self.kcuf1.as_ref(),
            _ => None,
        }
    }
}

/// The capability byte string of an arrow key, when defined.
pub open spec fn spec_escaped_key_bytes(t: &Terminal, key: Key) -> Option<Seq<u8>> {
    match key {
        Key::ArrowUp => match t.kcuu1 {
            Option::Some(b) => Option::Some(b@),
            Option::None => Option::None,
        },
        Key::ArrowDown => match t.kcud1 {
            Option::Some(b) => Option::Some(b@),
            Option::None => Option::None,
        },
        Key::ArrowLeft => match t.kcub1 {
            Option::Some(b) => Option::Some(b@),
            Option::None => Option::None,
        },
        Key::ArrowRight => match t.kcuf1 {
            Option::Some(b) => Option::Some(b@),
            Option::None => Option::None,
        },
        _ => Option::None,
    }
}

/// Builds one SGR color sequence: `ESC [ plane-digit params m`.
fn color_sgr(plane_digit: u8, color: Color) -> (r: Vec<u8>)
    requires
        plane_digit == 0x33 || plane_digit == 0x34,
    ensures
        plane_digit == 0x33 ==> r@ == fg_bytes(color),
        plane_digit == 0x34 ==> r@ == bg_bytes(color),
{
    let ghost plane: u8 = if plane_digit == 0x33 {
        3
    } else {
        4
    };
    let mut out: Vec<u8> = Vec::new();
    out.push(0x1b);
    out.push(0x5b);
    out.push(plane_digit);
    match color {
        Color::Default => out.push(0x39),
        Color::Black => out.push(0x30),
        Color::Red => out.push(0x31),
        Color::Green => out.push(0x32),
        Color::Yellow => out.push(0x33),
        Color::Blue => out.push(0x34),
        Color::Magenta => out.push(0x35),
        Color::Cyan => out.push(0x36),
        Color::White => out.push(0x37),
        Color::EightBit(x) => {
            out.push(0x38);
            out.push(0x3b);
            out.push(0x35);
            out.push(0x3b);
            push_decimal(&mut out, x as u64);
        },
        Color::Rgb(rr, gg, bb) => {
            out.push(0x38);
            out.push(0x3b);
            out.push(0x32);
            out.push(0x3b);
            push_decimal(&mut out, rr as u64);
            out.push(0x3b);
            push_decimal(&mut out, gg as u64);
            out.push(0x3b);
            push_decimal(&mut out, bb as u64);
        },
    }
    out.push(0x6d);
    proof {
        assert(out@ =~= sgr_bytes(color_param_bytes(plane, color)));
    }
    out
}

} // verus!

