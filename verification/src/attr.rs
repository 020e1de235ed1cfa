//! Rendering attributes: colors, text effects, and their combination.

use vstd::prelude::*;

verus! {

/// A terminal color: the terminal's default, one of the eight named ANSI
/// colors, an indexed 256-color palette entry, or a 24-bit RGB color.
#[derive(Clone, Copy, Debug, PartialEq, Eq, Structural)]
pub enum Color {
    Default,
    Black,
    Red,
    Green,
    Yellow,
    Blue,
    Magenta,
    Cyan,
    White,
    /// A color of the 256-color palette, by index.
    EightBit(u8),
    /// A true color, by red, green and blue components.
    Rgb(u8, u8, u8),
}

impl Default for Color {
    fn default() -> (c: Color)
        ensures
            c == Color::Default,
    {
        Color::Default
    }
}

/// A set of text effects (bold, dim, underline, blink, reverse),
/// represented as a bitset.
#[derive(Clone, Copy, Debug, PartialEq, Eq, Structural)]
pub struct Effect {
    pub bits: u8,
}

pub const BOLD: u8 = 0x01;

pub const DIM: u8 = 0x02;

pub const UNDERLINE: u8 = 0x04;

pub const BLINK: u8 = 0x08;

pub const REVERSE: u8 = 0x10;

impl Effect {
    /// True when every effect of `other` is also in `self`.
    pub open spec fn spec_contains(self, other: Effect) -> bool {
        self.bits & other.bits == other.bits
    }

    /// The empty effect set.
    pub fn empty() -> (r: Effect)
        ensures
            r.bits == 0,
    {
        Effect { bits: 0 }
    }

    /// The effect set holding exactly the given bits.
    pub fn new(bits: u8) -> (r: Effect)
        ensures
            r.bits == bits,
    {
        Effect { bits }
    }

    pub fn bold() -> (r: Effect)
        ensures
            r.bits == BOLD,
    {
        Effect { bits: BOLD }
    }

    pub fn dim() -> (r: Effect)
        ensures
            r.bits == DIM,
    {
        Effect { bits: DIM }
    }

    pub fn underline() -> (r: Effect)
        ensures
            r.bits == UNDERLINE,
    {
        Effect { bits: UNDERLINE }
    }

    pub fn blink() -> (r: Effect)
        ensures
            r.bits == BLINK,
    {
        Effect { bits: BLINK }
    }

    pub fn reverse() -> (r: Effect)
        ensures
            r.bits == REVERSE,
    {
        Effect { bits: REVERSE }
    }

    /// The union of two effect sets.
    pub fn union(self, other: Effect) -> (r: Effect)
        ensures
            r.bits == self.bits | other.bits,
    {
        Effect { bits: self.bits | other.bits }
    }

    /// True when every effect of `other` is also in `self`.
    pub fn contains(self, other: Effect) -> (r: bool)
        ensures
            r == self.spec_contains(other),
    {
        self.bits & other.bits == other.bits
    }
}

/// A rendering attribute: foreground color, background color and text
/// effects. This is everything that qualifies how a character is drawn.
#[derive(Clone, Copy, Debug, PartialEq, Eq, Structural)]
pub struct Attribute {
    pub fg: Color,
    pub bg: Color,
    pub effect: Effect,
}

impl Attribute {
    /// The attribute a freshly cleared terminal cell has: default colors,
    /// no effects.
    pub open spec fn spec_default() -> Attribute {
        Attribute { fg: Color::Default, bg: Color::Default, effect: Effect { bits: 0 } }
    }
}

impl Default for Attribute {
    fn default() -> (a: Attribute)
        ensures
            a == Attribute::spec_default(),
    {
        Attribute { fg: Color::Default, bg: Color::Default, effect: Effect { bits: 0 } }
    }
}

} // verus!
