//! The closed set of special keys that the input pipeline reports.

use vstd::prelude::*;

verus! {

/// A special key: the 26 control combinations, escape, space, and the
/// four arrow keys. Plain printable characters are reported as characters,
/// not as keys.
#[derive(Clone, Copy, Debug, PartialEq, Eq, Structural)]
pub enum Key {
    CtrlA,
    CtrlB,
    CtrlC,
    CtrlD,
    CtrlE,
    CtrlF,
    CtrlG,
    CtrlH,
    CtrlI,
    CtrlJ,
    CtrlK,
    CtrlL,
    CtrlM,
    CtrlN,
    CtrlO,
    CtrlP,
    CtrlQ,
    CtrlR,
    CtrlS,
    CtrlT,
    CtrlU,
    CtrlV,
    CtrlW,
    CtrlX,
    CtrlY,
    CtrlZ,
    ESC,
    Space,
    ArrowUp,
    ArrowDown,
    ArrowLeft,
    ArrowRight,
}

#[allow(non_upper_case_globals)]
pub const Backspace: Key = Key::CtrlH;

#[allow(non_upper_case_globals)]
pub const Tab: Key = Key::CtrlI;

#[allow(non_upper_case_globals)]
pub const Enter: Key = Key::CtrlM;

/// The key that a single control byte stands for, if any: 0x01 through
/// 0x1a are the control combinations, 0x1b is escape, 0x20 is space.
pub open spec fn spec_key_from_byte(b: u8) -> Option<Key> {
    if b == 0x01 {
        Some(Key::CtrlA)
    } else if b == 0x02 {
        Some(Key::CtrlB)
    } else if b == 0x03 {
        Some(Key::CtrlC)
    } else if b == 0x04 {
        Some(Key::CtrlD)
    } else if b == 0x05 {
        Some(Key::CtrlE)
    } else if b == 0x06 {
        Some(Key::CtrlF)
    } else if b == 0x07 {
        Some(Key::CtrlG)
    } else if b == 0x08 {
        Some(Key::CtrlH)
    } else if b == 0x09 {
        Some(Key::CtrlI)
    } else if b == 0x0a {
        Some(Key::CtrlJ)
    } else if b == 0x0b {
        Some(Key::CtrlK)
    } else if b == 0x0c {
        Some(Key::CtrlL)
    } else if b == 0x0d {
        Some(Key::CtrlM)
    } else if b == 0x0e {
        Some(Key::CtrlN)
    } else if b == 0x0f {
        Some(Key::CtrlO)
    } else if b == 0x10 {
        Some(Key::CtrlP)
    } else if b == 0x11 {
        Some(Key::CtrlQ)
    } else if b == 0x12 {
        Some(Key::CtrlR)
    } else if b == 0x13 {
        Some(Key::CtrlS)
    } else if b == 0x14 {
        Some(Key::CtrlT)
    } else if b == 0x15 {
        Some(Key::CtrlU)
    } else if b == 0x16 {
        Some(Key::CtrlV)
    } else if b == 0x17 {
        Some(Key::CtrlW)
    } else if b == 0x18 {
        Some(Key::CtrlX)
    } else if b == 0x19 {
        Some(Key::CtrlY)
    } else if b == 0x1a {
        Some(Key::CtrlZ)
    } else if b == 0x1b {
        Some(Key::ESC)
    } else if b == 0x20 {
        Some(Key::Space)
    } else {
        None
    }
}

/// Maps a single input byte to the special key it stands for, if any.
pub fn key_from_byte(b: u8) -> (r: Option<Key>)
    ensures
        r == spec_key_from_byte(b),
{
    match b {
        0x01 => Some(Key::CtrlA),
        0x02 => Some(Key::CtrlB),
        0x03 => Some(Key::CtrlC),
        0x04 => Some(Key::CtrlD),
        0x05 => Some(Key::CtrlE),
        0x06 => Some(Key::CtrlF),
        0x07 => Some(Key::CtrlG),
        0x08 => Some(Key::CtrlH),
        0x09 => Some(Key::CtrlI),
        0x0a => Some(Key::CtrlJ),
        0x0b => Some(Key::CtrlK),
        0x0c => Some(Key::CtrlL),
        0x0d => Some(Key::CtrlM),
        0x0e => Some(Key::CtrlN),
        0x0f => Some(Key::CtrlO),
        0x10 => Some(Key::CtrlP),
        0x11 => Some(Key::CtrlQ),
        0x12 => Some(Key::CtrlR),
        0x13 => Some(Key::CtrlS),
        0x14 => Some(Key::CtrlT),
        0x15 => Some(Key::CtrlU),
        0x16 => Some(Key::CtrlV),
        0x17 => Some(Key::CtrlW),
        0x18 => Some(Key::CtrlX),
        0x19 => Some(Key::CtrlY),
        0x1a => Some(Key::CtrlZ),
        0x1b => Some(Key::ESC),
        0x20 => Some(Key::Space),
        _ => None,
    }
}

} // verus!
