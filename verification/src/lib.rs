//! A thread-safe text user-interface library: paint a grid of cells in
//! an in-memory buffer, and flush renders the minimal delta to the
//! terminal. Keyboard bytes decode to typed events.
//!
//! This crate holds the verified core: the screen buffer and its diff
//! engine, the event decoder, and the mapping from rendering commands to
//! terminal control bytes.

use vstd::prelude::*;

pub mod attr;
pub mod event;
pub mod key;
pub mod screen;
pub mod terminal;
pub mod utf8;

verus! {

/// Display width in terminal columns of a single character, as the
/// width tables give it: 1 for ordinary characters, 2 for East-Asian
/// wide characters, 0 for combining marks.
pub uninterp spec fn char_width(c: char) -> nat;

/// Relies on unicode_width's UnicodeWidthChar::width: the result
/// depends on the character alone; the width tables go up to 3 columns;
/// every character up to 0x7f is a single column (a control character
/// reports no width there and counts as one column here).
#[verifier::external_body]
pub fn display_width_of_char(c: char) -> (r: usize)
    ensures
        r == char_width(c),
        r <= 3,
        c as u32 <= 0x7f ==> r == 1,
{
    unicode_width::UnicodeWidthChar::width(c).unwrap_or(1)
}

/// Total display width of a character sequence: the sum of the widths
/// of its characters.
pub open spec fn str_width(s: Seq<char>) -> nat
    decreases s.len(),
{
    if s.len() == 0 {
        0
    } else {
        char_width(s[0]) + str_width(s.drop_first())
    }
}

/// A width that may exceed the machine word, clamped to `usize`.
pub open spec fn width_as_usize(n: nat) -> usize {
    if n > usize::MAX {
        usize::MAX
    } else {
        n as usize
    }
}

/// Display width of characters and strings, in terminal columns.
pub trait DisplayWidth {
    /// The width in columns, as a mathematical value.
    spec fn spec_display_width(&self) -> nat;

    /// The width in columns; a total that would not fit the machine
    /// word is clamped to `usize::MAX`.
    fn display_width(&self) -> (r: usize)
        ensures
            r == width_as_usize(self.spec_display_width()),
    ;
}

impl DisplayWidth for char {
    open spec fn spec_display_width(&self) -> nat {
        char_width(*self)
    }

    fn display_width(&self) -> (r: usize)
        ensures
            r == width_as_usize(self.spec_display_width()),
    {
        display_width_of_char(*self)
    }
}

/// The UTF-8 encoding of a character sequence is at least as long as
/// the sequence itself.
proof fn lemma_encode_len_ge(s: Seq<char>)
    ensures
        vstd::utf8::encode_utf8(s).len() >= s.len(),
    decreases s.len(),
{
    if s.len() > 0 {
        lemma_encode_len_ge(s.drop_first());
    }
}

impl DisplayWidth for str {
    open spec fn spec_display_width(&self) -> nat {
        str_width(self@)
    }

    fn display_width(&self) -> (r: usize)
        ensures
            r == width_as_usize(self.spec_display_width()),
    {
        let bytes = self.as_bytes();
        proof {
            vstd::utf8::encode_utf8_valid_utf8(self@);
            vstd::utf8::encode_utf8_decode_utf8(self@);
            lemma_encode_len_ge(self@);
            assert(bytes@.skip(0) =~= bytes@);
            assert(self@.skip(0) =~= self@);
        }
        let bl = bytes.len();
        let mut pos: usize = 0;
        let mut total: u128 = 0;
        let ghost mut done: int = 0;
        while pos < bl
            invariant
                bytes@ == vstd::utf8::encode_utf8(self@),
                bl == bytes@.len(),
                self@.len() <= bl,
                0 <= pos <= bl,
                0 <= done <= self@.len(),
                vstd::utf8::valid_utf8(bytes@.skip(pos as int)),
                vstd::utf8::decode_utf8(bytes@.skip(pos as int)) == self@.skip(done),
                str_width(self@) == total + str_width(self@.skip(done)),
                total <= 3 * done,
                pos == bl <==> done == self@.len(),
            decreases bl - pos,
        {
            let ghost suffix = bytes@.skip(pos as int);
            proof {
                utf8::lemma_first_char_of_valid_utf8(suffix);
            }
            let r = utf8::decode_char_at(bytes, pos);
            match r {
                Some((n, c)) => {
                    let cw = display_width_of_char(c);
                    proof {
                        assert(c == self@.skip(done)[0]);
                        assert(c == self@[done]);
                        assert(self@.skip(done).drop_first() =~= self@.skip(done + 1));
                        assert(suffix.skip(n as int) =~= bytes@.skip(pos as int + n as int));
                        assert(str_width(self@.skip(done)) == char_width(c) + str_width(
                            self@.skip(done + 1),
                        ));
                    }
                    total = total + (cw as u128);
                    pos = pos + n;
                    proof {
                        done = done + 1;
                        assert(bytes@.skip(pos as int).len() == 0 ==> self@.skip(done).len() == 0);
                        assert(self@.skip(done).len() == 0 ==> bytes@.skip(pos as int).len() == 0)
                            by {
                            if self@.skip(done).len() == 0 {
                                assert(vstd::utf8::decode_utf8(bytes@.skip(pos as int)).len() == 0);
                                if bytes@.skip(pos as int).len() != 0 {
                                    utf8::lemma_first_char_of_valid_utf8(bytes@.skip(pos as int));
                                }
                            }
                        }
                    }
                },
                None => {
                    proof {
                        assert(false);
                    }
                },
            }
        }
        proof {
            assert(self@.skip(done) =~= Seq::<char>::empty());
            assert(str_width(self@) == total);
        }
        if total > (usize::MAX as u128) {
            usize::MAX
        } else {
            total as usize
        }
    }
}

} // verus!
