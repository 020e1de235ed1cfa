//! The event decoder: a pure function from buffered terminal bytes to
//! typed events.

use vstd::prelude::*;

use crate::key::{key_from_byte, spec_key_from_byte, Key};
use crate::terminal::{spec_escaped_key_bytes, Terminal};
use crate::utf8::{decode_char_at, spec_first_char};
use vstd::slice::slice_index_get;

verus! {

/// An input event: a special key, a plain character, or a change of
/// the window size.
#[derive(Clone, Copy, Debug, PartialEq, Eq, Structural)]
pub enum Event {
    /// A special key (a control combination, escape, space, an arrow)
    /// was pressed.
    Key(Key),
    /// The input bytes decoded to an ordinary character.
    Char(char),
    /// The window was resized.
    Resize { width: usize, height: usize },
}

/// True when `pre` is a prefix of `buf`.
pub open spec fn is_prefix(pre: Seq<u8>, buf: Seq<u8>) -> bool {
    pre.len() <= buf.len() && buf.subrange(0, pre.len() as int) == pre
}

/// True when the terminal defines bytes for this arrow key and they
/// are a prefix of the buffer.
pub open spec fn arrow_matches(buf: Seq<u8>, t: &Terminal, k: Key) -> bool {
    match spec_escaped_key_bytes(t, k) {
        Option::Some(b) => is_prefix(b, buf),
        Option::None => false,
    }
}

/// The length of the arrow key's byte string, where one is defined.
pub open spec fn arrow_len(t: &Terminal, k: Key) -> int {
    match spec_escaped_key_bytes(t, k) {
        Option::Some(b) => b.len() as int,
        Option::None => 0,
    }
}

/// The escape-sequence parse: the arrow keys are tried in the fixed
/// order up, down, left, right, and the first whose byte string
/// prefixes the buffer wins.
pub open spec fn spec_parse_escape(buf: Seq<u8>, t: &Terminal) -> Option<(int, Event)> {
    if arrow_matches(buf, t, Key::ArrowUp) {
        Option::Some((arrow_len(t, Key::ArrowUp), Event::Key(Key::ArrowUp)))
    } else if arrow_matches(buf, t, Key::ArrowDown) {
        Option::Some((arrow_len(t, Key::ArrowDown), Event::Key(Key::ArrowDown)))
    } else if arrow_matches(buf, t, Key::ArrowLeft) {
        Option::Some((arrow_len(t, Key::ArrowLeft), Event::Key(Key::ArrowLeft)))
    } else if arrow_matches(buf, t, Key::ArrowRight) {
        Option::Some((arrow_len(t, Key::ArrowRight), Event::Key(Key::ArrowRight)))
    } else {
        Option::None
    }
}

/// True when more bytes could turn the buffer into this arrow key's
/// sequence: the whole buffer is a proper prefix of its byte string.
pub open spec fn arrow_could_extend(buf: Seq<u8>, t: &Terminal, k: Key) -> bool {
    match spec_escaped_key_bytes(t, k) {
        Option::Some(b) => buf.len() < b.len() && b.subrange(0, buf.len() as int) == buf,
        Option::None => false,
    }
}

/// True when more bytes could still complete an arrow-key sequence.
pub open spec fn escape_could_extend(buf: Seq<u8>, t: &Terminal) -> bool {
    ||| arrow_could_extend(buf, t, Key::ArrowUp)
    ||| arrow_could_extend(buf, t, Key::ArrowDown)
    ||| arrow_could_extend(buf, t, Key::ArrowLeft)
    ||| arrow_could_extend(buf, t, Key::ArrowRight)
}

/// What one decoding step yields on `buf`: None asks for more bytes.
/// An escape first tries the arrow-key sequences, and waits while the
/// buffered bytes could still grow into one; otherwise a named control
/// byte (escape itself included) is a key, and anything else decodes
/// as one UTF-8 character.
pub open spec fn spec_parse(buf: Seq<u8>, t: &Terminal) -> Option<(int, Event)> {
    if buf.len() == 0 {
        Option::None
    } else if buf[0] == 0x1b && spec_parse_escape(buf, t) is Some {
        spec_parse_escape(buf, t)
    } else if buf[0] == 0x1b && escape_could_extend(buf, t) {
        Option::None
    } else if spec_key_from_byte(buf[0]) is Some {
        Option::Some((1int, Event::Key(spec_key_from_byte(buf[0]).unwrap())))
    } else {
        match spec_first_char(buf) {
            Option::Some((n, c)) => Option::Some((n, Event::Char(c))),
            Option::None => Option::None,
        }
    }
}

/// A successful parse consumes between zero bytes (only possible for
/// an empty capability string) and the whole buffer.
pub proof fn lemma_spec_parse_len(buf: Seq<u8>, t: &Terminal)
    ensures
        spec_parse(buf, t) matches Some((n, e)) ==> 0 <= n <= buf.len(),
{
}

/// True when `pre` is a prefix of `buf` from position `from` on.
fn starts_with_at(buf: &[u8], from: usize, pre: &Vec<u8>) -> (r: bool)
    requires
        from <= buf@.len(),
    ensures
        r == is_prefix(pre@, buf@.skip(from as int)),
{
    let ghost tail = buf@.skip(from as int);
    let bl = buf.len();
    if bl - from < pre.len() {
        return false;
    }
    let mut j: usize = 0;
    while j < pre.len()
        invariant
            bl == buf@.len(),
            from + pre@.len() <= bl,
            tail == buf@.skip(from as int),
            0 <= j <= pre@.len(),
            forall|k: int| 0 <= k < j ==> tail[k] == pre@[k],
        decreases pre@.len() - j,
    {
        if *slice_index_get(buf, from + j) != pre[j] {
            assert(tail[j as int] != pre@[j as int]);
            assert(!is_prefix(pre@, tail)) by {
                if is_prefix(pre@, tail) {
                    assert(tail.subrange(0, pre@.len() as int)[j as int] == pre@[j as int]);
                }
            }
            return false;
        }
        j = j + 1;
    }
    proof {
        assert(tail.subrange(0, pre@.len() as int) =~= pre@);
    }
    true
}

/// True when the bytes from `from` on are a proper prefix of `pre`.
fn tail_extends_to(buf: &[u8], from: usize, pre: &Vec<u8>) -> (r: bool)
    requires
        from <= buf@.len(),
    ensures
        r == ({
            let tail = buf@.skip(from as int);
            tail.len() < pre@.len() && pre@.subrange(0, tail.len() as int) == tail
        }),
{
    let ghost tail = buf@.skip(from as int);
    let bl = buf.len();
    let tl = bl - from;
    if tl >= pre.len() {
        return false;
    }
    let mut j: usize = 0;
    while j < tl
        invariant
            bl == buf@.len(),
            tl == tail.len(),
            from + tl == bl,
            tl < pre@.len(),
            tail == buf@.skip(from as int),
            0 <= j <= tl,
            forall|k: int| 0 <= k < j ==> tail[k] == pre@[k],
        decreases tl - j,
    {
        if *slice_index_get(buf, from + j) != pre[j] {
            assert(tail[j as int] != pre@[j as int]);
            assert(pre@.subrange(0, tail.len() as int) != tail) by {
                if pre@.subrange(0, tail.len() as int) == tail {
                    assert(pre@.subrange(0, tail.len() as int)[j as int] == pre@[j as int]);
                }
            }
            return false;
        }
        j = j + 1;
    }
    proof {
        assert(pre@.subrange(0, tail.len() as int) =~= tail);
    }
    true
}

/// One decoding step at position `from` of the buffer.
pub fn parse_at(buf: &[u8], from: usize, term: &Terminal) -> (r: Option<(usize, Event)>)
    requires
        from <= buf@.len(),
    ensures
        match r {
            Option::Some((n, e)) => spec_parse(buf@.skip(from as int), term) == Option::Some(
                (n as int, e),
            ) && from + n <= buf@.len(),
            Option::None => spec_parse(buf@.skip(from as int), term) is None,
        },
{
    let ghost tail = buf@.skip(from as int);
    if from == buf.len() {
        return None;
    }
    let b0 = *slice_index_get(buf, from);
    assert(tail[0] == b0);
    if b0 == 0x1b {
        match term.escaped_key_bytes(Key::ArrowUp) {
            Some(b) => {
                if starts_with_at(buf, from, b) {
                    return Some((b.len(), Event::Key(Key::ArrowUp)));
                }
            },
            None => {},
        }
        match term.escaped_key_bytes(Key::ArrowDown) {
            Some(b) => {
                if starts_with_at(buf, from, b) {
                    return Some((b.len(), Event::Key(Key::ArrowDown)));
                }
            },
            None => {},
        }
        match term.escaped_key_bytes(Key::ArrowLeft) {
            Some(b) => {
                if starts_with_at(buf, from, b) {
                    return Some((b.len(), Event::Key(Key::ArrowLeft)));
                }
            },
            None => {},
        }
        match term.escaped_key_bytes(Key::ArrowRight) {
            Some(b) => {
                if starts_with_at(buf, from, b) {
                    return Some((b.len(), Event::Key(Key::ArrowRight)));
                }
            },
            None => {},
        }
        // more bytes could still complete an arrow sequence: wait
        match term.escaped_key_bytes(Key::ArrowUp) {
            Some(b) => {
                if tail_extends_to(buf, from, b) {
                    return None;
                }
            },
            None => {},
        }
        match term.escaped_key_bytes(Key::ArrowDown) {
            Some(b) => {
                if tail_extends_to(buf, from, b) {
                    return None;
                }
            },
            None => {},
        }
        match term.escaped_key_bytes(Key::ArrowLeft) {
            Some(b) => {
                if tail_extends_to(buf, from, b) {
                    return None;
                }
            },
            None => {},
        }
        match term.escaped_key_bytes(Key::ArrowRight) {
            Some(b) => {
                if tail_extends_to(buf, from, b) {
                    return None;
                }
            },
            None => {},
        }
    }
    match key_from_byte(b0) {
        Some(k) => {
            return Some((1, Event::Key(k)));
        },
        None => {},
    }
    match decode_char_at(buf, from) {
        Some((n, c)) => Some((n, Event::Char(c))),
        None => None,
    }
}

/// One decoding step on the whole buffer. None means the buffered
/// bytes are not enough yet.
pub fn parse(buf: &[u8], term: &Terminal) -> (r: Option<(usize, Event)>)
    ensures
        match r {
            Option::Some((n, e)) => spec_parse(buf@, term) == Option::Some((n as int, e)) && n
                <= buf@.len(),
            Option::None => spec_parse(buf@, term) is None,
        },
{
    proof {
        assert(buf@.skip(0) =~= buf@);
    }
    parse_at(buf, 0, term)
}

/// The events obtained by decoding from position `from` until the
/// decoder asks for more bytes, with the position of the undecoded
/// tail. A step that consumes nothing stops the drain.
pub open spec fn spec_drain(buf: Seq<u8>, t: &Terminal, from: int) -> (Seq<Event>, int)
    decreases buf.len() - from,
    when 0 <= from <= buf.len()
{
    match spec_parse(buf.skip(from), t) {
        Option::None => (Seq::empty(), from),
        Option::Some((n, e)) => {
            if n < 1 || from + n > buf.len() {
                (Seq::empty(), from)
            } else {
                let rest = spec_drain(buf, t, from + n);
                (seq![e] + rest.0, rest.1)
            }
        },
    }
}

/// Decodes as many events as the buffered bytes hold, returning them
/// with the position where the undecodable tail begins. The tail is
/// what the caller keeps until more bytes arrive.
pub fn drain_events(buf: &[u8], term: &Terminal) -> (r: (Vec<Event>, usize))
    ensures
        r.0@ == spec_drain(buf@, term, 0).0,
        r.1 == spec_drain(buf@, term, 0).1,
        r.1 <= buf@.len(),
{
    let mut events: Vec<Event> = Vec::new();
    let mut from: usize = 0;
    let mut stop = false;
    let bl = buf.len();
    proof {
        lemma_spec_drain_end(buf@, term, 0);
    }
    while !stop
        invariant
            bl == buf@.len(),
            bl <= usize::MAX,
            0 <= from <= buf@.len(),
            stop ==> spec_drain(buf@, term, 0).0 == events@,
            stop ==> spec_drain(buf@, term, 0).1 == from as int,
            !stop ==> spec_drain(buf@, term, 0).0 == events@ + spec_drain(
                buf@,
                term,
                from as int,
            ).0,
            !stop ==> spec_drain(buf@, term, 0).1 == spec_drain(buf@, term, from as int).1,
        decreases buf@.len() - from + (if stop {
            0int
        } else {
            1int
        }),
    {
        match parse_at(buf, from, term) {
            Some((n, e)) => {
                if n == 0 {
                    proof {
                        assert(spec_drain(buf@, term, from as int).0 =~= Seq::<Event>::empty());
                        assert(events@ + Seq::<Event>::empty() =~= events@);
                    }
                    stop = true;
                } else {
                    proof {
                        let rest = spec_drain(buf@, term, from + n);
                        assert(spec_drain(buf@, term, from as int).0 == seq![e] + rest.0);
                        assert((events@ + (seq![e] + rest.0)) =~= (events@ + seq![e]) + rest.0);
                        assert(events@.push(e) =~= events@ + seq![e]);
                    }
                    events.push(e);
                    from = from + n;
                }
            },
            None => {
                proof {
                    assert(spec_drain(buf@, term, from as int).0 =~= Seq::<Event>::empty());
                    assert(events@ + Seq::<Event>::empty() =~= events@);
                }
                stop = true;
            },
        }
    }
    (events, from)
}

/// True when an arrow key tried before `k` in the escape-parse order
/// matches the buffer, so that parsing would yield that key instead.
pub open spec fn earlier_arrow_matches(buf: Seq<u8>, t: &Terminal, k: Key) -> bool {
    match k {
        Key::ArrowUp => false,
        Key::ArrowDown => arrow_matches(buf, t, Key::ArrowUp),
        Key::ArrowLeft => arrow_matches(buf, t, Key::ArrowUp) || arrow_matches(
            buf,
            t,
            Key::ArrowDown,
        ),
        Key::ArrowRight => arrow_matches(buf, t, Key::ArrowUp) || arrow_matches(
            buf,
            t,
            Key::ArrowDown,
        ) || arrow_matches(buf, t, Key::ArrowLeft),
        _ => true,
    }
}

/// Law (round trip for keys): the byte string the terminal defines
/// for an arrow key, fed back to the decoder with anything behind it,
/// parses to exactly that key and consumes exactly those bytes —
/// provided the string starts with escape, as terminfo arrow
/// sequences do, and no arrow tried earlier in the fixed order
/// matches the buffer.
pub proof fn lemma_parse_arrow_roundtrip(t: &Terminal, k: Key, rest: Seq<u8>)
    requires
        spec_escaped_key_bytes(t, k) matches Some(b) && b.len() >= 1 && b[0] == 0x1b,
        !earlier_arrow_matches(spec_escaped_key_bytes(t, k).unwrap() + rest, t, k),
    ensures
        spec_parse(spec_escaped_key_bytes(t, k).unwrap() + rest, t) == Some(
            (spec_escaped_key_bytes(t, k).unwrap().len() as int, Event::Key(k)),
        ),
{
    let b = spec_escaped_key_bytes(t, k).unwrap();
    let buf = b + rest;
    assert(buf[0] == 0x1b);
    assert(buf.subrange(0, b.len() as int) =~= b);
    assert(arrow_matches(buf, t, k));
    assert(spec_parse_escape(buf, t) == Some((b.len() as int, Event::Key(k))));
}

/// Law (round trip for characters): the UTF-8 encoding of any
/// character that is not one of the named control bytes, fed back to
/// the decoder with anything behind it, parses to exactly that
/// character and consumes exactly its encoding.
pub proof fn lemma_parse_char_roundtrip(t: &Terminal, c: char, rest: Seq<u8>)
    requires
        !(1 <= c as u32 <= 0x1b),
        c as u32 != 0x20,
    ensures
        spec_parse(vstd::utf8::encode_scalar(c as u32) + rest, t) == Some(
            (vstd::utf8::encode_scalar(c as u32).len() as int, Event::Char(c)),
        ),
{
    vstd::utf8::char_is_scalar(c);
    crate::utf8::lemma_first_char_of_encoding(c, rest);
    let v = c as u32;
    let enc = vstd::utf8::encode_scalar(v);
    let buf = enc + rest;
    assert(buf[0] == enc[0]);
    if v <= 0x7f {
        assert(enc[0] == vstd::utf8::leading_byte_width_1(v));
        assert(vstd::utf8::leading_byte_width_1(v) == v as u8) by (bit_vector)
            requires
                v <= 0x7f,
        ;
        assert(!(1 <= buf[0] <= 0x1b) && buf[0] != 0x20);
        assert(spec_key_from_byte(buf[0]) is None);
    } else {
        let b0 = enc[0];
        if v <= 0x7ff {
            assert(b0 == vstd::utf8::leading_byte_width_2(v));
            assert(vstd::utf8::leading_byte_width_2(v) >= 0xc0) by (bit_vector);
        } else if v <= 0xffff {
            assert(b0 == vstd::utf8::leading_byte_width_3(v));
            assert(vstd::utf8::leading_byte_width_3(v) >= 0xc0) by (bit_vector);
        } else {
            assert(b0 == vstd::utf8::leading_byte_width_4(v));
            assert(vstd::utf8::leading_byte_width_4(v) >= 0xc0) by (bit_vector);
        }
        assert(buf[0] >= 0xc0);
        assert(buf[0] != 0x1b);
        assert(spec_key_from_byte(buf[0]) is None);
    }
}

/// The tail position a drain reports never passes the end of the
/// buffer.
pub proof fn lemma_spec_drain_end(buf: Seq<u8>, t: &Terminal, from: int)
    requires
        0 <= from <= buf.len(),
    ensures
        from <= spec_drain(buf, t, from).1 <= buf.len(),
    decreases buf.len() - from,
{
    match spec_parse(buf.skip(from), t) {
        Option::None => {},
        Option::Some((n, e)) => {
            if !(n < 1 || from + n > buf.len()) {
                lemma_spec_drain_end(buf, t, from + n);
            }
        },
    }
}

} // verus!
