//! UTF-8 decoding and encoding of single characters, verified against
//! vstd's model of UTF-8.

use vstd::prelude::*;
use vstd::slice::slice_index_get;
use vstd::utf8::*;

verus! {

/// Relies on core's char::from_u32: it returns Some exactly on Unicode
/// scalar values (at most 0x10FFFF and not a surrogate), and the
/// character it returns has the given value.
pub assume_specification[ char::from_u32 ](v: u32) -> (r: Option<char>)
    ensures
        r is Some <==> is_scalar(v),
        r matches Some(c) ==> c as u32 == v,
;

/// The first scalar encoded in `bytes` together with the byte length of
/// its encoding, or None when `bytes` does not begin with the complete,
/// well-formed UTF-8 encoding of one scalar.
pub open spec fn spec_first_char(bytes: Seq<u8>) -> Option<(int, char)> {
    if valid_first_scalar(bytes) {
        Some((length_of_first_scalar(bytes), decode_first_scalar(bytes) as char))
    } else {
        None
    }
}

/// Decodes the UTF-8 character starting at `buf[from]`. Returns the
/// number of bytes of its encoding and the character, or None when the
/// bytes from `from` on do not begin with a complete well-formed
/// encoding.
pub fn decode_char_at(buf: &[u8], from: usize) -> (r: Option<(usize, char)>)
    requires
        from <= buf@.len(),
    ensures
        match r {
            Option::None => spec_first_char(buf@.skip(from as int)) is None,
            Option::Some((n, c)) => spec_first_char(buf@.skip(from as int)) == Option::Some(
                (n as int, c),
            ),
        },
{
    let ghost tail = buf@.skip(from as int);
    let len = buf.len();
    assert(tail.len() == len - from);
    if from == len {
        return None;
    }
    let b0 = *slice_index_get(buf, from);
    assert(tail[0] == b0);
    if b0 < 0x80 {
        let c = b0 as char;
        assert(is_leading_byte_width_1(b0));
        assert(valid_first_scalar(tail));
        assert(decode_first_scalar(tail) == leading_bits_width_1(b0));
        assert(leading_bits_width_1(b0) == b0 as u32) by (bit_vector)
            requires
                b0 < 0x80,
        ;
        assert(c as u32 == b0 as u32);
        proof {
            char_u32_cast(c, b0 as u32);
        }
        Some((1, c))
    } else if b0 < 0xc0 {
        // a continuation byte cannot lead an encoding
        assert(!valid_first_scalar(tail));
        None
    } else if b0 < 0xe0 {
        if len - from < 2 {
            assert(!valid_first_scalar(tail));
            return None;
        }
        let b1 = *slice_index_get(buf, from + 1);
        assert(tail[1] == b1);
        if !(0x80 <= b1 && b1 < 0xc0) {
            assert(!valid_first_scalar(tail));
            return None;
        }
        let v: u32 = ((((b0 & 0x1f) as u32) << 6u32) | ((b1 & 0x3f) as u32)) as u32;
        assert(v == codepoint_width_2(b0, b1));
        if v < 0x80 {
            // overlong two-byte encoding
            assert(!valid_first_scalar(tail));
            return None;
        }
        assert(v <= 0x7ff) by (bit_vector)
            requires
                v == ((((b0 & 0x1f) as u32) << 6u32) | ((b1 & 0x3f) as u32)) as u32,
        ;
        assert(valid_first_scalar(tail));
        match char::from_u32(v) {
            Some(c) => {
                proof {
                    char_u32_cast(c, v);
                }
                Some((2, c))
            },
            None => {
                proof {
                    assert(false);
                }
                None
            },
        }
    } else if b0 < 0xf0 {
        if len - from < 3 {
            assert(!valid_first_scalar(tail));
            return None;
        }
        let b1 = *slice_index_get(buf, from + 1);
        let b2 = *slice_index_get(buf, from + 2);
        assert(tail[1] == b1 && tail[2] == b2);
        if !(0x80 <= b1 && b1 < 0xc0) || !(0x80 <= b2 && b2 < 0xc0) {
            assert(!valid_first_scalar(tail));
            return None;
        }
        let v: u32 = ((((b0 & 0x0f) as u32) << 12u32) | (((b1 & 0x3f) as u32) << 6u32) | ((b2
            & 0x3f) as u32)) as u32;
        assert(v == codepoint_width_3(b0, b1, b2));
        if v < 0x800 || (0xd800 <= v && v <= 0xdfff) {
            // overlong encoding or surrogate value
            assert(!valid_first_scalar(tail));
            return None;
        }
        assert(v <= 0xffff) by (bit_vector)
            requires
                v == ((((b0 & 0x0f) as u32) << 12u32) | (((b1 & 0x3f) as u32) << 6u32) | ((b2
                    & 0x3f) as u32)) as u32,
        ;
        assert(valid_first_scalar(tail));
        match char::from_u32(v) {
            Some(c) => {
                proof {
                    char_u32_cast(c, v);
                }
                Some((3, c))
            },
            None => {
                proof {
                    assert(false);
                }
                None
            },
        }
    } else if b0 < 0xf8 {
        if len - from < 4 {
            assert(!valid_first_scalar(tail));
            return None;
        }
        let b1 = *slice_index_get(buf, from + 1);
        let b2 = *slice_index_get(buf, from + 2);
        let b3 = *slice_index_get(buf, from + 3);
        assert(tail[1] == b1 && tail[2] == b2 && tail[3] == b3);
        if !(0x80 <= b1 && b1 < 0xc0) || !(0x80 <= b2 && b2 < 0xc0) || !(0x80 <= b3 && b3 < 0xc0) {
            assert(!valid_first_scalar(tail));
            return None;
        }
        let v: u32 = ((((b0 & 0x07) as u32) << 18u32) | (((b1 & 0x3f) as u32) << 12u32) | (((b2
            & 0x3f) as u32) << 6u32) | ((b3 & 0x3f) as u32)) as u32;
        assert(v == codepoint_width_4(b0, b1, b2, b3));
        if v < 0x10000 || v > 0x10ffff {
            // overlong encoding or beyond the last scalar value
            assert(!valid_first_scalar(tail));
            return None;
        }
        assert(valid_first_scalar(tail));
        match char::from_u32(v) {
            Some(c) => {
                proof {
                    char_u32_cast(c, v);
                }
                Some((4, c))
            },
            None => {
                proof {
                    assert(false);
                }
                None
            },
        }
    } else {
        assert(!valid_first_scalar(tail));
        None
    }
}

/// Encodes one character as its UTF-8 byte sequence.
pub fn encode_char(c: char) -> (r: Vec<u8>)
    ensures
        r@ == encode_scalar(c as u32),
        1 <= r@.len() <= 4,
{
    proof {
        char_is_scalar(c);
    }
    let v = c as u32;
    let mut out: Vec<u8> = Vec::new();
    if v < 0x80 {
        out.push(v as u8);
        assert(v as u8 == leading_byte_width_1(v)) by (bit_vector)
            requires
                v < 0x80,
        ;
        assert(out@ =~= encode_scalar(c as u32));
    } else if v < 0x800 {
        out.push(0xc0 | (((v >> 6u32) & 0x1f) as u8));
        out.push(0x80 | ((v & 0x3f) as u8));
        assert(out@ =~= encode_scalar(c as u32));
    } else if v < 0x10000 {
        out.push(0xe0 | (((v >> 12u32) & 0x0f) as u8));
        out.push(0x80 | (((v >> 6u32) & 0x3f) as u8));
        out.push(0x80 | ((v & 0x3f) as u8));
        assert(out@ =~= encode_scalar(c as u32));
    } else {
        out.push(0xf0 | (((v >> 18u32) & 0x7) as u8));
        out.push(0x80 | (((v >> 12u32) & 0x3f) as u8));
        out.push(0x80 | (((v >> 6u32) & 0x3f) as u8));
        out.push(0x80 | ((v & 0x3f) as u8));
        assert(out@ =~= encode_scalar(c as u32));
    }
    out
}

/// The first character of a well-formed UTF-8 sequence is what
/// decoding yields, and the rest of the sequence is again well formed.
pub proof fn lemma_first_char_of_valid_utf8(bytes: Seq<u8>)
    requires
        valid_utf8(bytes),
        bytes.len() > 0,
    ensures
        spec_first_char(bytes) matches Some((n, c)) && 1 <= n <= bytes.len() && c == decode_utf8(
            bytes,
        )[0] && valid_utf8(bytes.skip(n)) && decode_utf8(bytes.skip(n)) == decode_utf8(
            bytes,
        ).drop_first(),
{
    assert(valid_first_scalar(bytes));
    let n = length_of_first_scalar(bytes);
    assert(1 <= n <= bytes.len());
    assert(pop_first_scalar(bytes) =~= bytes.skip(n));
}

/// Prepending the encoding of a character to any byte sequence yields a
/// sequence whose first decoded character is that character.
pub proof fn lemma_first_char_of_encoding(c: char, rest: Seq<u8>)
    ensures
        spec_first_char(encode_scalar(c as u32) + rest) == Some(
            (encode_scalar(c as u32).len() as int, c),
        ),
{
    char_is_scalar(c);
    encode_utf8_first_scalar(seq![c]);
    let enc = encode_scalar(c as u32);
    assert(encode_utf8(seq![c]) =~= enc) by {
        assert(seq![c].drop_first() =~= Seq::<char>::empty());
        assert(encode_utf8(seq![c].drop_first()) =~= Seq::<u8>::empty());
    }
    let all = enc + rest;
    assert(all[0] == enc[0]);
    assert(forall|i: int| 0 <= i < enc.len() ==> all[i] == enc[i]);
    assert(valid_first_scalar(enc));
    assert(length_of_first_scalar(enc) == enc.len());
    assert(valid_leading_and_continuation_bytes_first_codepoint(all));
    assert(decode_first_codepoint(all) == decode_first_codepoint(enc));
    assert(length_of_first_codepoint(all) == length_of_first_codepoint(enc));
    assert(valid_first_scalar(all));
    assert(decode_first_scalar(all) == c as u32);
    char_u32_cast(c, (c as u32) as u32);
    assert((decode_first_scalar(all) as char) == c);
}

} // verus!
