//! The percent-codec: the mathematical model of percent-encoding and
//! percent-decoding of URI parameter values, the trusted calls into the
//! codec crate, and the round-trip laws that relate the two directions.

use vstd::prelude::*;
use vstd::utf8::encode_scalar;
use vstd::utf8::encode_utf8;
use vstd::utf8::decode_utf8;
use vstd::utf8::valid_utf8;

verus! {

/// True for bytes that the URI writer escapes: the ASCII controls and
/// DEL, every non-ASCII byte, `%` (always escaped so that decoding is
/// unambiguous), and the separators space, `&`, `=` and `?` that would
/// break the `key=value&key=value` grammar.
pub open spec fn needs_escape(b: u8) -> bool {
    b <= 0x1f || b >= 0x7f || b == 0x20 || b == 0x25 || b == 0x26 || b == 0x3d || b == 0x3f
}

/// The upper-case hexadecimal digit of a nibble.
pub open spec fn hex_char(n: u8) -> char {
    if n == 0 {
        '0'
    } else if n == 1 {
        '1'
    } else if n == 2 {
        '2'
    } else if n == 3 {
        '3'
    } else if n == 4 {
        '4'
    } else if n == 5 {
        '5'
    } else if n == 6 {
        '6'
    } else if n == 7 {
        '7'
    } else if n == 8 {
        '8'
    } else if n == 9 {
        '9'
    } else if n == 10 {
        'A'
    } else if n == 11 {
        'B'
    } else if n == 12 {
        'C'
    } else if n == 13 {
        'D'
    } else if n == 14 {
        'E'
    } else {
        'F'
    }
}

/// A hexadecimal digit as the decoder accepts it: either case.
pub open spec fn is_hex_char(c: char) -> bool {
    (0x30 <= c as u32 && c as u32 <= 0x39) || (0x41 <= c as u32 && c as u32 <= 0x46) || (0x61
        <= c as u32 && c as u32 <= 0x66)
}

/// The value of a hexadecimal digit.
pub open spec fn hex_val(c: char) -> u8 {
    if 0x30 <= c as u32 && c as u32 <= 0x39 {
        (c as u32 - 0x30) as u8
    } else if 0x41 <= c as u32 && c as u32 <= 0x46 {
        (c as u32 - 0x37) as u8
    } else if 0x61 <= c as u32 && c as u32 <= 0x66 {
        (c as u32 - 0x57) as u8
    } else {
        0
    }
}

/// A well-formed percent-encoded text: every `%` is followed by two
/// hexadecimal digits.
pub open spec fn pct_wf(s: Seq<char>) -> bool
    decreases s.len(),
{
    if s.len() == 0 {
        true
    } else if s[0] == '%' {
        s.len() >= 3 && is_hex_char(s[1]) && is_hex_char(s[2]) && pct_wf(
            s.subrange(3, s.len() as int),
        )
    } else {
        pct_wf(s.subrange(1, s.len() as int))
    }
}

/// The bytes a well-formed percent-encoded text decodes to: each `%XY`
/// becomes the byte `0xXY`, and every other character passes through as
/// its UTF-8 bytes.
pub open spec fn pct_decode(s: Seq<char>) -> Seq<u8>
    decreases s.len(),
{
    if s.len() == 0 {
        Seq::empty()
    } else if s[0] == '%' {
        if s.len() >= 3 {
            seq![(16 * hex_val(s[1]) + hex_val(s[2])) as u8] + pct_decode(
                s.subrange(3, s.len() as int),
            )
        } else {
            Seq::empty()
        }
    } else {
        encode_scalar(s[0] as u32) + pct_decode(s.subrange(1, s.len() as int))
    }
}

/// The text that percent-encoding one byte produces.
pub open spec fn pct_encode_byte(b: u8) -> Seq<char> {
    if needs_escape(b) {
        seq!['%', hex_char(b / 16), hex_char(b % 16)]
    } else {
        seq![b as char]
    }
}

/// The text that percent-encoding a byte sequence produces.
pub open spec fn pct_encode(bs: Seq<u8>) -> Seq<char>
    decreases bs.len(),
{
    if bs.len() == 0 {
        Seq::empty()
    } else {
        pct_encode_byte(bs[0]) + pct_encode(bs.drop_first())
    }
}

/// The decode error of the codec crate, carried through unread.
#[verifier::external_type_specification]
#[verifier::external_body]
pub struct ExPercentDecodeError(percent_encoding_rfc3986::PercentDecodeError);

/// Relies on `percent_encoding_rfc3986::percent_decode`: it fails exactly
/// when some `%` is not followed by two hexadecimal digits, and on success
/// it turns each `%XY` into the byte `0xXY` and passes every other byte of
/// the text through unchanged.
#[verifier::external_body]
pub(crate) fn pct_decode_exec(s: &str) -> (r: Result<
    Vec<u8>,
    percent_encoding_rfc3986::PercentDecodeError,
>)
    ensures
        r is Ok <==> pct_wf(s@),
        r is Ok ==> r->Ok_0@ == pct_decode(s@),
{
    percent_encoding_rfc3986::percent_decode(s.as_bytes()).map(|d| d.collect())
}

/// Relies on the validation step of `percent_encoding_rfc3986::percent_decode`:
/// constructing the decoder succeeds exactly when every `%` in the text is
/// followed by two hexadecimal digits; nothing is decoded yet.
#[verifier::external_body]
pub(crate) fn pct_validate_exec(s: &str) -> (r: Result<
    (),
    percent_encoding_rfc3986::PercentDecodeError,
>)
    ensures
        r is Ok <==> pct_wf(s@),
{
    percent_encoding_rfc3986::percent_decode(s.as_bytes()).map(|_| ())
}

/// Relies on `percent_encoding_rfc3986::percent_encode_byte`: the returned
/// text is `%` followed by the two upper-case hexadecimal digits of the byte.
#[verifier::external_body]
fn pct_encode_byte_exec(b: u8) -> (r: &'static str)
    ensures
        r@ == seq!['%', hex_char(b / 16), hex_char(b % 16)],
{
    percent_encoding_rfc3986::percent_encode_byte(b)
}

/// Relies on `String::push`: it appends exactly the given character.
#[verifier::external_body]
pub(crate) fn push_char(s: &mut String, c: char)
    ensures
        final(s)@ == old(s)@ + seq![c],
{
    s.push(c);
}

/// Relies on `String::from_utf8`: it succeeds exactly on valid UTF-8 and
/// returns the text those bytes encode.
#[verifier::external_body]
pub(crate) fn string_from_utf8(v: Vec<u8>) -> (r: Option<String>)
    ensures
        r is Some <==> valid_utf8(v@),
        r is Some ==> r->0@ == decode_utf8(v@),
{
    String::from_utf8(v).ok()
}

/// Whether the URI writer escapes this byte.
pub(crate) fn needs_escape_exec(b: u8) -> (r: bool)
    ensures
        r == needs_escape(b),
{
    b <= 0x1f || b >= 0x7f || b == 0x20 || b == 0x25 || b == 0x26 || b == 0x3d || b == 0x3f
}

/// Percent-encodes a value for the parameter part of a URI.
pub(crate) fn pct_encode_exec(bs: &[u8]) -> (r: String)
    ensures
        r@ == pct_encode(bs@),
{
    let mut out = String::new();
    let mut i: usize = 0;
    while i < bs.len()
        invariant
            i <= bs.len(),
            out@ == pct_encode(bs@.take(i as int)),
        decreases bs.len() - i,
    {
        let b = bs[i];
        proof {
            assert(bs@.take(i + 1).drop_last() =~= bs@.take(i as int));
            lemma_pct_encode_last(bs@.take(i + 1));
        }
        if needs_escape_exec(b) {
            let piece = pct_encode_byte_exec(b);
            out.append(piece);
        } else {
            push_char(&mut out, b as char);
        }
        i = i + 1;
    }
    proof {
        assert(bs@.take(bs@.len() as int) =~= bs@);
    }
    out
}

/// Encoding one more byte appends that byte's encoding.
pub proof fn lemma_pct_encode_last(bs: Seq<u8>)
    requires
        bs.len() > 0,
    ensures
        pct_encode(bs) == pct_encode(bs.drop_last()) + pct_encode_byte(bs.last()),
    decreases bs.len(),
{
    if bs.len() == 1 {
        assert(bs.drop_first() =~= Seq::<u8>::empty());
        assert(bs.drop_last() =~= Seq::<u8>::empty());
        assert(pct_encode(bs) =~= pct_encode(bs.drop_last()) + pct_encode_byte(bs.last()));
    } else {
        lemma_pct_encode_last(bs.drop_first());
        assert(bs.drop_first().drop_last() =~= bs.drop_last().drop_first());
        assert(bs.drop_first().last() == bs.last());
        assert(bs.drop_last()[0] == bs[0]);
        assert(pct_encode(bs) =~= pct_encode(bs.drop_last()) + pct_encode_byte(bs.last()));
    }
}

/// A character that passes through percent-encoding unchanged.
pub open spec fn plain_char(c: char) -> bool {
    (c as u32) < 0x80 && !needs_escape((c as u32) as u8)
}

/// The upper-case hexadecimal digit of a nibble is a hexadecimal digit
/// with that value, and is no special character of the URI grammar.
pub proof fn lemma_hex_char(n: u8)
    requires
        n < 16,
    ensures
        is_hex_char(hex_char(n)),
        hex_val(hex_char(n)) == n,
        hex_char(n) != '%',
        hex_char(n) != '&',
        hex_char(n) != '=',
        hex_char(n) != '?',
{
}

/// Percent-encoding yields a well-formed text that decodes back to the
/// original bytes, whatever they are.
pub proof fn lemma_pct_round_trip(bs: Seq<u8>)
    ensures
        pct_wf(pct_encode(bs)),
        pct_decode(pct_encode(bs)) == bs,
    decreases bs.len(),
{
    if bs.len() == 0 {
        assert(pct_decode(pct_encode(bs)) =~= bs);
    } else {
        let b = bs[0];
        let e = pct_encode(bs);
        let rest = pct_encode(bs.drop_first());
        lemma_pct_round_trip(bs.drop_first());
        if needs_escape(b) {
            lemma_hex_char(b / 16);
            lemma_hex_char(b % 16);
            assert(e[0] == '%' && e.len() >= 3);
            assert(e.subrange(3, e.len() as int) =~= rest);
            assert(e[1] == hex_char(b / 16) && e[2] == hex_char(b % 16));
            assert(16 * (b / 16) + (b % 16) == b);
            assert(pct_decode(e) =~= seq![b] + pct_decode(rest));
            assert(seq![b] + bs.drop_first() =~= bs);
        } else {
            assert((b as char) as u32 == b as u32);
            assert(e[0] == b as char);
            assert(b as char != '%');
            assert(e.subrange(1, e.len() as int) =~= rest);
            assert(encode_scalar(b as u32) =~= seq![b]) by {
                assert((b as u32) & 0x7f == b as u32) by (bit_vector)
                    requires
                        (b as u32) < 0x80,
                ;
            }
            assert(pct_decode(e) =~= seq![b] + pct_decode(rest));
            assert(seq![b] + bs.drop_first() =~= bs);
        }
    }
}

/// Percent-encoded text never holds the separators of the URI grammar.
pub proof fn lemma_pct_encode_no_separator(bs: Seq<u8>)
    ensures
        forall|i: int|
            0 <= i < pct_encode(bs).len() ==> pct_encode(bs)[i] != '&' && pct_encode(bs)[i] != '='
                && pct_encode(bs)[i] != '?',
    decreases bs.len(),
{
    if bs.len() > 0 {
        let b = bs[0];
        let e = pct_encode(bs);
        let head = pct_encode_byte(b);
        let rest = pct_encode(bs.drop_first());
        lemma_pct_encode_no_separator(bs.drop_first());
        if needs_escape(b) {
            lemma_hex_char(b / 16);
            lemma_hex_char(b % 16);
        } else {
            assert((b as char) as u32 == b as u32);
            assert(b as char != '&' && b as char != '=' && b as char != '?');
        }
        assert forall|i: int| 0 <= i < e.len() implies e[i] != '&' && e[i] != '=' && e[i]
            != '?' by {
            if i < head.len() {
                assert(e[i] == head[i]);
            } else {
                assert(e[i] == rest[i - head.len()]);
            }
        }
    }
}

/// Text made of plain characters passes through percent-encoding of its
/// UTF-8 bytes unchanged.
pub proof fn lemma_pct_encode_plain(cs: Seq<char>)
    requires
        forall|i: int| 0 <= i < cs.len() ==> plain_char(#[trigger] cs[i]),
    ensures
        pct_encode(encode_utf8(cs)) == cs,
    decreases cs.len(),
{
    if cs.len() == 0 {
        assert(pct_encode(encode_utf8(cs)) =~= cs);
    } else {
        let c = cs[0];
        let b = (c as u32) as u8;
        assert(plain_char(c));
        lemma_pct_encode_plain(cs.drop_first());
        let u: u32 = c as u32;
        assert(encode_scalar(c as u32) =~= seq![b]) by {
            assert(u & 0x7f == u) by (bit_vector)
                requires
                    u < 0x80,
            ;
        }
        let bytes = encode_utf8(cs);
        assert(bytes =~= seq![b] + encode_utf8(cs.drop_first()));
        assert(bytes.drop_first() =~= encode_utf8(cs.drop_first()));
        assert(b as char == c) by {
            vstd::utf8::char_u32_cast(c, c as u32);
        }
        assert(pct_encode(bytes) =~= cs);
    }
}

} // verus!

