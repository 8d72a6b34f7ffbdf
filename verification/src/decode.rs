//! Base64 and quoted-printable decoding.

use vstd::prelude::*;
use crate::ascii::{CR, DIGIT_0, DIGIT_9, EQUALS, LF, LOWER_A, LOWER_F, LOWER_Z, PLUS, SLASH, UPPER_A, UPPER_F, UPPER_Z};
use crate::error::DecodeError;

verus! {

/// The pseudo-value of the pad symbol `=`.
pub const PAD: u8 = 64;

/// The pseudo-value of a byte outside the base64 alphabet.
pub const INVALID: u8 = 99;

/// The value of a byte in the base64 alphabet: 0 to 63 for an alphabet
/// symbol, `PAD` for `=`, `INVALID` for every other byte.
pub open spec fn base64_index(c: u8) -> u8 {
    if UPPER_A <= c && c <= UPPER_Z {
        (c - UPPER_A) as u8
    } else if LOWER_A <= c && c <= LOWER_Z {
        (c - LOWER_A + 26) as u8
    } else if DIGIT_0 <= c && c <= DIGIT_9 {
        (c - DIGIT_0 + 52) as u8
    } else if c == PLUS {
        62
    } else if c == SLASH {
        63
    } else if c == EQUALS {
        PAD
    } else {
        INVALID
    }
}

/// The significant symbols of an input, in order: the value of every byte
/// that is an alphabet symbol or the pad symbol. All other bytes are dropped.
pub open spec fn base64_symbols(input: Seq<u8>) -> Seq<u8>
    decreases input.len(),
{
    if input.len() == 0 {
        Seq::empty()
    } else if base64_index(input[0]) == INVALID {
        base64_symbols(input.skip(1))
    } else {
        seq![base64_index(input[0])] + base64_symbols(input.skip(1))
    }
}

/// First byte of a quartet, from its first two symbols.
pub open spec fn quartet_byte0(c0: u8, c1: u8) -> u8 {
    (c0 << 2) | (c1 >> 4)
}

/// Second byte of a quartet, from its second and third symbols.
pub open spec fn quartet_byte1(c1: u8, c2: u8) -> u8 {
    ((c1 & 0x0f) << 4) | (c2 >> 2)
}

/// Third byte of a quartet, from its third and fourth symbols.
pub open spec fn quartet_byte2(c2: u8, c3: u8) -> u8 {
    ((c2 & 0x03) << 6) | c3
}

/// Whether a symbol sequence holds an alphabet symbol.
pub open spec fn has_alphabet_symbol(symbols: Seq<u8>) -> bool {
    exists|i: int| 0 <= i < symbols.len() && symbols[i] < PAD
}

/// The number of pad symbols in a symbol sequence.
pub open spec fn count_pads(symbols: Seq<u8>) -> nat
    decreases symbols.len(),
{
    if symbols.len() == 0 {
        0
    } else if symbols[0] == PAD {
        1 + count_pads(symbols.skip(1))
    } else {
        count_pads(symbols.skip(1))
    }
}

/// What follows the first pad symbol: no alphabet symbol may come, and
/// exactly `expected` further pad symbols must.
pub open spec fn base64_trailer(rest: Seq<u8>, expected: int) -> Option<DecodeError> {
    if has_alphabet_symbol(rest) {
        Some(DecodeError::SymbolAfterPadding)
    } else if count_pads(rest) != expected {
        Some(DecodeError::PaddingCount)
    } else {
        None
    }
}

/// The bytes `head` followed by what `tail` decodes to, or the error of `tail`.
pub open spec fn decoded_after(head: Seq<u8>, tail: Result<Seq<u8>, DecodeError>) -> Result<
    Seq<u8>,
    DecodeError,
> {
    match tail {
        Ok(bytes) => Ok(head + bytes),
        Err(e) => Err(e),
    }
}

/// The bytes `head`, unless the trailer is faulty.
pub open spec fn decoded_before_trailer(head: Seq<u8>, fault: Option<DecodeError>) -> Result<
    Seq<u8>,
    DecodeError,
> {
    match fault {
        Some(e) => Err(e),
        None => Ok(head),
    }
}

/// Decodes a sequence of significant symbols quartet by quartet.
///
/// Four alphabet symbols give three bytes. A pad symbol in third position
/// ends the data after one byte and calls for one more pad symbol; one in
/// fourth position ends it after two bytes and calls for none.
pub open spec fn base64_quartets(symbols: Seq<u8>) -> Result<Seq<u8>, DecodeError>
    decreases symbols.len(),
{
    if symbols.len() == 0 {
        Ok(Seq::empty())
    } else if symbols[0] >= PAD {
        Err(DecodeError::IllegalPadding)
    } else if symbols.len() == 1 {
        Err(DecodeError::TruncatedQuartet)
    } else if symbols[1] >= PAD {
        Err(DecodeError::IllegalPadding)
    } else if symbols.len() == 2 {
        Err(DecodeError::TruncatedQuartet)
    } else if symbols[2] >= PAD {
        decoded_before_trailer(
            seq![quartet_byte0(symbols[0], symbols[1])],
            base64_trailer(symbols.skip(3), 1),
        )
    } else if symbols.len() == 3 {
        Err(DecodeError::TruncatedQuartet)
    } else if symbols[3] >= PAD {
        decoded_before_trailer(
            seq![quartet_byte0(symbols[0], symbols[1]), quartet_byte1(symbols[1], symbols[2])],
            base64_trailer(symbols.skip(4), 0),
        )
    } else {
        decoded_after(
            seq![
                quartet_byte0(symbols[0], symbols[1]),
                quartet_byte1(symbols[1], symbols[2]),
                quartet_byte2(symbols[2], symbols[3]),
            ],
            base64_quartets(symbols.skip(4)),
        )
    }
}

/// What a base64 input decodes to, or why it does not decode.
pub open spec fn base64_decode(input: Seq<u8>) -> Result<Seq<u8>, DecodeError> {
    base64_quartets(base64_symbols(input))
}

/// Looks a byte up in the base64 alphabet.
pub fn base64_value(c: u8) -> (v: u8)
    ensures
        v == base64_index(c),
        v < PAD || v == PAD || v == INVALID,
{
    if UPPER_A <= c && c <= UPPER_Z {
        c - UPPER_A
    } else if LOWER_A <= c && c <= LOWER_Z {
        c - LOWER_A + 26
    } else if DIGIT_0 <= c && c <= DIGIT_9 {
        c - DIGIT_0 + 52
    } else if c == PLUS {
        62
    } else if c == SLASH {
        63
    } else if c == EQUALS {
        PAD
    } else {
        INVALID
    }
}

/// The next significant symbol of a base64 input.
#[derive(Debug, Clone, Copy, PartialEq, Eq, Structural)]
pub enum Base64Value {
    /// An alphabet symbol, by its value.
    Value(u8),
    /// The pad symbol.
    Pad,
    /// The input holds no further significant symbol.
    End,
}

/// Reads on from `*pos` to the next significant symbol, skipping every byte
/// that is neither an alphabet symbol nor the pad symbol.
pub fn next_valid_base64_value(input: &[u8], pos: &mut usize) -> (v: Base64Value)
    requires
        *old(pos) <= input@.len(),
    ensures
        *old(pos) <= *final(pos) <= input@.len(),
        match v {
            Base64Value::End => base64_symbols(input@.skip(*old(pos) as int)).len() == 0
                && *final(pos) == input@.len(),
            Base64Value::Value(b) => b < PAD && base64_symbols(input@.skip(*old(pos) as int))
                == seq![b] + base64_symbols(input@.skip(*final(pos) as int)),
            Base64Value::Pad => base64_symbols(input@.skip(*old(pos) as int)) == seq![PAD]
                + base64_symbols(input@.skip(*final(pos) as int)),
        },
{
    while *pos < input.len()
        invariant
            *old(pos) <= *pos <= input@.len(),
            base64_symbols(input@.skip(*pos as int)) == base64_symbols(
                input@.skip(*old(pos) as int),
            ),
        decreases input@.len() - *pos,
    {
        let c: u8 = input[*pos];
        let b: u8 = base64_value(c);
        proof {
            assert(input@.skip(*pos as int).skip(1) == input@.skip(*pos + 1));
        }
        *pos = *pos + 1;
        if b < PAD {
            return Base64Value::Value(b);
        }
        if b == PAD {
            return Base64Value::Pad;
        }
    }
    Base64Value::End
}

/// How the trailer's verdict on a non-empty symbol sequence follows from its
/// first symbol.
proof fn lemma_trailer_step(rest: Seq<u8>, expected: int)
    requires
        rest.len() > 0,
    ensures
        rest[0] < PAD ==> base64_trailer(rest, expected) == Some(DecodeError::SymbolAfterPadding),
        rest[0] == PAD ==> base64_trailer(rest, expected) == base64_trailer(
            rest.skip(1),
            expected - 1,
        ),
        rest[0] > PAD ==> base64_trailer(rest, expected) == base64_trailer(rest.skip(1), expected),
{
    let tail = rest.skip(1);
    if rest[0] >= PAD {
        if has_alphabet_symbol(rest) {
            let i = choose|i: int| 0 <= i < rest.len() && rest[i] < PAD;
            assert(tail[i - 1] == rest[i]);
        }
    }
}

/// Checks what follows the first pad symbol, from `start` to the end of the
/// input.
fn base64_check_trailer(input: &[u8], start: usize, expected: usize) -> (fault: Option<
    DecodeError,
>)
    requires
        start <= input@.len(),
    ensures
        fault == base64_trailer(base64_symbols(input@.skip(start as int)), expected as int),
{
    let mut i: usize = start;
    let mut found: usize = 0;
    while i < input.len()
        invariant
            start <= i <= input@.len(),
            found <= i - start,
            base64_trailer(base64_symbols(input@.skip(start as int)), expected as int)
                == base64_trailer(base64_symbols(input@.skip(i as int)), expected - found),
        decreases input@.len() - i,
    {
        let b: u8 = base64_value(input[i]);
        proof {
            assert(input@.skip(i as int).skip(1) == input@.skip(i + 1));
            if b != INVALID {
                let rest = base64_symbols(input@.skip(i as int));
                assert(rest.skip(1) == base64_symbols(input@.skip(i + 1)));
                lemma_trailer_step(rest, expected - found);
            }
        }
        if b < PAD {
            return Some(DecodeError::SymbolAfterPadding);
        }
        if b == PAD {
            found = found + 1;
        }
        i = i + 1;
    }
    if found != expected {
        Some(DecodeError::PaddingCount)
    } else {
        None
    }
}

/// Decodes base64 data and appends the decoded bytes to `output`.
///
/// Bytes that are neither alphabet symbols nor the pad symbol are ignored.
/// On failure `output` is left as it was before the call.
pub fn base64_decode_into_buf(input: &[u8], output: &mut Vec<u8>) -> (r: Result<(), DecodeError>)
    ensures
        match base64_decode(input@) {
            Ok(decoded) => r is Ok && final(output)@ == old(output)@ + decoded,
            Err(e) => r == Err::<(), DecodeError>(e) && final(output)@ == old(output)@,
        },
{
    let initial_len: usize = output.len();
    let mut pos: usize = 0;
    proof {
        assert(input@.skip(0) == input@);
    }
    loop
        invariant
            pos <= input@.len(),
            initial_len == old(output)@.len(),
            initial_len <= output@.len(),
            output@.subrange(0, initial_len as int) == old(output)@,
            base64_decode(input@) == decoded_after(
                output@.skip(initial_len as int),
                base64_quartets(base64_symbols(input@.skip(pos as int))),
            ),
        decreases input@.len() - pos,
    {
        let ghost symbols = base64_symbols(input@.skip(pos as int));
        let ghost done = output@.skip(initial_len as int);
        let c0: u8 = match next_valid_base64_value(input, &mut pos) {
            Base64Value::Value(c) => c,
            Base64Value::Pad => {
                output.truncate(initial_len);
                return Err(DecodeError::IllegalPadding);
            },
            Base64Value::End => {
                return Ok(());
            },
        };
        let c1: u8 = match next_valid_base64_value(input, &mut pos) {
            Base64Value::Value(c) => c,
            Base64Value::Pad => {
                output.truncate(initial_len);
                return Err(DecodeError::IllegalPadding);
            },
            Base64Value::End => {
                output.truncate(initial_len);
                return Err(DecodeError::TruncatedQuartet);
            },
        };
        let byte0: u8 = (c0 << 2) | (c1 >> 4);
        let c2: u8 = match next_valid_base64_value(input, &mut pos) {
            Base64Value::Value(c) => c,
            Base64Value::Pad => {
                proof {
                    assert(symbols.skip(3) == base64_symbols(input@.skip(pos as int)));
                }
                match base64_check_trailer(input, pos, 1) {
                    Some(e) => {
                        output.truncate(initial_len);
                        return Err(e);
                    },
                    None => {
                        output.push(byte0);
                        return Ok(());
                    },
                }
            },
            Base64Value::End => {
                output.truncate(initial_len);
                return Err(DecodeError::TruncatedQuartet);
            },
        };
        let byte1: u8 = ((c1 & 0x0f) << 4) | (c2 >> 2);
        let c3: u8 = match next_valid_base64_value(input, &mut pos) {
            Base64Value::Value(c) => c,
            Base64Value::Pad => {
                proof {
                    assert(symbols.skip(4) == base64_symbols(input@.skip(pos as int)));
                }
                match base64_check_trailer(input, pos, 0) {
                    Some(e) => {
                        output.truncate(initial_len);
                        return Err(e);
                    },
                    None => {
                        output.push(byte0);
                        output.push(byte1);
                        return Ok(());
                    },
                }
            },
            Base64Value::End => {
                output.truncate(initial_len);
                return Err(DecodeError::TruncatedQuartet);
            },
        };
        let byte2: u8 = ((c2 & 0x03) << 6) | c3;
        output.push(byte0);
        output.push(byte1);
        output.push(byte2);
        proof {
            let rest = base64_quartets(base64_symbols(input@.skip(pos as int)));
            assert(symbols.skip(4) == base64_symbols(input@.skip(pos as int)));
            assert(output@.skip(initial_len as int) == done + seq![byte0, byte1, byte2]);
            if let Ok(bytes) = rest {
                assert(done + (seq![byte0, byte1, byte2] + bytes) == (done + seq![
                    byte0,
                    byte1,
                    byte2,
                ]) + bytes);
            }
        }
    }
}

/// The number that an ASCII hexadecimal digit stands for, in either case.
pub open spec fn hex_value(a: u8) -> Option<u8> {
    if DIGIT_0 <= a && a <= DIGIT_9 {
        Some((a - DIGIT_0) as u8)
    } else if LOWER_A <= a && a <= LOWER_F {
        Some((a - LOWER_A + 10) as u8)
    } else if UPPER_A <= a && a <= UPPER_F {
        Some((a - UPPER_A + 10) as u8)
    } else {
        None
    }
}

/// Converts an ASCII byte that is a hexadecimal digit to its number.
pub fn hexdigit_to_num(a: u8) -> (n: Option<u8>)
    ensures
        n == hex_value(a),
        n is Some ==> n->0 < 16,
{
    if DIGIT_0 <= a && a <= DIGIT_9 {
        Some(a - DIGIT_0)
    } else if LOWER_A <= a && a <= LOWER_F {
        Some(a - LOWER_A + 10)
    } else if UPPER_A <= a && a <= UPPER_F {
        Some(a - UPPER_A + 10)
    } else {
        None
    }
}

/// Whether the input starts with `=` and two hexadecimal digits.
pub open spec fn starts_with_escape(input: Seq<u8>) -> bool {
    input.len() >= 3 && input[0] == EQUALS && hex_value(input[1]) is Some && hex_value(
        input[2],
    ) is Some
}

/// The byte that an escape of `=` and two hexadecimal digits stands for.
pub open spec fn escaped_byte(high: u8, low: u8) -> u8 {
    (hex_value(high)->0 * 16 + hex_value(low)->0) as u8
}

/// What a quoted-printable input decodes to.
///
/// A byte other than `=` stands for itself. `=` before a line feed, or before
/// a carriage return and a line feed, is a soft line break and stands for
/// nothing. `=` before two hexadecimal digits stands for the byte they
/// denote. Any other `=` stands for itself, as does the byte after it.
pub open spec fn qp_decode(input: Seq<u8>) -> Seq<u8>
    decreases input.len(),
{
    if input.len() == 0 {
        Seq::empty()
    } else if input[0] != EQUALS {
        seq![input[0]] + qp_decode(input.skip(1))
    } else if input.len() == 1 {
        seq![EQUALS]
    } else if input[1] == LF {
        qp_decode(input.skip(2))
    } else if input[1] == CR && input.len() >= 3 && input[2] == LF {
        qp_decode(input.skip(3))
    } else if starts_with_escape(input) {
        seq![escaped_byte(input[1], input[2])] + qp_decode(input.skip(3))
    } else {
        seq![EQUALS, input[1]] + qp_decode(input.skip(2))
    }
}

/// Decodes quoted-printable data and appends the decoded bytes to `output`.
///
/// The decoder is forgiving: what is no valid escape passes through
/// unchanged, so the call always succeeds.
pub fn qp_decode_into_buf(input: &[u8], output: &mut Vec<u8>) -> (r: Result<(), DecodeError>)
    ensures
        r is Ok,
        final(output)@ == old(output)@ + qp_decode(input@),
{
    let mut pos: usize = 0;
    proof {
        assert(input@.skip(0) == input@);
    }
    while pos < input.len()
        invariant
            pos <= input@.len(),
            old(output)@ + qp_decode(input@) == output@ + qp_decode(input@.skip(pos as int)),
        decreases input@.len() - pos,
    {
        let ghost rest = input@.skip(pos as int);
        let c: u8 = input[pos];
        proof {
            assert(rest.skip(1) == input@.skip(pos + 1));
            if rest.len() >= 2 {
                assert(rest.skip(2) == input@.skip(pos + 2));
            }
            if rest.len() >= 3 {
                assert(rest.skip(3) == input@.skip(pos + 3));
            }
        }
        if c != EQUALS {
            output.push(c);
            pos = pos + 1;
        } else if input.len() - pos == 1 {
            output.push(EQUALS);
            pos = pos + 1;
        } else {
            let first: u8 = input[pos + 1];
            let has_third: bool = input.len() - pos >= 3;
            if first == LF {
                pos = pos + 2;
            } else if first == CR && has_third && input[pos + 2] == LF {
                pos = pos + 3;
            } else {
                let high: Option<u8> = hexdigit_to_num(first);
                let low: Option<u8> = if has_third {
                    hexdigit_to_num(input[pos + 2])
                } else {
                    None
                };
                match (high, low) {
                    (Some(h), Some(l)) => {
                        let byte: u8 = h * 16 + l;
                        output.push(byte);
                        pos = pos + 3;
                    },
                    _ => {
                        output.push(EQUALS);
                        output.push(first);
                        pos = pos + 2;
                    },
                }
            }
        }
    }
    Ok(())
}

/// The alphabet symbol of a value below 64.
pub open spec fn base64_symbol(value: u8) -> u8 {
    if value < 26 {
        (UPPER_A + value) as u8
    } else if value < 52 {
        (LOWER_A + (value - 26)) as u8
    } else if value < 62 {
        (DIGIT_0 + (value - 52)) as u8
    } else if value == 62 {
        PLUS
    } else {
        SLASH
    }
}

/// The canonical base64 encoding of a byte run: four alphabet symbols for
/// each three bytes, and a last quartet padded with `=` where one or two
/// bytes are left over. No line breaks are put in.
pub open spec fn base64_encode(bytes: Seq<u8>) -> Seq<u8>
    decreases bytes.len(),
{
    if bytes.len() == 0 {
        Seq::empty()
    } else if bytes.len() == 1 {
        seq![base64_symbol(bytes[0] >> 2), base64_symbol((bytes[0] & 3) << 4), EQUALS, EQUALS]
    } else if bytes.len() == 2 {
        seq![
            base64_symbol(bytes[0] >> 2),
            base64_symbol(((bytes[0] & 3) << 4) | (bytes[1] >> 4)),
            base64_symbol((bytes[1] & 15) << 2),
            EQUALS,
        ]
    } else {
        seq![
            base64_symbol(bytes[0] >> 2),
            base64_symbol(((bytes[0] & 3) << 4) | (bytes[1] >> 4)),
            base64_symbol(((bytes[1] & 15) << 2) | (bytes[2] >> 6)),
            base64_symbol(bytes[2] & 63),
        ] + base64_encode(bytes.skip(3))
    }
}

/// The symbols of two inputs, one after the other, are the symbols of the
/// inputs joined.
pub proof fn lemma_symbols_of_joined(first: Seq<u8>, second: Seq<u8>)
    ensures
        base64_symbols(first + second) == base64_symbols(first) + base64_symbols(second),
    decreases first.len(),
{
    if first.len() == 0 {
    } else {
        assert((first + second).skip(1) == first.skip(1) + second);
        lemma_symbols_of_joined(first.skip(1), second);
    }
}

/// How three bytes are cut into four values below 64, and joined again.
proof fn lemma_sextets(b0: u8, b1: u8, b2: u8)
    ensures
        b0 >> 2 < 64,
        ((b0 & 3) << 4) | (b1 >> 4) < 64,
        ((b1 & 15) << 2) | (b2 >> 6) < 64,
        b2 & 63 < 64,
        (b0 & 3) << 4 < 64,
        (b1 & 15) << 2 < 64,
        quartet_byte0(b0 >> 2, ((b0 & 3) << 4) | (b1 >> 4)) == b0,
        quartet_byte0(b0 >> 2, (b0 & 3) << 4) == b0,
        quartet_byte1(((b0 & 3) << 4) | (b1 >> 4), ((b1 & 15) << 2) | (b2 >> 6)) == b1,
        quartet_byte1(((b0 & 3) << 4) | (b1 >> 4), (b1 & 15) << 2) == b1,
        quartet_byte2(((b1 & 15) << 2) | (b2 >> 6), b2 & 63) == b2,
{
    assert(b0 >> 2 < 64) by (bit_vector);
    assert(((b0 & 3) << 4) | (b1 >> 4) < 64) by (bit_vector);
    assert(((b1 & 15) << 2) | (b2 >> 6) < 64) by (bit_vector);
    assert(b2 & 63 < 64) by (bit_vector);
    assert((b0 & 3) << 4 < 64) by (bit_vector);
    assert((b1 & 15) << 2 < 64) by (bit_vector);
    assert(((b0 >> 2) << 2) | ((((b0 & 3) << 4) | (b1 >> 4)) >> 4) == b0) by (bit_vector);
    assert(((b0 >> 2) << 2) | (((b0 & 3) << 4) >> 4) == b0) by (bit_vector);
    assert((((((b0 & 3) << 4) | (b1 >> 4)) & 0x0f) << 4) | ((((b1 & 15) << 2) | (b2 >> 6)) >> 2)
        == b1) by (bit_vector);
    assert((((((b0 & 3) << 4) | (b1 >> 4)) & 0x0f) << 4) | (((b1 & 15) << 2) >> 2) == b1)
        by (bit_vector);
    assert((((((b1 & 15) << 2) | (b2 >> 6)) & 0x03) << 6) | (b2 & 63) == b2) by (bit_vector);
}

/// Looking up the symbol of a value gives the value.
proof fn lemma_index_of_symbol(value: u8)
    requires
        value < 64,
    ensures
        base64_index(base64_symbol(value)) == value,
{
}

/// A full quartet decodes to three bytes, and the decoding goes on after it.
proof fn lemma_full_quartet(v0: u8, v1: u8, v2: u8, v3: u8, rest: Seq<u8>)
    requires
        v0 < 64,
        v1 < 64,
        v2 < 64,
        v3 < 64,
    ensures
        base64_quartets(seq![v0, v1, v2, v3] + rest) == decoded_after(
            seq![quartet_byte0(v0, v1), quartet_byte1(v1, v2), quartet_byte2(v2, v3)],
            base64_quartets(rest),
        ),
{
    let symbols = seq![v0, v1, v2, v3] + rest;
    assert(symbols.skip(4) == rest);
}

/// A last quartet with two pad symbols decodes to one byte.
proof fn lemma_quartet_of_one_byte(v0: u8, v1: u8)
    requires
        v0 < 64,
        v1 < 64,
    ensures
        base64_quartets(seq![v0, v1, PAD, PAD]) == Ok::<Seq<u8>, DecodeError>(
            seq![quartet_byte0(v0, v1)],
        ),
{
    let symbols = seq![v0, v1, PAD, PAD];
    let rest = symbols.skip(3);
    assert(rest == seq![PAD]);
    lemma_count_pads_of_one(rest);
}

/// A last quartet with one pad symbol decodes to two bytes.
proof fn lemma_quartet_of_two_bytes(v0: u8, v1: u8, v2: u8)
    requires
        v0 < 64,
        v1 < 64,
        v2 < 64,
    ensures
        base64_quartets(seq![v0, v1, v2, PAD]) == Ok::<Seq<u8>, DecodeError>(
            seq![quartet_byte0(v0, v1), quartet_byte1(v1, v2)],
        ),
{
}

/// Base64 decoding undoes the canonical encoding: whatever bytes are
/// encoded, decoding the result succeeds and gives the bytes back.
pub proof fn lemma_base64_decode_inverts_encode(bytes: Seq<u8>)
    ensures
        base64_decode(base64_encode(bytes)) == Ok::<Seq<u8>, DecodeError>(bytes),
    decreases bytes.len(),
{
    if bytes.len() == 0 {
        assert(bytes == Seq::<u8>::empty());
    } else if bytes.len() == 1 {
        lemma_sextets(bytes[0], 0, 0);
        let v0 = bytes[0] >> 2;
        let v1 = (bytes[0] & 3) << 4;
        lemma_index_of_symbol(v0);
        lemma_index_of_symbol(v1);
        lemma_symbols_of_four(base64_symbol(v0), base64_symbol(v1), EQUALS, EQUALS);
        lemma_quartet_of_one_byte(v0, v1);
        assert(seq![bytes[0]] == bytes);
    } else if bytes.len() == 2 {
        lemma_sextets(bytes[0], bytes[1], 0);
        let v0 = bytes[0] >> 2;
        let v1 = ((bytes[0] & 3) << 4) | (bytes[1] >> 4);
        let v2 = (bytes[1] & 15) << 2;
        lemma_index_of_symbol(v0);
        lemma_index_of_symbol(v1);
        lemma_index_of_symbol(v2);
        lemma_symbols_of_four(base64_symbol(v0), base64_symbol(v1), base64_symbol(v2), EQUALS);
        lemma_quartet_of_two_bytes(v0, v1, v2);
        assert(seq![bytes[0], bytes[1]] == bytes);
    } else {
        lemma_sextets(bytes[0], bytes[1], bytes[2]);
        let v0 = bytes[0] >> 2;
        let v1 = ((bytes[0] & 3) << 4) | (bytes[1] >> 4);
        let v2 = ((bytes[1] & 15) << 2) | (bytes[2] >> 6);
        let v3 = bytes[2] & 63;
        lemma_index_of_symbol(v0);
        lemma_index_of_symbol(v1);
        lemma_index_of_symbol(v2);
        lemma_index_of_symbol(v3);
        let head = seq![
            base64_symbol(v0),
            base64_symbol(v1),
            base64_symbol(v2),
            base64_symbol(v3),
        ];
        let tail = base64_encode(bytes.skip(3));
        lemma_symbols_of_four(
            base64_symbol(v0),
            base64_symbol(v1),
            base64_symbol(v2),
            base64_symbol(v3),
        );
        lemma_symbols_of_joined(head, tail);
        lemma_base64_decode_inverts_encode(bytes.skip(3));
        lemma_full_quartet(v0, v1, v2, v3, base64_symbols(tail));
        assert(seq![bytes[0], bytes[1], bytes[2]] + bytes.skip(3) == bytes);
    }
}

/// The symbols of four bytes that are alphabet symbols or pad symbols.
proof fn lemma_symbols_of_four(c0: u8, c1: u8, c2: u8, c3: u8)
    requires
        base64_index(c0) != INVALID,
        base64_index(c1) != INVALID,
        base64_index(c2) != INVALID,
        base64_index(c3) != INVALID,
    ensures
        base64_symbols(seq![c0, c1, c2, c3]) == seq![
            base64_index(c0),
            base64_index(c1),
            base64_index(c2),
            base64_index(c3),
        ],
{
    let s0 = seq![c0, c1, c2, c3];
    let s1 = s0.skip(1);
    let s2 = s1.skip(1);
    let s3 = s2.skip(1);
    let s4 = s3.skip(1);
    assert(base64_symbols(s4) == Seq::<u8>::empty());
    assert(base64_symbols(s3) == seq![base64_index(c3)]);
    assert(base64_symbols(s2) == seq![base64_index(c2), base64_index(c3)]);
    assert(base64_symbols(s1) == seq![base64_index(c1), base64_index(c2), base64_index(c3)]);
}

/// One pad symbol counts as one.
proof fn lemma_count_pads_of_one(rest: Seq<u8>)
    requires
        rest == seq![PAD],
    ensures
        count_pads(rest) == 1,
{
    assert(count_pads(rest.skip(1)) == 0);
}

/// The upper-case hexadecimal digit of a number below 16.
pub open spec fn hex_digit(n: u8) -> u8 {
    if n < 10 {
        (DIGIT_0 + n) as u8
    } else {
        (UPPER_A + (n - 10)) as u8
    }
}

/// Whether the quoted-printable encoding lets a byte stand for itself: it
/// is a printable ASCII character other than `=`.
pub open spec fn is_qp_literal(b: u8) -> bool {
    33 <= b <= 126 && b != EQUALS
}

/// The quoted-printable encoding of a text: a printable character stands
/// for itself, every other byte is escaped by `=` and two hexadecimal
/// digits. No soft line breaks are put in.
pub open spec fn qp_encode(text: Seq<u8>) -> Seq<u8>
    decreases text.len(),
{
    if text.len() == 0 {
        Seq::empty()
    } else if is_qp_literal(text[0]) {
        seq![text[0]] + qp_encode(text.skip(1))
    } else {
        seq![EQUALS, hex_digit(text[0] >> 4), hex_digit(text[0] & 15)] + qp_encode(text.skip(1))
    }
}

/// Quoted-printable decoding undoes the encoding: whatever text is
/// encoded, decoding the result gives the text back.
pub proof fn lemma_qp_decode_inverts_encode(text: Seq<u8>)
    ensures
        qp_decode(qp_encode(text)) == text,
    decreases text.len(),
{
    if text.len() > 0 {
        let b = text[0];
        let tail = qp_encode(text.skip(1));
        lemma_qp_decode_inverts_encode(text.skip(1));
        let encoded = qp_encode(text);
        if is_qp_literal(b) {
            assert(encoded.skip(1) == tail);
        } else {
            let high = b >> 4;
            let low = b & 15;
            assert(high < 16 && low < 16 && high * 16 + low == b) by (bit_vector)
                requires
                    high == b >> 4,
                    low == b & 15,
            ;
            assert(encoded.skip(3) == tail);
        }
    }
}

/// A text without `=` decodes to itself.
pub proof fn lemma_qp_decode_keeps_plain_text(text: Seq<u8>)
    requires
        forall|i: int| 0 <= i < text.len() ==> text[i] != EQUALS,
    ensures
        qp_decode(text) == text,
    decreases text.len(),
{
    if text.len() > 0 {
        let tail = text.skip(1);
        assert forall|i: int| 0 <= i < tail.len() implies tail[i] != EQUALS by {}
        lemma_qp_decode_keeps_plain_text(tail);
    }
}

} // verus!
