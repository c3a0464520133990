use crate::source::{after_read, next_read, ByteRead, ByteSource};
use crate::util::{Malformation, ParseError};
use vstd::prelude::*;
use vstd::utf8::*;

verus! {

/// How many bytes a sequence that starts with `lead` has, 0 if no sequence
/// starts with it.
pub open spec fn sequence_width(lead: u8) -> nat {
    if lead < 0x80 {
        1
    } else if lead < 0xC0 {
        0
    } else if lead < 0xE0 {
        2
    } else if lead < 0xF0 {
        3
    } else if lead < 0xF8 {
        4
    } else {
        0
    }
}

/// Whether `bytes` has a continuation byte at index `i`.
pub open spec fn continues_at(bytes: Seq<u8>, i: int) -> bool {
    0 <= i < bytes.len() && 0x80 <= bytes[i] < 0xC0
}

/// How many bytes of a sequence of `width` bytes stand well-formed at the
/// start of `bytes`: the lead, and the continuation bytes that follow it
/// without a gap.
pub open spec fn sound_prefix(bytes: Seq<u8>, width: nat) -> nat {
    if width < 2 || !continues_at(bytes, 1) {
        1
    } else if width == 2 || !continues_at(bytes, 2) {
        2
    } else if width == 3 || !continues_at(bytes, 3) {
        3
    } else {
        4
    }
}

/// The bit pattern that the first `width` bytes of `bytes` carry.
pub open spec fn assembled(bytes: Seq<u8>, width: nat) -> u32 {
    if width == 2 {
        codepoint_width_2(bytes[0], bytes[1])
    } else if width == 3 {
        codepoint_width_3(bytes[0], bytes[1], bytes[2])
    } else if width == 4 {
        codepoint_width_4(bytes[0], bytes[1], bytes[2], bytes[3])
    } else {
        codepoint_width_1(bytes[0])
    }
}

/// What is wrong with the bit pattern `bits` read from `width` bytes, if
/// anything.
pub open spec fn defect(bits: u32, width: nat) -> Option<Malformation> {
    if (width == 2 && bits < 0x80) || (width == 3 && bits < 0x800) || (width == 4 && bits
        < 0x10000) {
        Some(Malformation::Overlong)
    } else if 0xD800 <= bits <= 0xDFFF {
        Some(Malformation::Surrogate)
    } else if bits > 0x10FFFF {
        Some(Malformation::OutOfRange)
    } else {
        None
    }
}

/// The scalar value with the bit pattern `bits` read from `width` bytes, or
/// the reason why there is none.
pub open spec fn checked_scalar(bits: u32, width: nat) -> Result<char, ParseError> {
    match defect(bits, width) {
        Some(reason) => Err(ParseError::Malformed(reason)),
        None => Ok(bits as char),
    }
}

/// One decoding step: its outcome and the number of bytes it takes.
pub struct Decoded {
    pub result: Option<Result<char, ParseError>>,
    pub used: nat,
}

/// Decoding one scalar value from the front of `bytes`, on a source that
/// fails after them if `broken` and ends otherwise.
///
/// The lead byte fixes the width. Continuation bytes are then taken one at a
/// time, and the first byte that is none is taken too and ends the step. A
/// sequence that is complete is checked last.
pub open spec fn decode_scalar(bytes: Seq<u8>, broken: bool) -> Decoded {
    if bytes.len() == 0 {
        Decoded { result: if broken { Some(Err(ParseError::Source)) } else { None }, used: 0 }
    } else {
        let width = sequence_width(bytes[0]);
        let sound = sound_prefix(bytes, width);
        if width == 0 {
            Decoded {
                result: Some(Err(ParseError::Malformed(Malformation::InvalidLead))),
                used: 1,
            }
        } else if width == 1 {
            Decoded { result: Some(Ok(bytes[0] as char)), used: 1 }
        } else if sound == width {
            Decoded { result: Some(checked_scalar(assembled(bytes, width), width)), used: width }
        } else if sound < bytes.len() {
            Decoded {
                result: Some(Err(ParseError::Malformed(Malformation::InvalidContinuation))),
                used: sound + 1,
            }
        } else {
            Decoded {
                result: Some(
                    Err(
                        if broken {
                            ParseError::Source
                        } else {
                            ParseError::Malformed(Malformation::Truncated)
                        },
                    ),
                ),
                used: sound,
            }
        }
    }
}

/// The step agrees with the standard reading of UTF-8: it gives a value
/// exactly where `bytes` starts with the encoding of a scalar value, and then
/// gives that value and takes that encoding.
pub proof fn lemma_decode_scalar_standard(bytes: Seq<u8>, broken: bool)
    ensures
        valid_first_scalar(bytes) <==> (decode_scalar(bytes, broken).result matches Some(Ok(_))),
        valid_first_scalar(bytes) ==> decode_scalar(bytes, broken) == (Decoded {
            result: Some(Ok(decode_first_scalar(bytes) as char)),
            used: length_of_first_scalar(bytes) as nat,
        }),
{
    if bytes.len() > 0 {
        let b0 = bytes[0];
        let width = sequence_width(b0);
        if width == 1 {
            assert(b0 & 0x7F == b0) by (bit_vector)
                requires
                    b0 < 0x80,
            ;
        } else if width == 2 && bytes.len() >= 2 {
            let b1 = bytes[1];
            assert(codepoint_width_2(b0, b1) <= 0x7FF) by (bit_vector);
        } else if width == 3 && bytes.len() >= 3 {
            let b1 = bytes[1];
            let b2 = bytes[2];
            assert(codepoint_width_3(b0, b1, b2) <= 0xFFFF) by (bit_vector);
        }
    }
}

/// The low bits of a lead byte: those that `0x7F >> width` keeps.
fn utf8_first_byte(byte: u8, width: u32) -> (bits: u32)
    requires
        width < 8,
    ensures
        bits == (byte & (0x7Fu8 >> width)) as u32,
{
    (byte & (0x7Fu8 >> width)) as u32
}

/// Reads one byte: `None` at the end of the input.
fn read_byte<R: ByteSource>(reader: &mut R) -> (r: Option<Result<u8, ParseError>>)
    ensures
        r == (match next_read(old(reader).pending(), old(reader).broken()) {
            ByteRead::Byte(byte) => Some(Ok::<u8, ParseError>(byte)),
            ByteRead::Failed => Some(Err(ParseError::Source)),
            ByteRead::End => None,
        }),
        final(reader).pending() == after_read(old(reader).pending()),
        final(reader).broken() == old(reader).broken(),
{
    match reader.next_byte() {
        ByteRead::Byte(byte) => Some(Ok(byte)),
        ByteRead::Failed => Some(Err(ParseError::Source)),
        ByteRead::End => None,
    }
}

/// The six low bits of a continuation byte.
const CONT_MASK: u8 = 0x3F;

/// Appends the six low bits of `byte` to the bits gathered in `ch`.
fn utf8_acc_cont_byte(ch: u32, byte: u8) -> (bits: u32)
    ensures
        bits == (ch << 6) | ((byte & 0x3F) as u32),
{
    (ch << 6) | (byte & CONT_MASK) as u32
}

/// What reading one continuation byte gives on a source that still holds
/// `pending`: the byte, or the reason why the sequence stops here.
pub open spec fn continuation_read(pending: Seq<u8>, broken: bool) -> Result<u8, ParseError> {
    if pending.len() == 0 {
        Err(
            if broken {
                ParseError::Source
            } else {
                ParseError::Malformed(Malformation::Truncated)
            },
        )
    } else if continues_at(pending, 0) {
        Ok(pending[0])
    } else {
        Err(ParseError::Malformed(Malformation::InvalidContinuation))
    }
}

/// Reads the next byte of a sequence that is not complete yet. A byte that
/// is no continuation byte is taken all the same.
fn read_continuation<R: ByteSource>(reader: &mut R) -> (r: Result<u8, ParseError>)
    ensures
        r == continuation_read(old(reader).pending(), old(reader).broken()),
        final(reader).pending() == after_read(old(reader).pending()),
        final(reader).broken() == old(reader).broken(),
{
    match read_byte(reader) {
        Some(Ok(byte)) => {
            if 0x80 <= byte && byte < 0xC0 {
                Ok(byte)
            } else {
                Err(ParseError::Malformed(Malformation::InvalidContinuation))
            }
        },
        Some(Err(err)) => Err(err),
        None => Err(ParseError::Malformed(Malformation::Truncated)),
    }
}

/// `char::from_u32`: the `char` with the number `bits` where `bits` is a
/// Unicode scalar value, and `None` where it is not.
#[verifier::external_body]
fn char_from_u32(bits: u32) -> (c: Option<char>)
    ensures
        c == (if is_scalar(bits) {
            Some(bits as char)
        } else {
            None
        }),
{
    char::from_u32(bits)
}

/// Checks the bits of a complete sequence of `width` bytes.
fn check_scalar(bits: u32, width: u8) -> (r: Result<char, ParseError>)
    requires
        2 <= width <= 4,
    ensures
        r == checked_scalar(bits, width as nat),
{
    let least: u32 = if width == 2 {
        0x80
    } else if width == 3 {
        0x800
    } else {
        0x10000
    };
    if bits < least {
        return Err(ParseError::Malformed(Malformation::Overlong));
    }
    match char_from_u32(bits) {
        Some(c) => Ok(c),
        None => {
            if bits > 0x10FFFF {
                Err(ParseError::Malformed(Malformation::OutOfRange))
            } else {
                Err(ParseError::Malformed(Malformation::Surrogate))
            }
        },
    }
}

/// Decodes one scalar value from the bytes that `reader` delivers.
///
/// Takes from the reader exactly the bytes of the step, and no byte once
/// the step has failed.
pub fn read_char<R: ByteSource>(reader: &mut R) -> (r: Option<Result<char, ParseError>>)
    ensures
        r == decode_scalar(old(reader).pending(), old(reader).broken()).result,
        final(reader).pending() == old(reader).pending().skip(
            decode_scalar(old(reader).pending(), old(reader).broken()).used as int,
        ),
        final(reader).broken() == old(reader).broken(),
{
    let ghost bytes = reader.pending();
    let x = match read_byte(reader) {
        Some(Ok(x)) => x,
        Some(Err(err)) => {
            assert(bytes.skip(0) =~= bytes);
            return Some(Err(err));
        },
        None => {
            assert(bytes.skip(0) =~= bytes);
            return None;
        },
    };
    assert(reader.pending() =~= bytes.skip(1));
    if x < 128 {
        return Some(Ok(x as char));
    }
    if x < 0xC0 || x >= 0xF8 {
        return Some(Err(ParseError::Malformed(Malformation::InvalidLead)));
    }
    let init = utf8_first_byte(x, 2);
    let y = match read_continuation(reader) {
        Ok(y) => y,
        Err(err) => {
            assert(reader.pending() =~= bytes.skip(if bytes.len() > 1 { 2int } else { 1int }));
            return Some(Err(err));
        },
    };
    assert(reader.pending() =~= bytes.skip(2));
    let mut ch = utf8_acc_cont_byte(init, y);
    let mut width: u8 = 2;
    if x >= 0xE0 {
        let z = match read_continuation(reader) {
            Ok(z) => z,
            Err(err) => {
                assert(reader.pending() =~= bytes.skip(if bytes.len() > 2 { 3int } else { 2int }));
                return Some(Err(err));
            },
        };
        assert(reader.pending() =~= bytes.skip(3));
        let y_z = utf8_acc_cont_byte((y & CONT_MASK) as u32, z);
        ch = init << 12 | y_z;
        width = 3;
        if x >= 0xF0 {
            let w = match read_continuation(reader) {
                Ok(w) => w,
                Err(err) => {
                    assert(reader.pending() =~= bytes.skip(
                        if bytes.len() > 3 { 4int } else { 3int },
                    ));
                    return Some(Err(err));
                },
            };
            assert(reader.pending() =~= bytes.skip(4));
            ch = (init & 7) << 18 | utf8_acc_cont_byte(y_z, w);
            width = 4;
            assert(ch == codepoint_width_4(x, y, z, w)) by (bit_vector)
                requires
                    0xF0 <= x < 0xF8,
                    init == (x & (0x7Fu8 >> 2u32)) as u32,
                    y_z == ((((y & 0x3F) as u32) << 6) | ((z & 0x3F) as u32)),
                    ch == (init & 7) << 18 | ((y_z << 6) | ((w & 0x3F) as u32)),
            ;
        } else {
            assert(ch == codepoint_width_3(x, y, z)) by (bit_vector)
                requires
                    0xE0 <= x < 0xF0,
                    init == (x & (0x7Fu8 >> 2u32)) as u32,
                    y_z == ((((y & 0x3F) as u32) << 6) | ((z & 0x3F) as u32)),
                    ch == init << 12 | y_z,
            ;
        }
    } else {
        assert(ch == codepoint_width_2(x, y)) by (bit_vector)
            requires
                0xC0 <= x < 0xE0,
                init == (x & (0x7Fu8 >> 2u32)) as u32,
                ch == (init << 6) | ((y & 0x3F) as u32),
        ;
    }
    assert(ch == assembled(bytes, width as nat));
    Some(check_scalar(ch, width))
}

} // verus!
