//! The `serato32` bit-packing codec: a reversible transform between a 4-byte
//! wire value and a 3-byte plain value, which reserves one null bit after
//! every 7 payload bits.  It encodes colors and positions in the legacy
//! `Serato Markers_` tag.

use crate::error::Error;
use crate::tag::color::Color;
use vstd::prelude::*;

verus! {

/// The three plain bytes decoded from four `serato32` wire bytes.
pub open spec fn spec_decode(enc1: u8, enc2: u8, enc3: u8, enc4: u8) -> (u8, u8, u8) {
    (
        ((enc2 & 0x7F) >> 2) | ((enc1 & 0x07) << 5),
        ((enc3 & 0x7F) >> 1) | ((enc2 & 0x03) << 6),
        (enc4 & 0x7F) | ((enc3 & 0x01) << 7),
    )
}

/// The four `serato32` wire bytes encoding three plain bytes.
pub open spec fn spec_encode(dec1: u8, dec2: u8, dec3: u8) -> (u8, u8, u8, u8) {
    (dec1 >> 5, ((dec1 << 2) | (dec2 >> 6)) & 0x7F, ((dec2 << 1) | (dec3 >> 7)) & 0x7F, dec3 & 0x7F)
}

/// The 4-byte wire form of three plain bytes, as a byte sequence.
pub open spec fn s32_bytes(dec1: u8, dec2: u8, dec3: u8) -> Seq<u8> {
    let (e1, e2, e3, e4) = spec_encode(dec1, dec2, dec3);
    seq![e1, e2, e3, e4]
}

/// The 4-byte wire form of a color.
pub open spec fn s32_color_bytes(c: Color) -> Seq<u8> {
    s32_bytes(c.red, c.green, c.blue)
}

/// The 4-byte wire form of the low 24 bits of a `u32`.
pub open spec fn s32_u32_bytes(x: u32) -> Seq<u8> {
    s32_bytes(((x / 0x10000) % 0x100) as u8, ((x / 0x100) % 0x100) as u8, (x % 0x100) as u8)
}

/// Decoding an encoded value gives back the three plain bytes.
///
/// The reverse direction holds only for wire values that `encode` itself
/// produced: decoding drops the five reserved bits of arbitrary input.
pub proof fn lemma_serato32_roundtrip(dec1: u8, dec2: u8, dec3: u8)
    ensures
        ({
            let (e1, e2, e3, e4) = spec_encode(dec1, dec2, dec3);
            spec_decode(e1, e2, e3, e4) == (dec1, dec2, dec3)
        }),
{
    let (e1, e2, e3, e4) = spec_encode(dec1, dec2, dec3);
    assert(((e2 & 0x7F) >> 2) | ((e1 & 0x07) << 5) == dec1) by (bit_vector)
        requires
            e1 == dec1 >> 5,
            e2 == ((dec1 << 2) | (dec2 >> 6)) & 0x7F,
    ;
    assert(((e3 & 0x7F) >> 1) | ((e2 & 0x03) << 6) == dec2) by (bit_vector)
        requires
            e2 == ((dec1 << 2) | (dec2 >> 6)) & 0x7F,
            e3 == ((dec2 << 1) | (dec3 >> 7)) & 0x7F,
    ;
    assert((e4 & 0x7F) | ((e3 & 0x01) << 7) == dec3) by (bit_vector)
        requires
            e3 == ((dec2 << 1) | (dec3 >> 7)) & 0x7F,
            e4 == dec3 & 0x7F,
    ;
}

/// Decodes a value from Serato's 32-bit custom format to 24-bit plaintext.
pub fn decode(enc1: u8, enc2: u8, enc3: u8, enc4: u8) -> (r: (u8, u8, u8))
    ensures
        r == spec_decode(enc1, enc2, enc3, enc4),
{
    let dec3: u8 = (enc4 & 0x7F) | ((enc3 & 0x01) << 7);
    let dec2: u8 = ((enc3 & 0x7F) >> 1) | ((enc2 & 0x03) << 6);
    let dec1: u8 = ((enc2 & 0x7F) >> 2) | ((enc1 & 0x07) << 5);
    (dec1, dec2, dec3)
}

/// Encodes a 3-byte value to Serato's 32-bit custom format.
pub fn encode(dec1: u8, dec2: u8, dec3: u8) -> (r: (u8, u8, u8, u8))
    ensures
        r == spec_encode(dec1, dec2, dec3),
{
    let enc4: u8 = dec3 & 0x7F;
    let enc3: u8 = ((dec3 >> 7) | (dec2 << 1)) & 0x7F;
    let enc2: u8 = ((dec2 >> 6) | (dec1 << 2)) & 0x7F;
    let enc1: u8 = dec1 >> 5;
    proof {
        assert(((dec3 >> 7) | (dec2 << 1)) & 0x7F == ((dec2 << 1) | (dec3 >> 7)) & 0x7F)
            by (bit_vector);
        assert(((dec2 >> 6) | (dec1 << 2)) & 0x7F == ((dec1 << 2) | (dec2 >> 6)) & 0x7F)
            by (bit_vector);
    }
    (enc1, enc2, enc3, enc4)
}

/// Returns the 3-byte tuple decoded from the four input bytes at `i`.
pub fn take(input: &[u8], i: usize) -> (r: Result<((u8, u8, u8), usize), Error>)
    requires
        i <= input@.len(),
    ensures
        match r {
            Ok((v, j)) => {
                &&& j == i + 4 <= input@.len()
                &&& v == spec_decode(
                    input@[i as int],
                    input@[i + 1],
                    input@[i + 2],
                    input@[i + 3],
                )
            },
            Err(e) => e == Error::ParseError && i + 4 > input@.len(),
        },
{
    if input.len() - i < 4 {
        return Err(Error::ParseError);
    }
    let v = decode(input[i], input[i + 1], input[i + 2], input[i + 3]);
    Ok((v, i + 4))
}

/// Returns a `Color` decoded from the four input bytes at `i`.
pub fn take_color(input: &[u8], i: usize) -> (r: Result<(Color, usize), Error>)
    requires
        i <= input@.len(),
    ensures
        match r {
            Ok((c, j)) => {
                &&& j == i + 4 <= input@.len()
                &&& ({
                    let (d1, d2, d3) = spec_decode(
                        input@[i as int],
                        input@[i + 1],
                        input@[i + 2],
                        input@[i + 3],
                    );
                    c == Color { red: d1, green: d2, blue: d3 }
                })
            },
            Err(e) => e == Error::ParseError && i + 4 > input@.len(),
        },
{
    let ((red, green, blue), j) = match take(input, i) {
        Ok(v) => v,
        Err(e) => {
            return Err(e);
        },
    };
    Ok((Color { red, green, blue }, j))
}

/// Returns a `u32` decoded from the four input bytes at `i`; its top 8 bits
/// are always zero.
pub fn take_u32(input: &[u8], i: usize) -> (r: Result<(u32, usize), Error>)
    requires
        i <= input@.len(),
    ensures
        match r {
            Ok((x, j)) => {
                &&& j == i + 4 <= input@.len()
                &&& x < 0x1000000
                &&& ({
                    let (d1, d2, d3) = spec_decode(
                        input@[i as int],
                        input@[i + 1],
                        input@[i + 2],
                        input@[i + 3],
                    );
                    x == (d1 as int) * 0x10000 + (d2 as int) * 0x100 + (d3 as int)
                })
            },
            Err(e) => e == Error::ParseError && i + 4 > input@.len(),
        },
{
    let ((d1, d2, d3), j) = match take(input, i) {
        Ok(v) => v,
        Err(e) => {
            return Err(e);
        },
    };
    let x = (d1 as u32) * 0x10000 + (d2 as u32) * 0x100 + (d3 as u32);
    Ok((x, j))
}

/// Appends the 4-byte wire form of three plain bytes.
pub fn write(out: &mut Vec<u8>, dec1: u8, dec2: u8, dec3: u8) -> (n: usize)
    ensures
        final(out)@ == old(out)@ + s32_bytes(dec1, dec2, dec3),
        n == 4,
{
    let (e1, e2, e3, e4) = encode(dec1, dec2, dec3);
    out.push(e1);
    out.push(e2);
    out.push(e3);
    out.push(e4);
    assert(out@ =~= old(out)@ + s32_bytes(dec1, dec2, dec3));
    4
}

/// Appends the 4-byte wire form of a color.
pub fn write_color(out: &mut Vec<u8>, color: Color) -> (n: usize)
    ensures
        final(out)@ == old(out)@ + s32_color_bytes(color),
        n == 4,
{
    write(out, color.red, color.green, color.blue)
}

/// Appends the 4-byte wire form of the low 24 bits of `x`.
pub fn write_u32(out: &mut Vec<u8>, x: u32) -> (n: usize)
    ensures
        final(out)@ == old(out)@ + s32_u32_bytes(x),
        n == 4,
{
    write(out, ((x / 0x10000) % 0x100) as u8, ((x / 0x100) % 0x100) as u8, (x % 0x100) as u8)
}

} // verus!
