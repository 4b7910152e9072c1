//! Small fixed-width field codecs used by every tag: versions, plain colors
//! and big-endian integers.

use crate::error::Error;
use crate::tag::color::Color;
use crate::tag::generic::Version;
use vstd::prelude::*;

verus! {

/// The two raw bytes of a version value.
pub open spec fn version_bytes(v: Version) -> Seq<u8> {
    seq![v.major, v.minor]
}

/// The three raw bytes of a plain (unpacked) color value.
pub open spec fn color_bytes(c: Color) -> Seq<u8> {
    seq![c.red, c.green, c.blue]
}

/// The big-endian 4-byte encoding of a `u32`.
pub open spec fn be_u32_bytes(x: u32) -> Seq<u8> {
    seq![
        (x / 0x1000000) as u8,
        ((x / 0x10000) % 0x100) as u8,
        ((x / 0x100) % 0x100) as u8,
        (x % 0x100) as u8,
    ]
}

/// The value of the big-endian `u32` stored at `s[i..i + 4]`.
pub open spec fn be_u32_at(s: Seq<u8>, i: int) -> int {
    (s[i] as int) * 0x1000000 + (s[i + 1] as int) * 0x10000 + (s[i + 2] as int) * 0x100 + (s[i
        + 3] as int)
}

/// A big-endian `u32` is determined by its four bytes.
pub proof fn lemma_be_u32_inject(s: Seq<u8>, i: int, x: u32)
    requires
        0 <= i,
        i + 4 <= s.len(),
        be_u32_at(s, i) == x,
    ensures
        s.subrange(i, i + 4) == be_u32_bytes(x),
{
    let b0 = s[i];
    let b1 = s[i + 1];
    let b2 = s[i + 2];
    let b3 = s[i + 3];
    assert((b0 as int) * 0x1000000 + (b1 as int) * 0x10000 + (b2 as int) * 0x100 + (b3 as int) == x
        ==> b0 == (x / 0x1000000) as u8 && b1 == ((x / 0x10000) % 0x100) as u8 && b2 == ((x
        / 0x100) % 0x100) as u8 && b3 == (x % 0x100) as u8) by (nonlinear_arith);
    assert(s.subrange(i, i + 4) =~= be_u32_bytes(x));
}

/// Parses the big-endian `u32` at `i`.
pub fn take_be_u32(input: &[u8], i: usize) -> (r: Result<(u32, usize), Error>)
    requires
        i <= input@.len(),
    ensures
        match r {
            Ok((x, j)) => {
                &&& j == i + 4 <= input@.len()
                &&& x == be_u32_at(input@, i as int)
                &&& input@.subrange(i as int, j as int) == be_u32_bytes(x)
            },
            Err(e) => e == Error::ParseError && i + 4 > input@.len(),
        },
{
    if input.len() - i < 4 {
        return Err(Error::ParseError);
    }
    let b0 = input[i];
    let b1 = input[i + 1];
    let b2 = input[i + 2];
    let b3 = input[i + 3];
    let x = (b0 as u32) * 0x1000000 + (b1 as u32) * 0x10000 + (b2 as u32) * 0x100 + (b3 as u32);
    proof {
        lemma_be_u32_inject(input@, i as int, x);
    }
    Ok((x, i + 4))
}

/// Appends the big-endian encoding of `x`.
pub fn write_be_u32(out: &mut Vec<u8>, x: u32) -> (n: usize)
    ensures
        final(out)@ == old(out)@ + be_u32_bytes(x),
        n == 4,
{
    out.push((x / 0x1000000) as u8);
    out.push(((x / 0x10000) % 0x100) as u8);
    out.push(((x / 0x100) % 0x100) as u8);
    out.push((x % 0x100) as u8);
    assert(out@ =~= old(out)@ + be_u32_bytes(x));
    4
}

/// The big-endian 8-byte encoding of a `u64`.
pub open spec fn be_u64_bytes(x: u64) -> Seq<u8> {
    be_u32_bytes((x / 0x100000000) as u32) + be_u32_bytes((x % 0x100000000) as u32)
}

/// Parses the big-endian `u64` at `i`.
pub fn take_be_u64(input: &[u8], i: usize) -> (r: Result<(u64, usize), Error>)
    requires
        i <= input@.len(),
    ensures
        match r {
            Ok((x, j)) => {
                &&& j == i + 8 <= input@.len()
                &&& input@.subrange(i as int, j as int) == be_u64_bytes(x)
            },
            Err(e) => e == Error::ParseError && i + 8 > input@.len(),
        },
{
    if input.len() - i < 8 {
        return Err(Error::ParseError);
    }
    let (hi, j1) = match take_be_u32(input, i) {
        Ok(v) => v,
        Err(_) => {
            proof {
                assert(false);
            }
            return Err(Error::ParseError);
        },
    };
    let (lo, j2) = match take_be_u32(input, j1) {
        Ok(v) => v,
        Err(_) => {
            proof {
                assert(false);
            }
            return Err(Error::ParseError);
        },
    };
    let x = (hi as u64) * 0x100000000 + (lo as u64);
    proof {
        assert(x / 0x100000000 == hi as u64 && x % 0x100000000 == lo as u64) by (nonlinear_arith)
            requires
                x == (hi as u64) * 0x100000000 + (lo as u64),
                lo < 0x100000000,
        ;
        assert(input@.subrange(i as int, i + 8) =~= input@.subrange(i as int, i + 4)
            + input@.subrange(i + 4, i + 8));
    }
    Ok((x, j2))
}

/// Appends the big-endian encoding of `x`.
pub fn write_be_u64(out: &mut Vec<u8>, x: u64) -> (n: usize)
    ensures
        final(out)@ == old(out)@ + be_u64_bytes(x),
        n == 8,
{
    proof {
        assert(x / 0x100000000 < 0x100000000) by (nonlinear_arith);
    }
    write_be_u32(out, (x / 0x100000000) as u32);
    write_be_u32(out, (x % 0x100000000) as u32);
    assert(out@ =~= old(out)@ + be_u64_bytes(x));
    8
}

/// Parses a `Version` from the two raw bytes at `i`.
pub fn take_version(input: &[u8], i: usize) -> (r: Result<(Version, usize), Error>)
    requires
        i <= input@.len(),
    ensures
        match r {
            Ok((v, j)) => {
                &&& j == i + 2 <= input@.len()
                &&& input@.subrange(i as int, j as int) == version_bytes(v)
            },
            Err(e) => e == Error::ParseError && i + 2 > input@.len(),
        },
{
    if input.len() - i < 2 {
        return Err(Error::ParseError);
    }
    let v = Version { major: input[i], minor: input[i + 1] };
    assert(input@.subrange(i as int, i + 2) =~= version_bytes(v));
    Ok((v, i + 2))
}

/// Appends the two raw bytes of a version.
pub fn write_version(out: &mut Vec<u8>, version: Version) -> (n: usize)
    ensures
        final(out)@ == old(out)@ + version_bytes(version),
        n == 2,
{
    out.push(version.major);
    out.push(version.minor);
    assert(out@ =~= old(out)@ + version_bytes(version));
    2
}

/// Parses a plain three-byte color at `i`.
pub fn take_color(input: &[u8], i: usize) -> (r: Result<(Color, usize), Error>)
    requires
        i <= input@.len(),
    ensures
        match r {
            Ok((c, j)) => {
                &&& j == i + 3 <= input@.len()
                &&& input@.subrange(i as int, j as int) == color_bytes(c)
            },
            Err(e) => e == Error::ParseError && i + 3 > input@.len(),
        },
{
    if input.len() - i < 3 {
        return Err(Error::ParseError);
    }
    let c = Color { red: input[i], green: input[i + 1], blue: input[i + 2] };
    assert(input@.subrange(i as int, i + 3) =~= color_bytes(c));
    Ok((c, i + 3))
}

/// Appends the three raw bytes of a color.
pub fn write_color(out: &mut Vec<u8>, color: Color) -> (n: usize)
    ensures
        final(out)@ == old(out)@ + color_bytes(color),
        n == 3,
{
    out.push(color.red);
    out.push(color.green);
    out.push(color.blue);
    assert(out@ =~= old(out)@ + color_bytes(color));
    3
}

} // verus!
