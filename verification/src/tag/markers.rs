//! The `Serato Markers_` tag stores the first cues, loops and the track
//! color in a legacy fixed-record format.
//!
//! The data is redundant with parts of the `Serato Markers2` tag; when the
//! two contradict each other, Serato prefers `Serato Markers_`.

use crate::error::Error;
use crate::tag::color::Color;
use crate::tag::generic::{Position, Version};
use crate::tag::serato32;
use crate::tag::serato32::{s32_bytes, s32_color_bytes, s32_u32_bytes, spec_decode};
use crate::tag::util::{
    be_u32_at, be_u32_bytes, color_bytes, take_be_u32, take_color, take_version, version_bytes,
    write_be_u32, write_color, write_version,
};
use vstd::prelude::*;

verus! {

/// The type of a marker entry.
#[derive(Debug, Clone, Copy, PartialEq, Eq, Structural)]
pub enum MarkerType {
    /// Used for unset cues (`0x00` in the binary format).
    Invalid,
    /// Used for set cues (`0x01` in the binary format).
    Cue,
    /// Used for loops, set or unset (`0x03` in the binary format).
    Loop,
}

/// A single marker entry in the `Serato Markers_` tag.
#[derive(Debug, Clone, Copy, PartialEq, Eq)]
pub struct Marker {
    /// The position of the loop or cue.
    pub start_position: Option<Position>,
    /// If this is a loop, the end position.
    pub end_position: Option<Position>,
    /// The color of the cue.
    pub color: Color,
    /// The type of this marker.
    pub marker_type: MarkerType,
    /// Whether the loop is locked; for cues this is always `false`.
    pub is_locked: bool,
}

/// Represents the `Serato Markers_` tag.
#[derive(Debug, Clone, PartialEq)]
pub struct Markers {
    /// The tag version.
    pub version: Version,
    /// The marker entries.
    pub entries: Vec<Marker>,
    /// The color of the track in Serato's library view.
    pub track_color: Color,
}

/// The wire byte of a marker type.
pub open spec fn mt_byte(t: MarkerType) -> u8 {
    match t {
        MarkerType::Invalid => 0x00,
        MarkerType::Cue => 0x01,
        MarkerType::Loop => 0x03,
    }
}

/// The wire byte of a boolean.
pub open spec fn bool_byte(b: bool) -> u8 {
    if b {
        0x01
    } else {
        0x00
    }
}

/// The five-byte wire form of an optional position: a NUL prefix and the
/// `serato32`-packed milliseconds, or `0x7F` bytes when absent.
pub open spec fn position_bytes(p: Option<Position>) -> Seq<u8> {
    match p {
        Some(pos) => seq![0x00u8] + s32_u32_bytes(pos.millis),
        None => seq![0x7Fu8, 0x7Fu8, 0x7Fu8, 0x7Fu8, 0x7Fu8],
    }
}

/// The fixed six filler bytes inside every marker entry.
pub open spec fn filler_bytes() -> Seq<u8> {
    seq![0x00u8, 0x7Fu8, 0x7Fu8, 0x7Fu8, 0x7Fu8, 0x7Fu8]
}

/// The 22-byte wire form of one marker entry.
pub open spec fn marker_bytes(m: Marker) -> Seq<u8> {
    position_bytes(m.start_position) + position_bytes(m.end_position) + filler_bytes()
        + s32_color_bytes(m.color) + seq![mt_byte(m.marker_type), bool_byte(m.is_locked)]
}

/// The concatenated wire forms of a sequence of marker entries.
pub open spec fn entries_bytes(s: Seq<Marker>) -> Seq<u8>
    decreases s.len(),
{
    if s.len() == 0 {
        Seq::empty()
    } else {
        marker_bytes(s.first()) + entries_bytes(s.drop_first())
    }
}

/// Concatenation distributes over appending one entry at the end.
pub proof fn lemma_entries_bytes_push(s: Seq<Marker>, m: Marker)
    ensures
        entries_bytes(s.push(m)) == entries_bytes(s) + marker_bytes(m),
    decreases s.len(),
{
    if s.len() == 0 {
        assert(s.push(m).drop_first() =~= Seq::<Marker>::empty());
        assert(s.push(m).first() == m);
        assert(entries_bytes(s.push(m)) == marker_bytes(m) + entries_bytes(
            Seq::<Marker>::empty(),
        ));
        assert(entries_bytes(Seq::<Marker>::empty()) == Seq::<u8>::empty());
        assert(entries_bytes(s.push(m)) =~= entries_bytes(s) + marker_bytes(m));
    } else {
        assert(s.push(m).drop_first() =~= s.drop_first().push(m));
        lemma_entries_bytes_push(s.drop_first(), m);
        assert(entries_bytes(s.push(m)) =~= entries_bytes(s) + marker_bytes(m));
    }
}

/// The entry count fits the wire format's `u32` count field.
pub open spec fn markers_wf(m: Markers) -> bool {
    m.entries@.len() <= u32::MAX
}

/// The tag's byte form: version, entry count, entries and the
/// `serato32`-packed track color.
pub open spec fn markers_bytes(m: Markers) -> Seq<u8> {
    version_bytes(m.version) + be_u32_bytes(m.entries@.len() as u32) + entries_bytes(m.entries@)
        + s32_color_bytes(m.track_color)
}

/// The 24-bit value packed in `serato32` form at `s[i..i + 4]`.
pub open spec fn s32_value_at(s: Seq<u8>, i: int) -> int {
    let (d1, d2, d3) = spec_decode(s[i], s[i + 1], s[i + 2], s[i + 3]);
    (d1 as int) * 0x10000 + (d2 as int) * 0x100 + (d3 as int)
}

/// The color packed in `serato32` form at `s[i..i + 4]`.
pub open spec fn s32_color_at(s: Seq<u8>, i: int) -> Color {
    let (d1, d2, d3) = spec_decode(s[i], s[i + 1], s[i + 2], s[i + 3]);
    Color { red: d1, green: d2, blue: d3 }
}

/// The optional position whose five-byte encoding starts at `s[i]`, or
/// `None` when the bytes there are not a position encoding.
pub open spec fn spec_position_at(s: Seq<u8>, i: int) -> Option<Option<Position>> {
    if i + 5 <= s.len() {
        if s[i] == 0x00 {
            Some(Some(Position { millis: s32_value_at(s, i + 1) as u32 }))
        } else if s[i] == 0x7F && s[i + 1] == 0x7F && s[i + 2] == 0x7F && s[i + 3] == 0x7F && s[i
            + 4] == 0x7F {
            Some(None)
        } else {
            None
        }
    } else {
        None
    }
}

/// The marker type encoded by a byte, or `None` for an invalid byte.
pub open spec fn spec_marker_type(b: u8) -> Option<MarkerType> {
    if b == 0x00 {
        Some(MarkerType::Invalid)
    } else if b == 0x01 {
        Some(MarkerType::Cue)
    } else if b == 0x03 {
        Some(MarkerType::Loop)
    } else {
        None
    }
}

/// The boolean encoded by a byte, or `None` for an invalid byte.
pub open spec fn spec_bool(b: u8) -> Option<bool> {
    if b == 0x00 {
        Some(false)
    } else if b == 0x01 {
        Some(true)
    } else {
        None
    }
}

/// The marker entry whose 22-byte encoding starts at `s[i]`, or `None` when
/// the bytes there are not a marker encoding.
pub open spec fn spec_marker_at(s: Seq<u8>, i: int) -> Option<Marker> {
    if i + 22 <= s.len() {
        match (spec_position_at(s, i), spec_position_at(s, i + 5)) {
            (Some(start), Some(end)) => {
                if s.subrange(i + 10, i + 16) == filler_bytes() {
                    match (spec_marker_type(s[i + 20]), spec_bool(s[i + 21])) {
                        (Some(t), Some(l)) => Some(
                            Marker {
                                start_position: start,
                                end_position: end,
                                color: s32_color_at(s, i + 16),
                                marker_type: t,
                                is_locked: l,
                            },
                        ),
                        _ => None,
                    }
                } else {
                    None
                }
            },
            _ => None,
        }
    } else {
        None
    }
}

/// The sequence of `n` marker entries encoded back-to-back from `s[i]` on,
/// or `None` when any of them is malformed.
pub open spec fn spec_markers_seq(s: Seq<u8>, i: int, n: nat) -> Option<Seq<Marker>>
    decreases n,
{
    if n == 0 {
        Some(Seq::empty())
    } else {
        match spec_marker_at(s, i) {
            Some(m) => match spec_markers_seq(s, i + 22, (n - 1) as nat) {
                Some(rest) => Some(seq![m] + rest),
                None => None,
            },
            None => None,
        }
    }
}

/// Prepends an already-parsed prefix to the result of parsing the rest.
pub open spec fn prepend_markers(pre: Seq<Marker>, rest: Option<Seq<Marker>>) -> Option<
    Seq<Marker>,
> {
    match rest {
        Some(r) => Some(pre + r),
        None => None,
    }
}

/// The parse of a whole `Serato Markers_` tag: version, entries and track
/// color, or `None` when the input is malformed.
pub open spec fn spec_parse_markers(s: Seq<u8>) -> Option<(Version, Seq<Marker>, Color)> {
    if s.len() >= 6 && s.len() == 10 + 22 * be_u32_at(s, 2) {
        match spec_markers_seq(s, 6, be_u32_at(s, 2) as nat) {
            Some(ms) => Some(
                (Version { major: s[0], minor: s[1] }, ms, s32_color_at(s, s.len() - 4)),
            ),
            None => None,
        }
    } else {
        None
    }
}

/// True when the four bytes at `s[i..i + 4]` are a canonical `serato32`
/// encoding: re-encoding their decoded value reproduces them.  Decoding
/// drops the five reserved bits, so only canonical wire values round-trip.
pub open spec fn s32_canonical_at(s: Seq<u8>, i: int) -> bool {
    ({
        let (d1, d2, d3) = spec_decode(s[i], s[i + 1], s[i + 2], s[i + 3]);
        s.subrange(i, i + 4) == s32_bytes(d1, d2, d3)
    })
}

/// True when the packed fields of the marker entry at `s[i]` are canonical.
pub open spec fn marker_canonical_at(s: Seq<u8>, i: int) -> bool {
    &&& (s[i] == 0x00 ==> s32_canonical_at(s, i + 1))
    &&& (s[i + 5] == 0x00 ==> s32_canonical_at(s, i + 6))
    &&& s32_canonical_at(s, i + 16)
}

/// True when all packed fields of a whole `Serato Markers_` tag are
/// canonical, as Serato itself writes them.
pub open spec fn markers_canonical(s: Seq<u8>) -> bool {
    &&& forall|k: int|
        0 <= k < be_u32_at(s, 2) ==> #[trigger] marker_canonical_at(s, 6 + 22 * k)
    &&& s32_canonical_at(s, s.len() - 4)
}

/// A canonical position encoding re-serializes to itself.
proof fn lemma_position_roundtrip(s: Seq<u8>, i: int, p: Option<Position>)
    requires
        0 <= i && i + 5 <= s.len(),
        spec_position_at(s, i) == Some(p),
        s[i] == 0x00 ==> s32_canonical_at(s, i + 1),
    ensures
        position_bytes(p) == s.subrange(i, i + 5),
{
    if s[i] == 0x00 {
        let (d1, d2, d3) = spec_decode(s[i + 1], s[i + 2], s[i + 3], s[i + 4]);
        let millis = ((d1 as int) * 0x10000 + (d2 as int) * 0x100 + (d3 as int)) as u32;
        assert(p == Some(Position { millis }));
        assert((millis as int / 0x10000) % 0x100 == d1 as int && (millis as int / 0x100) % 0x100
            == d2 as int && millis as int % 0x100 == d3 as int) by (nonlinear_arith)
            requires
                millis as int == (d1 as int) * 0x10000 + (d2 as int) * 0x100 + (d3 as int),
                d1 < 256 && d2 < 256 && d3 < 256,
        ;
        assert(s32_u32_bytes(millis) == s32_bytes(d1, d2, d3));
        assert(position_bytes(p) =~= seq![0x00u8] + s.subrange(i + 1, i + 5));
        assert(position_bytes(p) =~= s.subrange(i, i + 5));
    } else {
        assert(position_bytes(p) =~= s.subrange(i, i + 5));
    }
}

/// A canonical marker entry re-serializes to itself.
proof fn lemma_marker_roundtrip(s: Seq<u8>, i: int, m: Marker)
    requires
        0 <= i && i + 22 <= s.len(),
        spec_marker_at(s, i) == Some(m),
        marker_canonical_at(s, i),
    ensures
        marker_bytes(m) == s.subrange(i, i + 22),
{
    let start = spec_position_at(s, i);
    let end = spec_position_at(s, i + 5);
    lemma_position_roundtrip(s, i, m.start_position);
    lemma_position_roundtrip(s, i + 5, m.end_position);
    let (d1, d2, d3) = spec_decode(s[i + 16], s[i + 17], s[i + 18], s[i + 19]);
    assert(s32_color_bytes(m.color) == s.subrange(i + 16, i + 20));
    assert(mt_byte(m.marker_type) == s[i + 20]);
    assert(bool_byte(m.is_locked) == s[i + 21]);
    assert(marker_bytes(m) =~= s.subrange(i, i + 22));
}

/// A canonical run of marker entries re-serializes to itself.
proof fn lemma_markers_seq_roundtrip(s: Seq<u8>, i: int, n: nat, ms: Seq<Marker>)
    requires
        6 <= i,
        i + 22 * n <= s.len(),
        spec_markers_seq(s, i, n) == Some(ms),
        forall|k: int| 0 <= k < n ==> #[trigger] marker_canonical_at(s, i + 22 * k),
    ensures
        entries_bytes(ms) == s.subrange(i, i + 22 * n),
        ms.len() == n,
    decreases n,
{
    if n == 0 {
        assert(entries_bytes(ms) =~= s.subrange(i, i));
    } else {
        let m = spec_marker_at(s, i)->Some_0;
        let rest = spec_markers_seq(s, i + 22, (n - 1) as nat)->Some_0;
        assert(ms == seq![m] + rest);
        assert(marker_canonical_at(s, i + 22 * 0));
        lemma_marker_roundtrip(s, i, m);
        assert forall|k: int| 0 <= k < n - 1 implies #[trigger] marker_canonical_at(
            s,
            i + 22 + 22 * k,
        ) by {
            assert(marker_canonical_at(s, i + 22 * (k + 1)));
        }
        lemma_markers_seq_roundtrip(s, i + 22, (n - 1) as nat, rest);
        assert(ms.first() == m && ms.drop_first() =~= rest);
        assert(entries_bytes(ms) == marker_bytes(m) + entries_bytes(rest));
        assert(entries_bytes(ms) =~= s.subrange(i, i + 22 * n));
    }
}

/// Round trip for the `Serato Markers_` tag: serializing a parsed tag
/// reproduces the input bytes, provided the input's packed `serato32`
/// fields are canonical (Serato always writes them so; decoding drops the
/// reserved bits of non-canonical input).
pub proof fn lemma_markers_roundtrip(s: Seq<u8>, m: Markers)
    requires
        spec_parse_markers(s) == Some((m.version, m.entries@, m.track_color)),
        markers_canonical(s),
    ensures
        markers_bytes(m) == s,
{
    let n = be_u32_at(s, 2);
    assert(s.len() == 10 + 22 * n);
    lemma_markers_seq_roundtrip(s, 6, n as nat, m.entries@);
    assert(version_bytes(m.version) =~= s.subrange(0, 2));
    crate::tag::util::lemma_be_u32_inject(s, 2, m.entries@.len() as u32);
    assert(s32_color_bytes(m.track_color) == s.subrange(s.len() - 4, s.len() as int));
    assert(markers_bytes(m) =~= s);
}
pub fn take_bool(input: &[u8], i: usize) -> (r: Result<(bool, usize), Error>)
    requires
        i <= input@.len(),
    ensures
        match r {
            Ok((b, j)) => {
                &&& j == i + 1 <= input@.len()
                &&& spec_bool(input@[i as int]) == Some(b)
            },
            Err(e) => e == Error::ParseError && (i == input@.len() || spec_bool(input@[i as int])
                is None),
        },
{
    if i == input.len() {
        return Err(Error::ParseError);
    }
    match input[i] {
        0x00 => Ok((false, i + 1)),
        0x01 => Ok((true, i + 1)),
        _ => Err(Error::ParseError),
    }
}

/// Parses the byte at `i` that tells whether the following position is set:
/// `0x00` means set, `0x7F` means absent, anything else is an error.
pub fn take_has_position(input: &[u8], i: usize) -> (r: Result<(bool, usize), Error>)
    requires
        i <= input@.len(),
    ensures
        match r {
            Ok((b, j)) => {
                &&& j == i + 1 <= input@.len()
                &&& (b <==> input@[i as int] == 0x00)
                &&& (input@[i as int] == 0x00 || input@[i as int] == 0x7F)
            },
            Err(e) => e == Error::ParseError && (i == input@.len() || (input@[i as int] != 0x00
                && input@[i as int] != 0x7F)),
        },
{
    if i == input.len() {
        return Err(Error::ParseError);
    }
    match input[i] {
        0x00 => Ok((true, i + 1)),
        0x7F => Ok((false, i + 1)),
        _ => Err(Error::ParseError),
    }
}

/// Parses the five-byte optional position at `i`.
pub fn take_position(input: &[u8], i: usize) -> (r: Result<(Option<Position>, usize), Error>)
    requires
        i <= input@.len(),
    ensures
        match r {
            Ok((p, j)) => {
                &&& j == i + 5 <= input@.len()
                &&& spec_position_at(input@, i as int) == Some(p)
            },
            Err(e) => e == Error::ParseError && spec_position_at(input@, i as int) is None,
        },
{
    if input.len() - i < 5 {
        return Err(Error::ParseError);
    }
    let (has_position, j) = match take_has_position(input, i) {
        Ok(v) => v,
        Err(e) => {
            return Err(e);
        },
    };
    if has_position {
        let (millis, j2) = match serato32::take_u32(input, j) {
            Ok(v) => v,
            Err(_) => {
                proof {
                    assert(false);
                }
                return Err(Error::ParseError);
            },
        };
        Ok((Some(Position { millis }), j2))
    } else {
        if input[j] == 0x7F && input[j + 1] == 0x7F && input[j + 2] == 0x7F && input[j + 3] == 0x7F {
            Ok((None, j + 4))
        } else {
            Err(Error::ParseError)
        }
    }
}

/// Parses the marker type byte at `i`.
pub fn take_marker_type(input: &[u8], i: usize) -> (r: Result<(MarkerType, usize), Error>)
    requires
        i <= input@.len(),
    ensures
        match r {
            Ok((t, j)) => {
                &&& j == i + 1 <= input@.len()
                &&& spec_marker_type(input@[i as int]) == Some(t)
            },
            Err(e) => e == Error::ParseError && (i == input@.len() || spec_marker_type(
                input@[i as int],
            ) is None),
        },
{
    if i == input.len() {
        return Err(Error::ParseError);
    }
    match input[i] {
        0x00 => Ok((MarkerType::Invalid, i + 1)),
        0x01 => Ok((MarkerType::Cue, i + 1)),
        0x03 => Ok((MarkerType::Loop, i + 1)),
        _ => Err(Error::ParseError),
    }
}

/// Parses one 22-byte marker entry at `i`.
pub fn take_marker(input: &[u8], i: usize) -> (r: Result<(Marker, usize), Error>)
    requires
        i <= input@.len(),
    ensures
        match r {
            Ok((m, j)) => {
                &&& j == i + 22 <= input@.len()
                &&& spec_marker_at(input@, i as int) == Some(m)
            },
            Err(e) => e == Error::ParseError && spec_marker_at(input@, i as int) is None,
        },
{
    if input.len() - i < 22 {
        return Err(Error::ParseError);
    }
    let (start_position, j1) = match take_position(input, i) {
        Ok(v) => v,
        Err(e) => {
            return Err(e);
        },
    };
    let (end_position, j2) = match take_position(input, j1) {
        Ok(v) => v,
        Err(e) => {
            return Err(e);
        },
    };
    if !(input[j2] == 0x00 && input[j2 + 1] == 0x7F && input[j2 + 2] == 0x7F && input[j2 + 3] == 0x7F
        && input[j2 + 4] == 0x7F && input[j2 + 5] == 0x7F) {
        proof {
            assert(input@.subrange(i + 10, i + 16) != filler_bytes());
        }
        return Err(Error::ParseError);
    }
    proof {
        assert(input@.subrange(i + 10, i + 16) =~= filler_bytes());
    }
    let (color, j3) = match serato32::take_color(input, j2 + 6) {
        Ok(v) => v,
        Err(_) => {
            proof {
                assert(false);
            }
            return Err(Error::ParseError);
        },
    };
    let (marker_type, j4) = match take_marker_type(input, j3) {
        Ok(v) => v,
        Err(e) => {
            return Err(e);
        },
    };
    let (is_locked, j5) = match take_bool(input, j4) {
        Ok(v) => v,
        Err(e) => {
            return Err(e);
        },
    };
    let m = Marker { start_position, end_position, color, marker_type, is_locked };
    Ok((m, j5))
}

/// Parses the `Serato Markers_` tag, consuming the whole input.
pub fn parse_markers(input: &[u8]) -> (r: Result<Markers, Error>)
    ensures
        match r {
            Ok(m) => {
                &&& spec_parse_markers(input@) == Some((m.version, m.entries@, m.track_color))
                &&& markers_wf(m)
            },
            Err(e) => e == Error::ParseError && spec_parse_markers(input@) is None,
        },
{
    let (version, i0) = match take_version(input, 0) {
        Ok(v) => v,
        Err(e) => {
            return Err(Error::ParseError);
        },
    };
    let (count, i1) = match take_be_u32(input, i0) {
        Ok(v) => v,
        Err(e) => {
            return Err(Error::ParseError);
        },
    };
    if (input.len() as u64) != 10u64 + 22u64 * (count as u64) {
        return Err(Error::ParseError);
    }
    let ghost s = input@;
    let mut entries: Vec<Marker> = Vec::new();
    let mut i = i1;
    let mut k: u32 = 0;
    while k < count
        invariant
            k <= count,
            i == 6 + 22 * k,
            s == input@,
            s.len() == 10 + 22 * count,
            entries@.len() == k,
            spec_markers_seq(s, 6, count as nat) == prepend_markers(
                entries@,
                spec_markers_seq(s, i as int, (count - k) as nat),
            ),
        decreases count - k,
    {
        let (m, j) = match take_marker(input, i) {
            Ok(v) => v,
            Err(e) => {
                proof {
                    assert(spec_markers_seq(s, i as int, (count - k) as nat) is None);
                }
                return Err(Error::ParseError);
            },
        };
        let ghost prev = entries@;
        entries.push(m);
        proof {
            let rest = spec_markers_seq(s, i + 22, (count - k - 1) as nat);
            assert(spec_markers_seq(s, i as int, (count - k) as nat) == prepend_markers(
                seq![m],
                rest,
            ));
            match rest {
                Some(r) => {
                    assert(prev + (seq![m] + r) =~= (prev.push(m)) + r);
                },
                None => {},
            }
        }
        i = j;
        k = k + 1;
    }
    proof {
        assert(spec_markers_seq(s, i as int, 0) == Some(Seq::<Marker>::empty()));
        assert(entries@ + Seq::<Marker>::empty() =~= entries@);
    }
    let (track_color, i2) = match serato32::take_color(input, i) {
        Ok(v) => v,
        Err(_) => {
            proof {
                assert(false);
            }
            return Err(Error::ParseError);
        },
    };
    let m = Markers { version, entries, track_color };
    Ok(m)
}

/// Appends the five-byte wire form of an optional position.
pub fn write_position(out: &mut Vec<u8>, position: Option<Position>) -> (n: usize)
    ensures
        final(out)@ == old(out)@ + position_bytes(position),
        n == 5,
{
    match position {
        Some(p) => {
            out.push(0x00);
            serato32::write_u32(out, p.millis);
            assert(out@ =~= old(out)@ + position_bytes(position));
        },
        None => {
            out.push(0x7F);
            out.push(0x7F);
            out.push(0x7F);
            out.push(0x7F);
            out.push(0x7F);
            assert(out@ =~= old(out)@ + position_bytes(position));
        },
    }
    5
}

/// Appends the wire byte of a marker type.
pub fn write_marker_type(out: &mut Vec<u8>, marker_type: MarkerType) -> (n: usize)
    ensures
        final(out)@ == old(out)@ + seq![mt_byte(marker_type)],
        n == 1,
{
    let byte: u8 = match marker_type {
        MarkerType::Invalid => 0x00,
        MarkerType::Cue => 0x01,
        MarkerType::Loop => 0x03,
    };
    out.push(byte);
    assert(out@ =~= old(out)@ + seq![mt_byte(marker_type)]);
    1
}

/// Appends the wire byte of a boolean.
pub fn write_bool(out: &mut Vec<u8>, value: bool) -> (n: usize)
    ensures
        final(out)@ == old(out)@ + seq![bool_byte(value)],
        n == 1,
{
    let byte: u8 = if value {
        0x01
    } else {
        0x00
    };
    out.push(byte);
    assert(out@ =~= old(out)@ + seq![bool_byte(value)]);
    1
}

/// Appends the 22-byte wire form of one marker entry.
fn write_marker(out: &mut Vec<u8>, marker: &Marker) -> (n: usize)
    ensures
        final(out)@ == old(out)@ + marker_bytes(*marker),
        n == 22,
{
    write_position(out, marker.start_position);
    write_position(out, marker.end_position);
    out.push(0x00);
    out.push(0x7F);
    out.push(0x7F);
    out.push(0x7F);
    out.push(0x7F);
    out.push(0x7F);
    serato32::write_color(out, marker.color);
    write_marker_type(out, marker.marker_type);
    write_bool(out, marker.is_locked);
    assert(out@ =~= old(out)@ + marker_bytes(*marker));
    22
}

/// Serializes a [`Markers`] to its byte form, appending to `out`.
pub fn write_markers(out: &mut Vec<u8>, markers: &Markers) -> (n: usize)
    requires
        markers_wf(*markers),
    ensures
        final(out)@ == old(out)@ + markers_bytes(*markers),
        n == markers_bytes(*markers).len(),
{
    let start = out.len();
    write_version(out, markers.version);
    write_be_u32(out, markers.entries.len() as u32);
    let mut k: usize = 0;
    while k < markers.entries.len()
        invariant
            k <= markers.entries@.len(),
            out@ == old(out)@ + version_bytes(markers.version) + be_u32_bytes(
                markers.entries@.len() as u32,
            ) + entries_bytes(markers.entries@.take(k as int)),
            out@.len() >= start == old(out)@.len(),
            markers.entries@.len() <= u32::MAX,
        decreases markers.entries@.len() - k,
    {
        proof {
            lemma_entries_bytes_push(markers.entries@.take(k as int), markers.entries@[k as int]);
            assert(markers.entries@.take(k as int).push(markers.entries@[k as int])
                =~= markers.entries@.take(k + 1));
        }
        write_marker(out, &markers.entries[k]);
        k = k + 1;
    }
    proof {
        assert(markers.entries@.take(markers.entries@.len() as int) =~= markers.entries@);
    }
    serato32::write_color(out, markers.track_color);
    proof {
        assert(out@ =~= old(out)@ + markers_bytes(*markers));
    }
    out.len() - start
}

/// The 19-byte wire form of one marker entry in the MP4 variant: plain
/// big-endian positions with an `0xFFFFFFFF` absent sentinel, fixed filler
/// and a plain three-byte color.
pub open spec fn marker_mp4_bytes(m: Marker) -> Seq<u8> {
    position_mp4_bytes(m.start_position) + position_mp4_bytes(m.end_position) + seq![
        0x00u8,
        0xFFu8,
        0xFFu8,
        0xFFu8,
        0xFFu8,
        0x00u8,
    ] + color_bytes(m.color) + seq![mt_byte(m.marker_type), bool_byte(m.is_locked)]
}

/// The four-byte wire form of an optional position in the MP4 variant.
pub open spec fn position_mp4_bytes(p: Option<Position>) -> Seq<u8> {
    match p {
        Some(pos) => be_u32_bytes(pos.millis),
        None => seq![0xFFu8, 0xFFu8, 0xFFu8, 0xFFu8],
    }
}

/// The marker entry whose 19-byte MP4 encoding starts at `s[i]`, or `None`
/// when the bytes there are not a marker encoding.  The six filler bytes
/// are ignored on reading, and the end position is meaningful only for
/// loops.
pub open spec fn spec_marker_mp4_at(s: Seq<u8>, i: int) -> Option<Marker> {
    if i + 19 <= s.len() {
        match (spec_marker_type(s[i + 17]), spec_bool(s[i + 18])) {
            (Some(t), Some(l)) => Some(
                Marker {
                    start_position: if be_u32_at(s, i) != 0xFFFFFFFF {
                        Some(Position { millis: be_u32_at(s, i) as u32 })
                    } else {
                        None
                    },
                    end_position: if be_u32_at(s, i + 4) != 0xFFFFFFFF && t == MarkerType::Loop {
                        Some(Position { millis: be_u32_at(s, i + 4) as u32 })
                    } else {
                        None
                    },
                    color: Color { red: s[i + 14], green: s[i + 15], blue: s[i + 16] },
                    marker_type: t,
                    is_locked: l,
                },
            ),
            _ => None,
        }
    } else {
        None
    }
}

/// The sequence of `n` MP4 marker entries encoded back-to-back from `s[i]`
/// on, or `None` when any of them is malformed.
pub open spec fn spec_markers_mp4_seq(s: Seq<u8>, i: int, n: nat) -> Option<Seq<Marker>>
    decreases n,
{
    if n == 0 {
        Some(Seq::empty())
    } else {
        match spec_marker_mp4_at(s, i) {
            Some(m) => match spec_markers_mp4_seq(s, i + 19, (n - 1) as nat) {
                Some(rest) => Some(seq![m] + rest),
                None => None,
            },
            None => None,
        }
    }
}

/// The parse of the MP4 variant of the tag body: version, entries, a NUL
/// byte and the plain track color, or `None` when the input is malformed.
pub open spec fn spec_parse_markers_mp4(s: Seq<u8>) -> Option<(Version, Seq<Marker>, Color)> {
    if s.len() >= 6 && s.len() == 10 + 19 * be_u32_at(s, 2) && s[s.len() - 4] == 0x00 {
        match spec_markers_mp4_seq(s, 6, be_u32_at(s, 2) as nat) {
            Some(ms) => Some(
                (
                    Version { major: s[0], minor: s[1] },
                    ms,
                    Color { red: s[s.len() - 3], green: s[s.len() - 2], blue: s[s.len() - 1] },
                ),
            ),
            None => None,
        }
    } else {
        None
    }
}

/// Parses one 19-byte MP4 marker entry at `i`.
fn take_marker_mp4(input: &[u8], i: usize) -> (r: Result<(Marker, usize), Error>)
    requires
        i <= input@.len(),
    ensures
        match r {
            Ok((m, j)) => {
                &&& j == i + 19 <= input@.len()
                &&& spec_marker_mp4_at(input@, i as int) == Some(m)
            },
            Err(e) => e == Error::ParseError && spec_marker_mp4_at(input@, i as int) is None,
        },
{
    if input.len() - i < 19 {
        return Err(Error::ParseError);
    }
    let (start_raw, j1) = match take_be_u32(input, i) {
        Ok(v) => v,
        Err(_) => {
            proof {
                assert(false);
            }
            return Err(Error::ParseError);
        },
    };
    let (end_raw, j2) = match take_be_u32(input, j1) {
        Ok(v) => v,
        Err(_) => {
            proof {
                assert(false);
            }
            return Err(Error::ParseError);
        },
    };
    let (color, j3) = match take_color(input, j2 + 6) {
        Ok(v) => v,
        Err(_) => {
            proof {
                assert(false);
            }
            return Err(Error::ParseError);
        },
    };
    let (marker_type, j4) = match take_marker_type(input, j3) {
        Ok(v) => v,
        Err(e) => {
            return Err(e);
        },
    };
    let (is_locked, j5) = match take_bool(input, j4) {
        Ok(v) => v,
        Err(e) => {
            return Err(e);
        },
    };
    let start_position = if start_raw != 0xFFFFFFFF {
        Some(Position { millis: start_raw })
    } else {
        None
    };
    let end_position = if end_raw != 0xFFFFFFFF && matches!(marker_type, MarkerType::Loop) {
        Some(Position { millis: end_raw })
    } else {
        None
    };
    let m = Marker { start_position, end_position, color, marker_type, is_locked };
    Ok((m, j5))
}

/// Parses the MP4 variant of the tag body, consuming the whole input.
pub fn parse_markers_mp4(input: &[u8]) -> (r: Result<Markers, Error>)
    ensures
        match r {
            Ok(m) => {
                &&& spec_parse_markers_mp4(input@) == Some((m.version, m.entries@, m.track_color))
                &&& markers_wf(m)
            },
            Err(e) => e == Error::ParseError && spec_parse_markers_mp4(input@) is None,
        },
{
    let (version, i0) = match take_version(input, 0) {
        Ok(v) => v,
        Err(e) => {
            return Err(Error::ParseError);
        },
    };
    let (count, i1) = match take_be_u32(input, i0) {
        Ok(v) => v,
        Err(e) => {
            return Err(Error::ParseError);
        },
    };
    if (input.len() as u64) != 10u64 + 19u64 * (count as u64) {
        return Err(Error::ParseError);
    }
    let ghost s = input@;
    let mut entries: Vec<Marker> = Vec::new();
    let mut i = i1;
    let mut k: u32 = 0;
    while k < count
        invariant
            k <= count,
            i == 6 + 19 * k,
            s == input@,
            s.len() == 10 + 19 * count,
            entries@.len() == k,
            spec_markers_mp4_seq(s, 6, count as nat) == prepend_markers(
                entries@,
                spec_markers_mp4_seq(s, i as int, (count - k) as nat),
            ),
        decreases count - k,
    {
        let (m, j) = match take_marker_mp4(input, i) {
            Ok(v) => v,
            Err(e) => {
                proof {
                    assert(spec_markers_mp4_seq(s, i as int, (count - k) as nat) is None);
                }
                return Err(Error::ParseError);
            },
        };
        let ghost prev = entries@;
        entries.push(m);
        proof {
            let rest = spec_markers_mp4_seq(s, i + 19, (count - k - 1) as nat);
            assert(spec_markers_mp4_seq(s, i as int, (count - k) as nat) == prepend_markers(
                seq![m],
                rest,
            ));
            match rest {
                Some(r) => {
                    assert(prev + (seq![m] + r) =~= (prev.push(m)) + r);
                },
                None => {},
            }
        }
        i = j;
        k = k + 1;
    }
    proof {
        assert(spec_markers_mp4_seq(s, i as int, 0) == Some(Seq::<Marker>::empty()));
        assert(entries@ + Seq::<Marker>::empty() =~= entries@);
    }
    if input[i] != 0x00 {
        return Err(Error::ParseError);
    }
    let (track_color, _i2) = match take_color(input, i + 1) {
        Ok(v) => v,
        Err(_) => {
            proof {
                assert(false);
            }
            return Err(Error::ParseError);
        },
    };
    let m = Markers { version, entries, track_color };
    Ok(m)
}

/// Appends the four-byte MP4 wire form of an optional position.
pub fn write_position_mp4(out: &mut Vec<u8>, position: Option<Position>) -> (n: usize)
    ensures
        final(out)@ == old(out)@ + position_mp4_bytes(position),
        n == 4,
{
    match position {
        Some(p) => {
            write_be_u32(out, p.millis);
        },
        None => {
            out.push(0xFF);
            out.push(0xFF);
            out.push(0xFF);
            out.push(0xFF);
            assert(out@ =~= old(out)@ + position_mp4_bytes(position));
        },
    }
    4
}

/// The concatenated MP4 wire forms of a sequence of marker entries.
pub open spec fn entries_mp4_bytes(s: Seq<Marker>) -> Seq<u8>
    decreases s.len(),
{
    if s.len() == 0 {
        Seq::empty()
    } else {
        marker_mp4_bytes(s.first()) + entries_mp4_bytes(s.drop_first())
    }
}

/// Concatenation distributes over appending one entry at the end.
pub proof fn lemma_entries_mp4_bytes_push(s: Seq<Marker>, m: Marker)
    ensures
        entries_mp4_bytes(s.push(m)) == entries_mp4_bytes(s) + marker_mp4_bytes(m),
    decreases s.len(),
{
    if s.len() == 0 {
        assert(s.push(m).drop_first() =~= Seq::<Marker>::empty());
        assert(s.push(m).first() == m);
        assert(entries_mp4_bytes(s.push(m)) == marker_mp4_bytes(m) + entries_mp4_bytes(
            Seq::<Marker>::empty(),
        ));
        assert(entries_mp4_bytes(Seq::<Marker>::empty()) == Seq::<u8>::empty());
        assert(entries_mp4_bytes(s.push(m)) =~= entries_mp4_bytes(s) + marker_mp4_bytes(m));
    } else {
        assert(s.push(m).drop_first() =~= s.drop_first().push(m));
        lemma_entries_mp4_bytes_push(s.drop_first(), m);
        assert(entries_mp4_bytes(s.push(m)) =~= entries_mp4_bytes(s) + marker_mp4_bytes(m));
    }
}

/// The MP4 byte form of the tag body: version, entry count, entries, a NUL
/// byte and the plain track color.
pub open spec fn markers_mp4_bytes(m: Markers) -> Seq<u8> {
    version_bytes(m.version) + be_u32_bytes(m.entries@.len() as u32) + entries_mp4_bytes(m.entries@)
        + seq![0x00u8] + color_bytes(m.track_color)
}

/// Appends the 19-byte MP4 wire form of one marker entry.
fn write_marker_mp4(out: &mut Vec<u8>, marker: &Marker) -> (n: usize)
    ensures
        final(out)@ == old(out)@ + marker_mp4_bytes(*marker),
        n == 19,
{
    write_position_mp4(out, marker.start_position);
    write_position_mp4(out, marker.end_position);
    out.push(0x00);
    out.push(0xFF);
    out.push(0xFF);
    out.push(0xFF);
    out.push(0xFF);
    out.push(0x00);
    write_color(out, marker.color);
    write_marker_type(out, marker.marker_type);
    write_bool(out, marker.is_locked);
    assert(out@ =~= old(out)@ + marker_mp4_bytes(*marker));
    19
}

/// Serializes a [`Markers`] to its MP4 byte form, appending to `out`.
pub fn write_markers_mp4(out: &mut Vec<u8>, markers: &Markers) -> (n: usize)
    requires
        markers_wf(*markers),
    ensures
        final(out)@ == old(out)@ + markers_mp4_bytes(*markers),
        n == markers_mp4_bytes(*markers).len(),
{
    let start = out.len();
    write_version(out, markers.version);
    write_be_u32(out, markers.entries.len() as u32);
    let mut k: usize = 0;
    while k < markers.entries.len()
        invariant
            k <= markers.entries@.len(),
            out@ == old(out)@ + version_bytes(markers.version) + be_u32_bytes(
                markers.entries@.len() as u32,
            ) + entries_mp4_bytes(markers.entries@.take(k as int)),
            out@.len() >= start == old(out)@.len(),
            markers.entries@.len() <= u32::MAX,
        decreases markers.entries@.len() - k,
    {
        proof {
            lemma_entries_mp4_bytes_push(
                markers.entries@.take(k as int),
                markers.entries@[k as int],
            );
            assert(markers.entries@.take(k as int).push(markers.entries@[k as int])
                =~= markers.entries@.take(k + 1));
        }
        write_marker_mp4(out, &markers.entries[k]);
        k = k + 1;
    }
    proof {
        assert(markers.entries@.take(markers.entries@.len() as int) =~= markers.entries@);
    }
    out.push(0x00);
    write_color(out, markers.track_color);
    proof {
        assert(out@ =~= old(out)@ + markers_mp4_bytes(*markers));
    }
    out.len() - start
}

/// True when an entry belongs to the cue list: unset (`Invalid`) or set
/// (`Cue`) cues.
pub open spec fn is_cue_entry(m: Marker) -> bool {
    m.marker_type == MarkerType::Invalid || m.marker_type == MarkerType::Cue
}

/// True when an entry belongs to the loop list.
pub open spec fn is_loop_entry(m: Marker) -> bool {
    m.marker_type == MarkerType::Loop
}

/// The subsequence of cue-type entries, in order.
pub open spec fn cue_entries(s: Seq<Marker>) -> Seq<Marker>
    decreases s.len(),
{
    if s.len() == 0 {
        Seq::empty()
    } else if is_cue_entry(s.last()) {
        cue_entries(s.drop_last()).push(s.last())
    } else {
        cue_entries(s.drop_last())
    }
}

/// The subsequence of loop-type entries, in order.
pub open spec fn loop_entries(s: Seq<Marker>) -> Seq<Marker>
    decreases s.len(),
{
    if s.len() == 0 {
        Seq::empty()
    } else if is_loop_entry(s.last()) {
        loop_entries(s.drop_last()).push(s.last())
    } else {
        loop_entries(s.drop_last())
    }
}

/// There are never more cue-type entries than entries.
pub proof fn lemma_cue_entries_len(s: Seq<Marker>)
    ensures
        cue_entries(s).len() <= s.len(),
    decreases s.len(),
{
    if s.len() > 0 {
        lemma_cue_entries_len(s.drop_last());
    }
}

/// There are never more loop-type entries than entries.
pub proof fn lemma_loop_entries_len(s: Seq<Marker>)
    ensures
        loop_entries(s).len() <= s.len(),
    decreases s.len(),
{
    if s.len() > 0 {
        lemma_loop_entries_len(s.drop_last());
    }
}

impl Markers {
    /// Returns the cue-type entries (set and unset cues), each paired with
    /// its cue index: the how-many-th cue-type entry it is.
    pub fn cues(&self) -> (r: Vec<(u8, Marker)>)
        requires
            self.entries@.len() <= 255,
        ensures
            r@.len() == cue_entries(self.entries@).len(),
            forall|t: int|
                0 <= t < r@.len() ==> #[trigger] r@[t] == (t as u8, cue_entries(self.entries@)[t]),
    {
        let mut cues: Vec<(u8, Marker)> = Vec::new();
        let mut k: usize = 0;
        while k < self.entries.len()
            invariant
                k <= self.entries@.len() <= 255,
                cues@.len() == cue_entries(self.entries@.take(k as int)).len(),
                forall|t: int|
                    0 <= t < cues@.len() ==> #[trigger] cues@[t] == (
                        t as u8,
                        cue_entries(self.entries@.take(k as int))[t],
                    ),
            decreases self.entries@.len() - k,
        {
            proof {
                assert(self.entries@.take(k + 1).drop_last() =~= self.entries@.take(k as int));
                assert(self.entries@.take(k + 1).last() == self.entries@[k as int]);
                lemma_cue_entries_len(self.entries@.take(k as int));
            }
            let m = self.entries[k];
            if matches!(m.marker_type, MarkerType::Invalid | MarkerType::Cue) {
                let index = cues.len() as u8;
                cues.push((index, m));
            }
            k = k + 1;
        }
        proof {
            assert(self.entries@.take(self.entries@.len() as int) =~= self.entries@);
        }
        cues
    }

    /// Returns the loop-type entries, each paired with its loop index: the
    /// how-many-th loop-type entry it is.
    pub fn loops(&self) -> (r: Vec<(u8, Marker)>)
        requires
            self.entries@.len() <= 255,
        ensures
            r@.len() == loop_entries(self.entries@).len(),
            forall|t: int|
                0 <= t < r@.len() ==> #[trigger] r@[t] == (t as u8, loop_entries(self.entries@)[t]),
    {
        let mut loops: Vec<(u8, Marker)> = Vec::new();
        let mut k: usize = 0;
        while k < self.entries.len()
            invariant
                k <= self.entries@.len() <= 255,
                loops@.len() == loop_entries(self.entries@.take(k as int)).len(),
                forall|t: int|
                    0 <= t < loops@.len() ==> #[trigger] loops@[t] == (
                        t as u8,
                        loop_entries(self.entries@.take(k as int))[t],
                    ),
            decreases self.entries@.len() - k,
        {
            proof {
                assert(self.entries@.take(k + 1).drop_last() =~= self.entries@.take(k as int));
                assert(self.entries@.take(k + 1).last() == self.entries@[k as int]);
                lemma_loop_entries_len(self.entries@.take(k as int));
            }
            let m = self.entries[k];
            if matches!(m.marker_type, MarkerType::Loop) {
                let index = loops.len() as u8;
                loops.push((index, m));
            }
            k = k + 1;
        }
        proof {
            assert(self.entries@.take(self.entries@.len() as int) =~= self.entries@);
        }
        loops
    }

    /// Returns the track color.
    pub fn track_color(&self) -> (r: Color)
        ensures
            r == self.track_color,
    {
        self.track_color
    }
}

/// The tag's name, as embedded in envelopes and ID3 frame descriptions.
pub fn markers_tag_name() -> (r: &'static str)
    ensures
        r@ == "Serato Markers_"@,
{
    "Serato Markers_"
}

/// The MP4 freeform atom name that carries this tag.
pub fn markers_mp4_atom_name() -> (r: &'static str)
    ensures
        r@ == "markers"@,
{
    "markers"
}

} // verus!
