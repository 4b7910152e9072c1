//! The `Serato BeatGrid` tag stores the beatgrid markers: zero or more
//! non-terminal markers followed by exactly one terminal marker and one
//! opaque footer byte.

use crate::error::Error;
use crate::tag::generic::Version;
use crate::tag::util::{
    be_u32_at, be_u32_bytes, take_be_u32, take_version, version_bytes, write_be_u32, write_version,
};
use vstd::prelude::*;

verus! {

/// The terminal beatgrid marker; the last marker always has to be one.
///
/// The wire format stores the fields as big-endian IEEE-754 single-precision
/// floats; they are kept here as their raw 32-bit patterns so that
/// re-encoding is bit-exact.
#[derive(Debug, Clone, Copy, PartialEq, Eq, Structural)]
pub struct TerminalMarker {
    /// Bit pattern of the position in seconds.
    pub position: u32,
    /// Bit pattern of the track's beats per minute.
    pub bpm: u32,
}

/// A non-terminal beatgrid marker: every marker before the last one.
#[derive(Debug, Clone, Copy, PartialEq, Eq, Structural)]
pub struct NonTerminalMarker {
    /// Bit pattern of the position in seconds (IEEE-754 single precision).
    pub position: u32,
    /// The number of beats between this marker and the next one (inclusive).
    pub beats_till_next_marker: u32,
}

/// Represents the `Serato BeatGrid` tag.
#[derive(Debug, Clone, PartialEq)]
pub struct Beatgrid {
    /// The analysis version.
    pub version: Version,
    /// Zero or more non-terminal beatgrid markers.
    pub non_terminal_markers: Vec<NonTerminalMarker>,
    /// The terminal beatgrid marker.
    pub terminal_marker: TerminalMarker,
    /// A single footer byte that is apparently random.
    pub footer: u8,
}

/// The byte form of a non-terminal marker.
pub open spec fn ntm_bytes(m: NonTerminalMarker) -> Seq<u8> {
    be_u32_bytes(m.position) + be_u32_bytes(m.beats_till_next_marker)
}

/// The byte form of the terminal marker.
pub open spec fn tm_bytes(m: TerminalMarker) -> Seq<u8> {
    be_u32_bytes(m.position) + be_u32_bytes(m.bpm)
}

/// The concatenated byte forms of a sequence of non-terminal markers.
pub open spec fn ntms_bytes(s: Seq<NonTerminalMarker>) -> Seq<u8>
    decreases s.len(),
{
    if s.len() == 0 {
        Seq::empty()
    } else {
        ntm_bytes(s.first()) + ntms_bytes(s.drop_first())
    }
}

/// Concatenation distributes over appending one marker at the end.
pub proof fn lemma_ntms_bytes_push(s: Seq<NonTerminalMarker>, m: NonTerminalMarker)
    ensures
        ntms_bytes(s.push(m)) == ntms_bytes(s) + ntm_bytes(m),
    decreases s.len(),
{
    if s.len() == 0 {
        assert(s.push(m).drop_first() =~= Seq::<NonTerminalMarker>::empty());
        assert(s.push(m).first() == m);
        assert(ntms_bytes(s.push(m)) == ntm_bytes(m) + ntms_bytes(Seq::<NonTerminalMarker>::empty()));
        assert(ntms_bytes(Seq::<NonTerminalMarker>::empty()) == Seq::<u8>::empty());
        assert(ntms_bytes(s.push(m)) =~= ntms_bytes(s) + ntm_bytes(m));
    } else {
        assert(s.push(m).drop_first() =~= s.drop_first().push(m));
        lemma_ntms_bytes_push(s.drop_first(), m);
        assert(ntms_bytes(s.push(m)) =~= ntms_bytes(s) + ntm_bytes(m));
    }
}

/// The total marker count (non-terminal markers plus the terminal one) fits
/// the wire format's `u32` count field.
pub open spec fn beatgrid_wf(b: Beatgrid) -> bool {
    b.non_terminal_markers@.len() + 1 <= u32::MAX
}

/// The tag's byte form: version, total marker count, the non-terminal
/// markers, the terminal marker and the footer byte.
pub open spec fn beatgrid_bytes(b: Beatgrid) -> Seq<u8> {
    version_bytes(b.version) + be_u32_bytes((b.non_terminal_markers@.len() + 1) as u32)
        + ntms_bytes(b.non_terminal_markers@) + tm_bytes(
        b.terminal_marker,
    ) + seq![b.footer]
}

/// Parses the `u32` total marker count at `i` and returns it decremented by
/// one: the number of non-terminal markers.  A total count of zero is a
/// parse error.
pub fn take_non_terminal_marker_count(input: &[u8], i: usize) -> (r: Result<(u32, usize), Error>)
    requires
        i <= input@.len(),
    ensures
        match r {
            Ok((c, j)) => {
                &&& j == i + 4 <= input@.len()
                &&& be_u32_at(input@, i as int) == c + 1
                &&& input@.subrange(i as int, j as int) == be_u32_bytes((c + 1) as u32)
            },
            Err(e) => e == Error::ParseError && (i + 4 > input@.len() || be_u32_at(input@, i as int)
                == 0),
        },
{
    let (count, j) = match take_be_u32(input, i) {
        Ok(v) => v,
        Err(e) => {
            return Err(e);
        },
    };
    if count == 0 {
        return Err(Error::ParseError);
    }
    Ok((count - 1, j))
}

/// True when the bytes have the tag's shape: a version, a total marker
/// count of at least one, and exactly the length that count calls for.
pub open spec fn beatgrid_shape_ok(s: Seq<u8>) -> bool {
    &&& s.len() >= 6
    &&& be_u32_at(s, 2) >= 1
    &&& s.len() == 15 + 8 * (be_u32_at(s, 2) - 1)
}

/// Parses the `Serato BeatGrid` tag, consuming the whole input; exactly the
/// inputs described by [`beatgrid_shape_ok`] parse.
///
/// On success the number of non-terminal markers is exactly the encoded
/// total marker count minus one, and an encoded total of zero is a parse
/// error.
pub fn parse_beatgrid(input: &[u8]) -> (r: Result<Beatgrid, Error>)
    ensures
        match r {
            Ok(b) => {
                &&& input@ == beatgrid_bytes(b)
                &&& beatgrid_wf(b)
                &&& input@.len() >= 6 && b.non_terminal_markers@.len() == be_u32_at(input@, 2) - 1
                &&& beatgrid_shape_ok(input@)
            },
            Err(e) => {
                &&& e == Error::ParseError
                &&& !beatgrid_shape_ok(input@)
            },
        },
{
    let (version, mut i) = match take_version(input, 0) {
        Ok(v) => v,
        Err(e) => {
            return Err(Error::ParseError);
        },
    };
    let (count, j) = match take_non_terminal_marker_count(input, i) {
        Ok(v) => v,
        Err(e) => {
            return Err(Error::ParseError);
        },
    };
    i = j;
    if (input.len() as u64) != 15u64 + 8u64 * (count as u64) {
        return Err(Error::ParseError);
    }
    let mut markers: Vec<NonTerminalMarker> = Vec::new();
    let mut k: u32 = 0;
    while k < count
        invariant
            k <= count,
            i == 6 + 8 * k,
            input@.len() == 15 + 8 * count,
            markers@.len() == k,
            ntms_bytes(markers@) == input@.subrange(6, i as int),
        decreases count - k,
    {
        let (position, j1) = match take_be_u32(input, i) {
            Ok(v) => v,
            Err(_) => {
                proof {
                    assert(false);
                }
                return Err(Error::ParseError);
            },
        };
        let (beats, j2) = match take_be_u32(input, j1) {
            Ok(v) => v,
            Err(_) => {
                proof {
                    assert(false);
                }
                return Err(Error::ParseError);
            },
        };
        let m = NonTerminalMarker { position, beats_till_next_marker: beats };
        let ghost prev = markers@;
        markers.push(m);
        proof {
            lemma_ntms_bytes_push(prev, m);
            assert(ntm_bytes(m) =~= input@.subrange(i as int, i + 8));
            assert(input@.subrange(6, i as int) + input@.subrange(i as int, i + 8)
                =~= input@.subrange(6, i + 8));
        }
        i = j2;
        k = k + 1;
    }
    let (tpos, j3) = match take_be_u32(input, i) {
        Ok(v) => v,
        Err(_) => {
            proof {
                assert(false);
            }
            return Err(Error::ParseError);
        },
    };
    let (tbpm, j4) = match take_be_u32(input, j3) {
        Ok(v) => v,
        Err(_) => {
            proof {
                assert(false);
            }
            return Err(Error::ParseError);
        },
    };
    let footer = input[j4];
    let b = Beatgrid {
        version,
        non_terminal_markers: markers,
        terminal_marker: TerminalMarker { position: tpos, bpm: tbpm },
        footer,
    };
    proof {
        assert(tm_bytes(b.terminal_marker) =~= input@.subrange(i as int, i + 8));
        assert(seq![b.footer] =~= input@.subrange(i + 8, i + 9));
        assert(input@ =~= version_bytes(b.version) + be_u32_bytes((count + 1) as u32)
            + input@.subrange(6, i as int) + input@.subrange(i as int, i + 8) + input@.subrange(
            i + 8,
            i + 9,
        ));
    }
    Ok(b)
}

/// Serializes a [`NonTerminalMarker`], appending to `out`.
pub fn write_non_terminal_marker(out: &mut Vec<u8>, marker: &NonTerminalMarker) -> (n: usize)
    ensures
        final(out)@ == old(out)@ + ntm_bytes(*marker),
        n == 8,
{
    write_be_u32(out, marker.position);
    write_be_u32(out, marker.beats_till_next_marker);
    assert(out@ =~= old(out)@ + ntm_bytes(*marker));
    8
}

/// Serializes a [`TerminalMarker`], appending to `out`.
pub fn write_terminal_marker(out: &mut Vec<u8>, marker: &TerminalMarker) -> (n: usize)
    ensures
        final(out)@ == old(out)@ + tm_bytes(*marker),
        n == 8,
{
    write_be_u32(out, marker.position);
    write_be_u32(out, marker.bpm);
    assert(out@ =~= old(out)@ + tm_bytes(*marker));
    8
}

/// Serializes a [`Beatgrid`] to its byte form, appending to `out`.
pub fn write_beatgrid(out: &mut Vec<u8>, beatgrid: &Beatgrid) -> (n: usize)
    requires
        beatgrid_wf(*beatgrid),
    ensures
        final(out)@ == old(out)@ + beatgrid_bytes(*beatgrid),
        n == beatgrid_bytes(*beatgrid).len(),
{
    let start = out.len();
    write_version(out, beatgrid.version);
    let num_markers = beatgrid.non_terminal_markers.len() as u32 + 1;
    write_be_u32(out, num_markers);
    let mut k: usize = 0;
    while k < beatgrid.non_terminal_markers.len()
        invariant
            k <= beatgrid.non_terminal_markers@.len(),
            out@ == old(out)@ + version_bytes(beatgrid.version) + be_u32_bytes(
                (beatgrid.non_terminal_markers@.len() + 1) as u32,
            ) + ntms_bytes(beatgrid.non_terminal_markers@.take(k as int)),
            out@.len() >= start == old(out)@.len(),
            beatgrid.non_terminal_markers@.len() + 1 <= u32::MAX,
        decreases beatgrid.non_terminal_markers@.len() - k,
    {
        proof {
            lemma_ntms_bytes_push(
                beatgrid.non_terminal_markers@.take(k as int),
                beatgrid.non_terminal_markers@[k as int],
            );
            assert(beatgrid.non_terminal_markers@.take(k as int).push(
                beatgrid.non_terminal_markers@[k as int],
            ) =~= beatgrid.non_terminal_markers@.take(k + 1));
        }
        write_non_terminal_marker(out, &beatgrid.non_terminal_markers[k]);
        k = k + 1;
    }
    proof {
        assert(beatgrid.non_terminal_markers@.take(beatgrid.non_terminal_markers@.len() as int)
            =~= beatgrid.non_terminal_markers@);
    }
    write_terminal_marker(out, &beatgrid.terminal_marker);
    out.push(beatgrid.footer);
    proof {
        assert(out@ =~= old(out)@ + beatgrid_bytes(*beatgrid));
    }
    out.len() - start
}

/// The tag's name, as embedded in envelopes and ID3 frame descriptions.
pub fn beatgrid_tag_name() -> (r: &'static str)
    ensures
        r@ == "Serato BeatGrid"@,
{
    "Serato BeatGrid"
}

/// The FLAC Vorbis-comment key that carries this tag.
pub fn beatgrid_flac_comment() -> (r: &'static str)
    ensures
        r@ == "SERATO_BEATGRID"@,
{
    "SERATO_BEATGRID"
}

/// The MP4 freeform atom name that carries this tag.
pub fn beatgrid_mp4_atom_name() -> (r: &'static str)
    ensures
        r@ == "beatgrid"@,
{
    "beatgrid"
}

} // verus!
