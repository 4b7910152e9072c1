//! The `Serato Analysis` tag stores the two-byte analysis version.
//!
//! In Ogg files the version is stored as a plain ASCII `"major.minor"` string
//! instead of two raw bytes.

use crate::error::Error;
use crate::tag::generic::Version;
use crate::tag::util::{take_version, version_bytes, write_version};
use vstd::prelude::*;

verus! {

/// Represents the `Serato Analysis` tag.
#[derive(Debug, Clone, Copy, PartialEq, Eq, Structural)]
pub struct Analysis {
    /// The analysis version.
    pub version: Version,
}

/// The tag's byte form: exactly the two version bytes.
pub open spec fn analysis_bytes(a: Analysis) -> Seq<u8> {
    version_bytes(a.version)
}

/// The tag's Ogg byte form for single-digit version components:
/// `"major.minor"` in ASCII.
pub open spec fn analysis_ogg_bytes(a: Analysis) -> Seq<u8> {
    seq![(a.version.major + 0x30) as u8, 0x2Eu8, (a.version.minor + 0x30) as u8]
}

/// True when `s[i..j]` holds only ASCII digits.
pub open spec fn all_digits(s: Seq<u8>, i: int, j: int) -> bool {
    forall|k: int| i <= k < j ==> 0x30 <= #[trigger] s[k] <= 0x39
}

/// The decimal value of the ASCII digit run `s[i..j]`.
pub open spec fn digits_val(s: Seq<u8>, i: int, j: int) -> int
    decreases j - i,
{
    if i >= j {
        0
    } else {
        digits_val(s, i, j - 1) * 10 + (s[j - 1] - 0x30)
    }
}

/// The value of a digit run is never negative.
proof fn lemma_digits_val_nonneg(s: Seq<u8>, i: int, j: int)
    requires
        all_digits(s, i, j),
    ensures
        digits_val(s, i, j) >= 0,
    decreases j - i,
{
    if i < j {
        lemma_digits_val_nonneg(s, i, j - 1);
    }
}

/// Appending digits never decreases the value of a digit run.
proof fn lemma_digits_val_monotone(s: Seq<u8>, i: int, j: int, k: int)
    requires
        i <= j <= k,
        all_digits(s, i, k),
    ensures
        digits_val(s, i, j) <= digits_val(s, i, k),
    decreases k - j,
{
    lemma_digits_val_nonneg(s, i, j);
    if j < k {
        lemma_digits_val_monotone(s, i, j, k - 1);
        lemma_digits_val_nonneg(s, i, k - 1);
        assert(digits_val(s, i, k) == digits_val(s, i, k - 1) * 10 + (s[k - 1] - 0x30));
        assert(digits_val(s, i, k - 1) * 10 >= digits_val(s, i, k - 1)) by (nonlinear_arith)
            requires
                digits_val(s, i, k - 1) >= 0,
        ;
    }
}

/// Parses a maximal ASCII decimal digit run starting at `i` into a `u8`.
fn take_ascii_u8(input: &[u8], i: usize) -> (r: Result<(u8, usize), Error>)
    requires
        i <= input@.len(),
    ensures
        match r {
            Ok((v, j)) => {
                &&& i < j <= input@.len()
                &&& all_digits(input@, i as int, j as int)
                &&& (j < input@.len() ==> !(0x30 <= input@[j as int] <= 0x39))
                &&& v == digits_val(input@, i as int, j as int)
            },
            Err(e) => {
                &&& e == Error::ParseError
                &&& (i == input@.len() || !(0x30 <= input@[i as int] <= 0x39) || (exists|j: int|
                    #![trigger digits_val(input@, i as int, j)]
                    i < j <= input@.len() && all_digits(input@, i as int, j) && digits_val(
                        input@,
                        i as int,
                        j,
                    ) > 255))
            },
        },
{
    let len = input.len();
    if i == len || input[i] < 0x30 || input[i] > 0x39 {
        return Err(Error::ParseError);
    }
    let mut j = i;
    let mut acc: u32 = 0;
    while j < len && input[j] >= 0x30 && input[j] <= 0x39
        invariant
            i <= j <= len == input@.len(),
            all_digits(input@, i as int, j as int),
            acc == digits_val(input@, i as int, j as int),
            acc <= 255,
        decreases len - j,
    {
        acc = acc * 10 + (input[j] - 0x30) as u32;
        j = j + 1;
        if acc > 255 {
            proof {
                let jj = j as int;
                assert(digits_val(input@, i as int, jj) > 255);
            }
            return Err(Error::ParseError);
        }
    }
    Ok((acc as u8, j))
}

/// Parses the `Serato Analysis` tag: two raw version bytes, consuming the
/// whole input.
pub fn parse_analysis(input: &[u8]) -> (r: Result<Analysis, Error>)
    ensures
        match r {
            Ok(a) => input@ == analysis_bytes(a),
            Err(e) => e == Error::ParseError && input@.len() != 2,
        },
{
    let (version, j) = match take_version(input, 0) {
        Ok(v) => v,
        Err(e) => {
            return Err(e);
        },
    };
    if j != input.len() {
        return Err(Error::ParseError);
    }
    let a = Analysis { version };
    assert(input@ =~= analysis_bytes(a));
    Ok(a)
}

/// Parses the Ogg form of the `Serato Analysis` tag: an ASCII
/// `"major.minor"` string, consuming the whole input.
pub fn parse_analysis_ogg(input: &[u8]) -> (r: Result<Analysis, Error>)
    ensures
        match r {
            Ok(a) => {
                &&& exists|k: int|
                    {
                        &&& 0 < k < input@.len()
                        &&& input@[k] == 0x2Eu8
                        &&& all_digits(input@, 0, k)
                        &&& all_digits(input@, k + 1, input@.len() as int)
                        &&& k + 1 < input@.len()
                        &&& a.version.major == digits_val(input@, 0, k)
                        &&& a.version.minor == digits_val(input@, k + 1, input@.len() as int)
                    }
                &&& (input@.len() == 3 ==> input@ == analysis_ogg_bytes(a))
            },
            Err(e) => e == Error::ParseError,
        },
{
    let (major, j) = match take_ascii_u8(input, 0) {
        Ok(v) => v,
        Err(e) => {
            return Err(e);
        },
    };
    if j == input.len() || input[j] != 0x2E {
        return Err(Error::ParseError);
    }
    let (minor, k) = match take_ascii_u8(input, j + 1) {
        Ok(v) => v,
        Err(e) => {
            return Err(e);
        },
    };
    if k != input.len() {
        return Err(Error::ParseError);
    }
    let a = Analysis { version: Version { major, minor } };
    proof {
        let jj = j as int;
        assert(0 < jj < input@.len() && input@[jj] == 0x2Eu8 && all_digits(input@, 0, jj)
            && all_digits(input@, jj + 1, input@.len() as int) && jj + 1 < input@.len()
            && a.version.major == digits_val(input@, 0, jj) && a.version.minor == digits_val(
            input@,
            jj + 1,
            input@.len() as int,
        ));
        if input@.len() == 3 {
            assert(digits_val(input@, 0, 0) == 0);
            assert(digits_val(input@, 2, 2) == 0);
            assert(digits_val(input@, 0, 1) == input@[0] - 0x30);
            assert(digits_val(input@, 2, 3) == input@[2] - 0x30);
            assert(input@ =~= analysis_ogg_bytes(a));
        }
    }
    Ok(a)
}

/// Serializes an [`Analysis`] to its two raw bytes, appending to `out`.
pub fn write_analysis(out: &mut Vec<u8>, analysis: &Analysis) -> (n: usize)
    ensures
        final(out)@ == old(out)@ + analysis_bytes(*analysis),
        n == 2,
{
    write_version(out, analysis.version)
}

/// Serializes an [`Analysis`] to its ASCII Ogg form, appending to `out`.
///
/// The wire form holds one ASCII character per component, so each component
/// must stay a single decimal digit.
pub fn write_analysis_ogg(out: &mut Vec<u8>, analysis: &Analysis) -> (n: usize)
    requires
        analysis.version.major <= 9,
        analysis.version.minor <= 9,
    ensures
        final(out)@ == old(out)@ + analysis_ogg_bytes(*analysis),
        n == 3,
{
    out.push(analysis.version.major + 0x30);
    out.push(0x2E);
    out.push(analysis.version.minor + 0x30);
    assert(out@ =~= old(out)@ + analysis_ogg_bytes(*analysis));
    3
}

/// The tag's name, as embedded in envelopes and ID3 frame descriptions.
pub fn analysis_tag_name() -> (r: &'static str)
    ensures
        r@ == "Serato Analysis"@,
{
    "Serato Analysis"
}

/// The FLAC Vorbis-comment key that carries this tag.
pub fn analysis_flac_comment() -> (r: &'static str)
    ensures
        r@ == "SERATO_ANALYSIS"@,
{
    "SERATO_ANALYSIS"
}

/// The MP4 freeform atom name that carries this tag.
pub fn analysis_mp4_atom_name() -> (r: &'static str)
    ensures
        r@ == "analysisVersion"@,
{
    "analysisVersion"
}

/// The Ogg comment key that carries this tag.
pub fn analysis_ogg_comment() -> (r: &'static str)
    ensures
        r@ == "serato_analysis_ver"@,
{
    "serato_analysis_ver"
}

} // verus!
