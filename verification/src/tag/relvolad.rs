//! The `Serato RelVolAd` tag: a version followed by bytes that have not been
//! reverse-engineered yet; they are preserved verbatim.

use crate::error::Error;
use crate::tag::generic::Version;
use crate::tag::util::{take_version, version_bytes, write_version};
use vstd::prelude::*;

verus! {

/// Represents the `Serato RelVolAd` tag.
#[derive(Debug, Clone, PartialEq)]
pub struct RelVolAd {
    /// The tag version.
    pub version: Version,
    /// The data (not reverse-engineered yet), kept verbatim.
    pub data: Vec<u8>,
}

/// The tag's byte form: the version bytes followed by the raw data.
pub open spec fn relvolad_bytes(r: RelVolAd) -> Seq<u8> {
    version_bytes(r.version) + r.data@
}

/// Parses the `Serato RelVolAd` tag, consuming the whole input.
pub fn parse_relvolad(input: &[u8]) -> (r: Result<RelVolAd, Error>)
    ensures
        match r {
            Ok(v) => input@ == relvolad_bytes(v),
            Err(e) => e == Error::ParseError && input@.len() < 2,
        },
{
    let (version, start) = match take_version(input, 0) {
        Ok(v) => v,
        Err(e) => {
            return Err(e);
        },
    };
    let data = vstd::slice::slice_to_vec(vstd::slice::slice_subrange(input, start, input.len()));
    let v = RelVolAd { version, data };
    assert(input@ =~= relvolad_bytes(v));
    Ok(v)
}

/// Serializes a [`RelVolAd`] to its byte form, appending to `out`.
pub fn write_relvolad(out: &mut Vec<u8>, relvolad: &RelVolAd) -> (n: usize)
    ensures
        final(out)@ == old(out)@ + relvolad_bytes(*relvolad),
        n == relvolad_bytes(*relvolad).len(),
{
    let start = out.len();
    write_version(out, relvolad.version);
    out.extend_from_slice(relvolad.data.as_slice());
    assert(out@ =~= old(out)@ + relvolad_bytes(*relvolad));
    out.len() - start
}

/// The tag's name, as embedded in envelopes.
pub fn relvolad_tag_name() -> (r: &'static str)
    ensures
        r@ == "Serato RelVolAd"@,
{
    "Serato RelVolAd"
}

/// The FLAC Vorbis-comment key that carries this tag.
pub fn relvolad_flac_comment() -> (r: &'static str)
    ensures
        r@ == "SERATO_RELVOL"@,
{
    "SERATO_RELVOL"
}

/// The MP4 freeform atom name that carries this tag.
pub fn relvolad_mp4_atom_name() -> (r: &'static str)
    ensures
        r@ == "relvol"@,
{
    "relvol"
}

} // verus!
