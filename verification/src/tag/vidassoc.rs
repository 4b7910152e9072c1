//! The `Serato VidAssoc` tag: a version followed by bytes that have not been
//! reverse-engineered yet; they are preserved verbatim.

use crate::error::Error;
use crate::tag::generic::Version;
use crate::tag::util::{take_version, version_bytes, write_version};
use vstd::prelude::*;

verus! {

/// Represents the `Serato VidAssoc` tag.
#[derive(Debug, Clone, PartialEq)]
pub struct VidAssoc {
    /// The tag version.
    pub version: Version,
    /// The data (not reverse-engineered yet), kept verbatim.
    pub data: Vec<u8>,
}

/// The tag's byte form: the version bytes followed by the raw data.
pub open spec fn vidassoc_bytes(v: VidAssoc) -> Seq<u8> {
    version_bytes(v.version) + v.data@
}

/// Parses the `Serato VidAssoc` tag, consuming the whole input.
pub fn parse_vidassoc(input: &[u8]) -> (r: Result<VidAssoc, Error>)
    ensures
        match r {
            Ok(v) => input@ == vidassoc_bytes(v),
            Err(e) => e == Error::ParseError && input@.len() < 2,
        },
{
    let (version, start) = match take_version(input, 0) {
        Ok(v) => v,
        Err(e) => {
            return Err(e);
        },
    };
    let data = vstd::slice::slice_to_vec(vstd::slice::slice_subrange(input, start, input.len()));
    let v = VidAssoc { version, data };
    assert(input@ =~= vidassoc_bytes(v));
    Ok(v)
}

/// Serializes a [`VidAssoc`] to its byte form, appending to `out`.
pub fn write_vidassoc(out: &mut Vec<u8>, vidassoc: &VidAssoc) -> (n: usize)
    ensures
        final(out)@ == old(out)@ + vidassoc_bytes(*vidassoc),
        n == vidassoc_bytes(*vidassoc).len(),
{
    let start = out.len();
    write_version(out, vidassoc.version);
    out.extend_from_slice(vidassoc.data.as_slice());
    assert(out@ =~= old(out)@ + vidassoc_bytes(*vidassoc));
    out.len() - start
}

/// The tag's name, as embedded in envelopes.
pub fn vidassoc_tag_name() -> (r: &'static str)
    ensures
        r@ == "Serato VidAssoc"@,
{
    "Serato VidAssoc"
}

/// The FLAC Vorbis-comment key that carries this tag.
pub fn vidassoc_flac_comment() -> (r: &'static str)
    ensures
        r@ == "SERATO_VIDASSOC"@,
{
    "SERATO_VIDASSOC"
}

/// The MP4 freeform atom name that carries this tag.
pub fn vidassoc_mp4_atom_name() -> (r: &'static str)
    ensures
        r@ == "videoassociation"@,
{
    "videoassociation"
}

} // verus!
