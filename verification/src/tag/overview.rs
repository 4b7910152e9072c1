//! The `Serato Overview` tag stores the waveform overview data as repeating
//! 16-byte chunks.

use crate::error::Error;
use crate::tag::generic::Version;
use crate::tag::util::{take_version, version_bytes, write_version};
use vstd::prelude::*;

verus! {

/// Represents the `Serato Overview` tag.
#[derive(Debug, Clone, PartialEq)]
pub struct Overview {
    /// The tag version.
    pub version: Version,
    /// The waveform overview data, in chunks of 16 bytes.
    pub data: Vec<Vec<u8>>,
}

/// The concatenation of a sequence of chunks.
pub open spec fn concat_chunks(cs: Seq<Seq<u8>>) -> Seq<u8>
    decreases cs.len(),
{
    if cs.len() == 0 {
        Seq::empty()
    } else {
        cs.first() + concat_chunks(cs.drop_first())
    }
}

/// Concatenation distributes over appending one chunk at the end.
pub proof fn lemma_concat_chunks_push(cs: Seq<Seq<u8>>, c: Seq<u8>)
    ensures
        concat_chunks(cs.push(c)) == concat_chunks(cs) + c,
    decreases cs.len(),
{
    if cs.len() == 0 {
        assert(cs.push(c).drop_first() =~= Seq::<Seq<u8>>::empty());
        assert(cs.push(c).first() == c);
        assert(concat_chunks(cs.push(c)) == c + concat_chunks(Seq::<Seq<u8>>::empty()));
        assert(concat_chunks(cs.push(c)) =~= concat_chunks(cs) + c);
    } else {
        assert(cs.push(c).drop_first() =~= cs.drop_first().push(c));
        lemma_concat_chunks_push(cs.drop_first(), c);
        assert(concat_chunks(cs.push(c)) =~= concat_chunks(cs) + c);
    }
}

/// True when every chunk is exactly 16 bytes long.
pub open spec fn chunks_wf(cs: Seq<Seq<u8>>) -> bool {
    forall|k: int| 0 <= k < cs.len() ==> (#[trigger] cs[k]).len() == 16
}

/// The tag's byte form: the version bytes followed by all chunks.
pub open spec fn overview_bytes(o: Overview) -> Seq<u8> {
    version_bytes(o.version) + concat_chunks(o.data.deep_view())
}

/// True when the bytes have the tag's shape: a version followed by a
/// positive whole number of 16-byte chunks.
pub open spec fn overview_shape_ok(s: Seq<u8>) -> bool {
    s.len() >= 18 && (s.len() - 2) % 16 == 0
}

/// Parses the `Serato Overview` tag, consuming the whole input: the version
/// bytes followed by one or more 16-byte chunks.  Exactly the inputs
/// described by [`overview_shape_ok`] parse.
pub fn parse_overview(input: &[u8]) -> (r: Result<Overview, Error>)
    ensures
        match r {
            Ok(o) => {
                &&& input@ == overview_bytes(o)
                &&& chunks_wf(o.data.deep_view())
                &&& o.data@.len() >= 1
                &&& input@.len() == 2 + 16 * o.data@.len()
                &&& overview_shape_ok(input@)
            },
            Err(e) => e == Error::ParseError && !overview_shape_ok(input@),
        },
{
    let (version, start) = match take_version(input, 0) {
        Ok(v) => v,
        Err(e) => {
            return Err(e);
        },
    };
    let len = input.len();
    if len == 2 || (len - 2) % 16 != 0 {
        return Err(Error::ParseError);
    }
    let mut data: Vec<Vec<u8>> = Vec::new();
    let mut i = start;
    while i < len
        invariant
            2 <= i <= len == input@.len(),
            (i - 2) % 16 == 0,
            (len - 2) % 16 == 0,
            len > 2,
            chunks_wf(data.deep_view()),
            16 * data@.len() == i - 2,
            concat_chunks(data.deep_view()) == input@.subrange(2, i as int),
        decreases len - i,
    {
        assert(len - i >= 16) by (nonlinear_arith)
            requires
                (i - 2) % 16 == 0,
                (len - 2) % 16 == 0,
                i < len,
                2 <= i,
        ;
        let chunk = vstd::slice::slice_to_vec(vstd::slice::slice_subrange(input, i, i + 16));
        let ghost prev_dv = data.deep_view();
        data.push(chunk);
        proof {
            assert(chunk.deep_view() =~= chunk@);
            assert(data.deep_view() =~= prev_dv.push(chunk@));
            lemma_concat_chunks_push(prev_dv, chunk@);
            assert(input@.subrange(2, i as int) + input@.subrange(i as int, i + 16)
                =~= input@.subrange(2, i + 16));
        }
        i = i + 16;
    }
    let o = Overview { version, data };
    proof {
        assert(input@ =~= version_bytes(o.version) + input@.subrange(2, len as int));
    }
    Ok(o)
}

/// Serializes an [`Overview`] to its byte form, appending to `out`.
pub fn write_overview(out: &mut Vec<u8>, overview: &Overview) -> (n: usize)
    ensures
        final(out)@ == old(out)@ + overview_bytes(*overview),
        n == overview_bytes(*overview).len(),
{
    let start = out.len();
    write_version(out, overview.version);
    let mut k: usize = 0;
    while k < overview.data.len()
        invariant
            k <= overview.data@.len(),
            out@ == old(out)@ + version_bytes(overview.version) + concat_chunks(
                overview.data.deep_view().take(k as int),
            ),
            out@.len() >= start == old(out)@.len(),
        decreases overview.data@.len() - k,
    {
        proof {
            lemma_concat_chunks_push(
                overview.data.deep_view().take(k as int),
                overview.data.deep_view()[k as int],
            );
            assert(overview.data.deep_view().take(k as int).push(overview.data.deep_view()[k as int])
                =~= overview.data.deep_view().take(k + 1));
            assert(overview.data.deep_view()[k as int] =~= overview.data@[k as int]@);
        }
        out.extend_from_slice(overview.data[k].as_slice());
        k = k + 1;
    }
    proof {
        assert(overview.data.deep_view().take(overview.data@.len() as int)
            =~= overview.data.deep_view());
    }
    out.len() - start
}

/// The tag's name, as embedded in envelopes and ID3 frame descriptions.
pub fn overview_tag_name() -> (r: &'static str)
    ensures
        r@ == "Serato Overview"@,
{
    "Serato Overview"
}

/// The FLAC Vorbis-comment key that carries this tag.
pub fn overview_flac_comment() -> (r: &'static str)
    ensures
        r@ == "SERATO_OVERVIEW"@,
{
    "SERATO_OVERVIEW"
}

/// The MP4 freeform atom name that carries this tag.
pub fn overview_mp4_atom_name() -> (r: &'static str)
    ensures
        r@ == "overview"@,
{
    "overview"
}

} // verus!
