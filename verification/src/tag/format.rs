//! The envelope codec shared by FLAC and MP4 tags: those hosts only accept
//! text, so a tag payload is wrapped in a fixed ASCII header plus the tag's
//! name and base64-encoded with a forgiving variant of the standard
//! alphabet.

use crate::error::Error;
use crate::util::{nul_free, take_utf8};
use vstd::prelude::*;
use vstd::utf8::{decode_utf8, encode_utf8, valid_utf8};

verus! {

/// What the forgiving base64 engine's decode returns for the given bytes;
/// `None` stands for a decode error.
pub uninterp spec fn b64_decode_of(s: Seq<u8>) -> Option<Seq<u8>>;

/// What the unpadded standard base64 encoding of the given bytes is.
pub uninterp spec fn b64_encode_of(s: Seq<u8>) -> Seq<u8>;

/// True for bytes of the standard base64 alphabet (`A`-`Z`, `a`-`z`,
/// `0`-`9`, `+`, `/`), which excludes the `=` pad.
pub open spec fn is_b64_alphabet(b: u8) -> bool {
    (0x41 <= b <= 0x5A) || (0x61 <= b <= 0x7A) || (0x30 <= b <= 0x39) || b == 0x2B || b == 0x2F
}

/// The length of the unpadded base64 encoding of `n` bytes: four characters
/// for every three bytes, and two or three characters for a remainder of
/// one or two bytes.
pub open spec fn b64_encoded_len(n: int) -> int {
    (n / 3) * 4 + (if n % 3 == 0 {
        0int
    } else {
        n % 3 + 1
    })
}

/// Relies on the `base64` crate's `GeneralPurpose` engine (standard
/// alphabet, no padding, trailing bits allowed, `RequireNone` padding
/// mode): what `decode` returns depends on the input bytes alone.
#[verifier::external_body]
pub(crate) fn b64_decode(input: &Vec<u8>) -> (r: Option<Vec<u8>>)
    ensures
        match r {
            Some(v) => b64_decode_of(input@) == Some(v@),
            None => b64_decode_of(input@) is None,
        },
{
    let engine = base64::engine::GeneralPurpose::new(
        &base64::alphabet::STANDARD,
        base64::engine::GeneralPurposeConfig::new()
            .with_encode_padding(false)
            .with_decode_allow_trailing_bits(true)
            .with_decode_padding_mode(base64::engine::DecodePaddingMode::RequireNone),
    );
    base64::Engine::decode(&engine, input).ok()
}

/// Relies on the `base64` crate's `GeneralPurpose` engine (standard
/// alphabet, no padding): `encode` emits only alphabet characters, exactly
/// `b64_encoded_len` of them, as a function of the input bytes alone.
#[verifier::external_body]
fn b64_encode(input: &[u8]) -> (r: Vec<u8>)
    requires
        input@.len() <= 0x10000000,
    ensures
        r@ == b64_encode_of(input@),
        r@.len() == b64_encoded_len(input@.len() as int),
        forall|k: int| 0 <= k < r@.len() ==> is_b64_alphabet(#[trigger] r@[k]),
{
    let engine = base64::engine::GeneralPurpose::new(
        &base64::alphabet::STANDARD,
        base64::engine::GeneralPurposeConfig::new().with_encode_padding(false),
    );
    base64::Engine::encode(&engine, input).into_bytes()
}

/// True for bytes that may appear in a base64 run: the alphabet plus the
/// `=` pad character.
pub open spec fn spec_is_base64(b: u8) -> bool {
    is_b64_alphabet(b) || b == 0x3D
}

/// Returns true when `byte` may appear in a base64 run: ASCII alphanumeric
/// characters, `+`, `/` and the `=` pad.
pub fn is_base64(byte: u8) -> (r: bool)
    ensures
        r == spec_is_base64(byte),
{
    (byte >= 0x41 && byte <= 0x5A) || (byte >= 0x61 && byte <= 0x7A) || (byte >= 0x30 && byte
        <= 0x39) || byte == 0x2B || byte == 0x2F || byte == 0x3D
}

/// Returns true when `byte` is a base64 alphabet character (without the
/// `=` pad).
pub fn is_b64_alpha(byte: u8) -> (r: bool)
    ensures
        r == is_b64_alphabet(byte),
{
    (byte >= 0x41 && byte <= 0x5A) || (byte >= 0x61 && byte <= 0x7A) || (byte >= 0x30 && byte
        <= 0x39) || byte == 0x2B || byte == 0x2F
}

/// Returns true when `byte` is a newline.
pub fn is_newline(byte: u8) -> (r: bool)
    ensures
        r == (byte == 0x0A),
{
    byte == 0x0A
}

/// Returns the end of the run of base64 and newline characters that starts
/// at `i`.
pub fn take_base64_with_newline(input: &[u8], i: usize) -> (j: usize)
    requires
        i <= input@.len(),
    ensures
        i <= j <= input@.len(),
        forall|k: int| i <= k < j ==> spec_is_base64(#[trigger] input@[k]) || input@[k] == 0x0A,
        j < input@.len() ==> !(spec_is_base64(input@[j as int]) || input@[j as int] == 0x0A),
{
    let mut j = i;
    while j < input.len() && (is_base64(input[j]) || is_newline(input[j]))
        invariant
            i <= j <= input@.len(),
            forall|k: int| i <= k < j ==> spec_is_base64(#[trigger] input@[k]) || input@[k] == 0x0A,
        decreases input@.len() - j,
    {
        j = j + 1;
    }
    j
}

/// The input with all newline bytes removed.
pub open spec fn strip_newlines(s: Seq<u8>) -> Seq<u8>
    decreases s.len(),
{
    if s.len() == 0 {
        Seq::empty()
    } else if s.last() == 0x0A {
        strip_newlines(s.drop_last())
    } else {
        strip_newlines(s.drop_last()).push(s.last())
    }
}

/// The bytes handed to the base64 engine by the forgiving decoder: newlines
/// stripped, and the last character dropped unless the length is 2 modulo
/// 4 (which compensates for the writer's appended pad character).
pub open spec fn b64_adjusted(s: Seq<u8>) -> Seq<u8> {
    let f = strip_newlines(s);
    if f.len() % 4 != 2 && f.len() > 0 {
        f.drop_last()
    } else {
        f
    }
}

/// Decodes a base64 run with the forgiving rules: embedded newlines are
/// stripped, and unless the remaining length is 2 modulo 4 the last
/// character is dropped before decoding.
pub fn base64_decode(input: &[u8]) -> (r: Result<Vec<u8>, Error>)
    ensures
        match r {
            Ok(v) => b64_decode_of(b64_adjusted(input@)) == Some(v@),
            Err(e) => e == Error::Base64DecodeError && b64_decode_of(b64_adjusted(input@)) is None,
        },
{
    let mut encoded: Vec<u8> = Vec::new();
    let mut k: usize = 0;
    while k < input.len()
        invariant
            k <= input@.len(),
            encoded@ == strip_newlines(input@.take(k as int)),
        decreases input@.len() - k,
    {
        proof {
            assert(input@.take(k + 1).drop_last() =~= input@.take(k as int));
            assert(input@.take(k + 1).last() == input@[k as int]);
        }
        if !is_newline(input[k]) {
            encoded.push(input[k]);
        }
        k = k + 1;
    }
    proof {
        assert(input@.take(input@.len() as int) =~= input@);
    }
    if encoded.len() % 4 != 2 {
        encoded.pop();
    }
    assert(encoded@ == b64_adjusted(input@));
    match b64_decode(&encoded) {
        Some(v) => Ok(v),
        None => Err(Error::Base64DecodeError),
    }
}

/// The base64 lines that the writer emits for a payload: chunks of 54 bytes
/// each encoded to a 72-character line, newline-separated, with a pad
/// character appended after the last line unless its length is 2 modulo 4.
pub open spec fn b64_lines(s: Seq<u8>) -> Seq<u8>
    decreases s.len(),
{
    if s.len() <= 54 {
        let e = b64_encode_of(s);
        e + (if e.len() % 4 != 2 {
            seq![0x41u8]
        } else {
            Seq::empty()
        })
    } else {
        b64_encode_of(s.take(54)) + seq![0x0Au8] + b64_lines(s.skip(54))
    }
}

/// The length of [`b64_lines`] for a payload of `n` bytes.
pub open spec fn b64_lines_len(n: int) -> int
    decreases n,
{
    if n <= 54 {
        b64_encoded_len(n) + (if b64_encoded_len(n) % 4 != 2 {
            1int
        } else {
            0int
        })
    } else {
        73 + b64_lines_len(n - 54)
    }
}

/// Encodes a payload to newline-separated base64 lines, appending to
/// `out`.  A payload must not be empty: the wire format has no encoding
/// for one.
pub fn base64_encode(out: &mut Vec<u8>, input: &[u8]) -> (n: usize)
    requires
        input@.len() > 0,
    ensures
        final(out)@ == old(out)@ + b64_lines(input@),
        n == b64_lines_len(input@.len() as int),
        final(out)@.len() == old(out)@.len() + n,
{
    let start = out.len();
    proof {
        assert(input@.skip(0) =~= input@);
        assert(out@.subrange(start as int, out@.len() as int) =~= Seq::<u8>::empty());
        assert(Seq::<u8>::empty() + b64_lines(input@) =~= b64_lines(input@));
        assert(out@.subrange(0, start as int) =~= old(out)@);
    }
    let mut i: usize = 0;
    while input.len() - i > 54
        invariant
            i <= input@.len(),
            start == old(out)@.len(),
            out@.len() >= start,
            out@.subrange(0, start as int) == old(out)@,
            out@.subrange(start as int, out@.len() as int) + b64_lines(input@.skip(i as int))
                == b64_lines(input@),
            out@.len() - start + b64_lines_len(input@.len() - i) == b64_lines_len(
                input@.len() as int,
            ),
        decreases input@.len() - i,
    {
        let chunk = vstd::slice::slice_subrange(input, i, i + 54);
        let encoded = b64_encode(chunk);
        let ghost before = out@;
        out.extend_from_slice(encoded.as_slice());
        out.push(0x0A);
        proof {
            assert(input@.skip(i as int).take(54) =~= chunk@);
            assert(input@.skip(i as int).skip(54) =~= input@.skip(i + 54));
            assert(b64_lines(input@.skip(i as int)) == b64_encode_of(chunk@) + seq![0x0Au8]
                + b64_lines(input@.skip(i + 54)));
            assert(out@ =~= before + encoded@ + seq![0x0Au8]);
            assert(out@.subrange(0, start as int) =~= before.subrange(0, start as int));
            assert(out@.subrange(start as int, out@.len() as int) =~= before.subrange(
                start as int,
                before.len() as int,
            ) + encoded@ + seq![0x0Au8]);
            assert(out@.subrange(start as int, out@.len() as int) + b64_lines(input@.skip(i + 54))
                =~= before.subrange(start as int, before.len() as int) + (b64_encode_of(chunk@)
                + seq![0x0Au8] + b64_lines(input@.skip(i + 54))));
        }
        i = i + 54;
    }
    let chunk = vstd::slice::slice_subrange(input, i, input.len());
    let encoded = b64_encode(chunk);
    let ghost before = out@;
    out.extend_from_slice(encoded.as_slice());
    if encoded.len() % 4 != 2 {
        out.push(0x41);
        proof {
            assert(input@.skip(i as int) =~= chunk@);
            assert(b64_lines(input@.skip(i as int)) == b64_encode_of(chunk@) + seq![0x41u8]);
            assert(out@ =~= before + (b64_encode_of(chunk@) + seq![0x41u8]));
        }
    } else {
        proof {
            assert(input@.skip(i as int) =~= chunk@);
            assert(b64_lines(input@.skip(i as int)) == b64_encode_of(chunk@) + Seq::<u8>::empty());
            assert(out@ =~= before + (b64_encode_of(chunk@) + Seq::<u8>::empty()));
        }
    }
    proof {
        assert(out@.subrange(0, start as int) =~= before.subrange(0, start as int));
        assert(out@.subrange(start as int, out@.len() as int) =~= before.subrange(
            start as int,
            before.len() as int,
        ) + b64_lines(input@.skip(i as int)));
        assert(out@ =~= out@.subrange(0, start as int) + out@.subrange(
            start as int,
            out@.len() as int,
        ));
    }
    out.len() - start
}

/// The 26 fixed header bytes of an envelope:
/// `application/octet-stream` followed by two NULs.
pub open spec fn envelope_header_bytes() -> Seq<u8> {
    seq![
        0x61u8,
        0x70u8,
        0x70u8,
        0x6Cu8,
        0x69u8,
        0x63u8,
        0x61u8,
        0x74u8,
        0x69u8,
        0x6Fu8,
        0x6Eu8,
        0x2Fu8,
        0x6Fu8,
        0x63u8,
        0x74u8,
        0x65u8,
        0x74u8,
        0x2Du8,
        0x73u8,
        0x74u8,
        0x72u8,
        0x65u8,
        0x61u8,
        0x6Du8,
        0x00u8,
        0x00u8,
    ]
}

/// Appends the 26 fixed envelope header bytes.
fn push_envelope_header(out: &mut Vec<u8>) -> (n: usize)
    ensures
        final(out)@ == old(out)@ + envelope_header_bytes(),
        n == 26,
{
    out.push(0x61);
    out.push(0x70);
    out.push(0x70);
    out.push(0x6C);
    out.push(0x69);
    out.push(0x63);
    out.push(0x61);
    out.push(0x74);
    out.push(0x69);
    out.push(0x6F);
    out.push(0x6E);
    out.push(0x2F);
    out.push(0x6F);
    out.push(0x63);
    out.push(0x74);
    out.push(0x65);
    out.push(0x74);
    out.push(0x2D);
    out.push(0x73);
    out.push(0x74);
    out.push(0x72);
    out.push(0x65);
    out.push(0x61);
    out.push(0x6D);
    out.push(0x00);
    out.push(0x00);
    assert(out@ =~= old(out)@ + envelope_header_bytes());
    26
}

/// The split of a decoded envelope: the tag name's bytes (NUL-terminated
/// after the fixed header) and the payload behind them, or `None` when the
/// envelope is malformed.
pub open spec fn spec_envelope_split(d: Seq<u8>) -> Option<(Seq<u8>, Seq<u8>)> {
    if d.len() >= 26 && d.subrange(0, 26) == envelope_header_bytes() && (exists|p: int|
        26 <= p < d.len() && d[p] == 0u8 && nul_free(d, 26, p)) {
        let p = choose|p: int| 26 <= p < d.len() && #[trigger] d[p] == 0u8 && nul_free(d, 26, p);
        if valid_utf8(d.subrange(26, p)) {
            Some((d.subrange(26, p), d.subrange(p + 1, d.len() as int)))
        } else {
            None
        }
    } else {
        None
    }
}

/// The first NUL at or behind position 26 is unique, so the envelope split
/// is well defined.
proof fn lemma_envelope_nul_unique(d: Seq<u8>, p1: int, p2: int)
    requires
        26 <= p1 < d.len(),
        d[p1] == 0u8,
        nul_free(d, 26, p1),
        26 <= p2 < d.len(),
        d[p2] == 0u8,
        nul_free(d, 26, p2),
    ensures
        p1 == p2,
{
}

/// Splits a decoded envelope into the tag name and the payload behind it.
pub fn parse_envelope(data: &[u8]) -> (r: Result<(String, Vec<u8>), Error>)
    ensures
        match r {
            Ok((name, content)) => spec_envelope_split(data@) matches Some(nc) && encode_utf8(
                name@,
            ) == nc.0 && name@ == decode_utf8(nc.0) && content@ == nc.1,
            Err(e) => e == Error::EnvelopeParseError && spec_envelope_split(data@) is None,
        },
{
    let mut header: Vec<u8> = Vec::new();
    push_envelope_header(&mut header);
    if data.len() < 26 {
        return Err(Error::EnvelopeParseError);
    }
    let mut k: usize = 0;
    while k < 26
        invariant
            k <= 26 <= data@.len(),
            header@ == envelope_header_bytes(),
            forall|t: int| 0 <= t < k ==> data@[t] == envelope_header_bytes()[t],
        decreases 26 - k,
    {
        if data[k] != header[k] {
            proof {
                assert(data@.subrange(0, 26) != envelope_header_bytes());
            }
            return Err(Error::EnvelopeParseError);
        }
        k = k + 1;
    }
    proof {
        assert(data@.subrange(0, 26) =~= envelope_header_bytes());
    }
    let (name, j) = match take_utf8(data, 26) {
        Ok(v) => v,
        Err(_) => {
            proof {
                if exists|p: int| 26 <= p < data@.len() && #[trigger] data@[p] == 0u8 && nul_free(
                    data@,
                    26,
                    p,
                ) {
                    let p = choose|p: int|
                        26 <= p < data@.len() && #[trigger] data@[p] == 0u8 && nul_free(data@, 26, p);
                    assert(spec_envelope_split(data@) is None);
                }
            }
            return Err(Error::EnvelopeParseError);
        },
    };
    let content = vstd::slice::slice_to_vec(vstd::slice::slice_subrange(data, j, data.len()));
    proof {
        let p = choose|p: int| 26 <= p < data@.len() && #[trigger] data@[p] == 0u8 && nul_free(
            data@,
            26,
            p,
        );
        lemma_envelope_nul_unique(data@, p, j - 1);
        vstd::utf8::decode_utf8_encode_utf8(data@.subrange(26, j - 1));
    }
    Ok((name, content))
}

/// Decodes an enveloped payload: forgiving base64, then the envelope
/// header, returning the embedded tag name and the payload.
pub fn envelope_decode(input: &[u8]) -> (r: Result<(String, Vec<u8>), Error>)
    ensures
        match r {
            Ok((name, content)) => b64_decode_of(b64_adjusted(input@)) matches Some(d)
                && spec_envelope_split(d) matches Some(nc) && encode_utf8(name@) == nc.0 && name@
                == decode_utf8(nc.0) && content@ == nc.1,
            Err(e) => {
                ||| (e == Error::Base64DecodeError && b64_decode_of(b64_adjusted(input@)) is None)
                ||| (b64_decode_of(b64_adjusted(input@)) matches Some(d)
                    && spec_envelope_split(d) is None && e == Error::EnvelopeParseError)
            },
        },
{
    let data = match base64_decode(input) {
        Ok(v) => v,
        Err(e) => {
            return Err(e);
        },
    };
    match parse_envelope(data.as_slice()) {
        Ok(v) => Ok(v),
        Err(e) => Err(e),
    }
}

/// Compares two byte slices.
fn bytes_eq(a: &[u8], b: &[u8]) -> (r: bool)
    ensures
        r == (a@ == b@),
{
    if a.len() != b.len() {
        assert(a@ != b@) by {
            assert(a@.len() != b@.len());
        }
        return false;
    }
    let mut k: usize = 0;
    while k < a.len()
        invariant
            k <= a@.len() == b@.len(),
            forall|t: int| 0 <= t < k ==> a@[t] == b@[t],
        decreases a@.len() - k,
    {
        if a[k] != b[k] {
            return false;
        }
        k = k + 1;
    }
    proof {
        assert(a@ =~= b@);
    }
    true
}

/// Decodes an enveloped payload and checks that the embedded tag name is
/// the expected one; a different name is an [`Error::EnvelopeNameMismatch`].
pub fn envelope_decode_with_name(input: &[u8], expected_name: &str) -> (r: Result<Vec<u8>, Error>)
    ensures
        match r {
            Ok(content) => b64_decode_of(b64_adjusted(input@)) matches Some(d)
                && spec_envelope_split(d) matches Some(nc) && decode_utf8(nc.0) == expected_name@
                && content@ == nc.1,
            Err(e) => {
                ||| (e == Error::Base64DecodeError && b64_decode_of(b64_adjusted(input@)) is None)
                ||| (b64_decode_of(b64_adjusted(input@)) matches Some(d)
                    && spec_envelope_split(d) is None && e == Error::EnvelopeParseError)
                ||| (e matches Error::EnvelopeNameMismatch { expected, actual } && b64_decode_of(
                    b64_adjusted(input@),
                ) matches Some(d) && spec_envelope_split(d) matches Some(nc) && decode_utf8(nc.0)
                    != expected_name@ && actual@ == decode_utf8(nc.0) && expected@
                    == expected_name@)
            },
        },
{
    let (name, content) = match envelope_decode(input) {
        Ok(v) => v,
        Err(e) => {
            return Err(e);
        },
    };
    if bytes_eq(name.as_str().as_bytes(), expected_name.as_bytes()) {
        proof {
            vstd::utf8::encode_utf8_decode_utf8(name@);
            vstd::utf8::encode_utf8_decode_utf8(expected_name@);
        }
        Ok(content)
    } else {
        proof {
            vstd::utf8::encode_utf8_decode_utf8(name@);
            vstd::utf8::encode_utf8_decode_utf8(expected_name@);
        }
        Err(Error::EnvelopeNameMismatch { expected: expected_name.to_owned(), actual: name })
    }
}

/// The envelope payload for a tag: the fixed header, the tag's name, a NUL
/// and the tag's own bytes.
pub open spec fn envelope_payload(name: Seq<char>, content: Seq<u8>) -> Seq<u8> {
    envelope_header_bytes() + encode_utf8(name) + seq![0u8] + content
}

/// Encodes a tag payload into an envelope under the given name, appending
/// the base64 lines to `out`.
pub fn envelope_encode_with_name(out: &mut Vec<u8>, input: &[u8], name: &str) -> (n: usize)
    ensures
        final(out)@ == old(out)@ + b64_lines(envelope_payload(name@, input@)),
        n == b64_lines_len(envelope_payload(name@, input@).len() as int),
{
    let mut data: Vec<u8> = Vec::new();
    push_envelope_header(&mut data);
    data.extend_from_slice(name.as_bytes());
    data.push(0);
    data.extend_from_slice(input);
    proof {
        assert(data@ =~= envelope_payload(name@, input@));
    }
    base64_encode(out, data.as_slice())
}

/// The vendor namespace of the MP4 freeform atoms that carry these tags.
pub fn mp4_atom_freeform_mean() -> (r: &'static str)
    ensures
        r@ == "com.serato.dj"@,
{
    "com.serato.dj"
}

} // verus!
