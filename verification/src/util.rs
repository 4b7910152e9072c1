//! Byte-level helpers shared by all tag parsers: NUL-terminated fields and
//! UTF-8 decoding.

use crate::error::Error;
use vstd::prelude::*;
use vstd::utf8::{decode_utf8, valid_utf8};

verus! {

/// True when `s` holds no NUL byte in `[i, j)`.
pub open spec fn nul_free(s: Seq<u8>, i: int, j: int) -> bool {
    forall|k: int| i <= k < j ==> s[k] != 0u8
}

/// Returns the index of the first NUL byte at or after `i`, as the original
/// input is scanned up to its end.
pub fn take_until_nullbyte(input: &[u8], i: usize) -> (r: Result<usize, Error>)
    requires
        i <= input@.len(),
    ensures
        match r {
            Ok(j) => i <= j < input@.len() && input@[j as int] == 0u8 && nul_free(
                input@,
                i as int,
                j as int,
            ),
            Err(e) => e == Error::ParseError && nul_free(input@, i as int, input@.len() as int),
        },
{
    let mut j = i;
    while j < input.len()
        invariant
            i <= j <= input@.len(),
            nul_free(input@, i as int, j as int),
        decreases input@.len() - j,
    {
        if input[j] == 0 {
            return Ok(j);
        }
        j = j + 1;
    }
    Err(Error::ParseError)
}

/// A sequence of ASCII bytes (all below `0x80`) is valid UTF-8.
pub proof fn lemma_ascii_valid_utf8(bytes: Seq<u8>)
    requires
        forall|k: int| 0 <= k < bytes.len() ==> #[trigger] bytes[k] < 0x80,
    ensures
        valid_utf8(bytes),
    decreases bytes.len(),
{
    if bytes.len() > 0 {
        let b0 = bytes[0];
        assert(b0 & 0x7f == b0 && b0 & 0x7f < 0x80) by (bit_vector)
            requires
                b0 < 0x80,
        ;
        assert(vstd::utf8::length_of_first_scalar(bytes) == 1);
        assert(vstd::utf8::pop_first_scalar(bytes) =~= bytes.subrange(1, bytes.len() as int));
        lemma_ascii_valid_utf8(bytes.subrange(1, bytes.len() as int));
    }
}

/// Relies on `core::str::from_utf8`: it succeeds exactly on valid UTF-8 and
/// returns the characters that the bytes encode.
#[verifier::external_body]
fn str_from_utf8(bytes: &[u8]) -> (r: Option<String>)
    ensures
        match r {
            Some(s) => valid_utf8(bytes@) && s@ == decode_utf8(bytes@),
            None => !valid_utf8(bytes@),
        },
{
    match core::str::from_utf8(bytes) {
        Ok(s) => Some(s.to_owned()),
        Err(_) => None,
    }
}

/// Decodes the whole input slice as UTF-8.
pub fn parse_utf8(input: &[u8]) -> (r: Result<String, Error>)
    ensures
        match r {
            Ok(s) => valid_utf8(input@) && s@ == decode_utf8(input@),
            Err(e) => e == Error::ParseError && !valid_utf8(input@),
        },
{
    match str_from_utf8(input) {
        Some(s) => Ok(s),
        None => Err(Error::ParseError),
    }
}

/// Reads a NUL-terminated UTF-8 string starting at `i` and consumes the
/// terminating NUL: on success the returned index points directly behind it.
pub fn take_utf8(input: &[u8], i: usize) -> (r: Result<(String, usize), Error>)
    requires
        i <= input@.len(),
    ensures
        match r {
            Ok((s, j)) => {
                &&& i < j <= input@.len()
                &&& input@[j - 1] == 0u8
                &&& nul_free(input@, i as int, j - 1)
                &&& valid_utf8(input@.subrange(i as int, j - 1))
                &&& s@ == decode_utf8(input@.subrange(i as int, j - 1))
            },
            Err(e) => {
                &&& e == Error::ParseError
                &&& (nul_free(input@, i as int, input@.len() as int) || exists|j: int|
                    {
                        &&& i <= j < input@.len()
                        &&& input@[j] == 0u8
                        &&& nul_free(input@, i as int, j)
                        &&& !valid_utf8(input@.subrange(i as int, j))
                    })
            },
        },
{
    let nul = match take_until_nullbyte(input, i) {
        Ok(j) => j,
        Err(e) => {
            return Err(e);
        },
    };
    let n = input.len();
    assert(nul < n);
    let data = vstd::slice::slice_subrange(input, i, nul);
    match parse_utf8(data) {
        Ok(s) => Ok((s, nul + 1)),
        Err(_) => {
            assert(input@[nul as int] == 0u8);
            Err(Error::ParseError)
        },
    }
}

} // verus!
