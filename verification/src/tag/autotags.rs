//! The `Serato Autotags` tag stores the BPM and gain values as three
//! NUL-terminated ASCII decimal numbers.
//!
//! The numbers are kept as the decimal text itself, so that re-encoding a
//! parsed tag is bit-exact.

use crate::error::Error;
use crate::tag::generic::Version;
use crate::tag::util::{take_version, version_bytes, write_version};
use crate::util::{lemma_ascii_valid_utf8, nul_free, take_until_nullbyte, take_utf8};
use vstd::prelude::*;
use vstd::utf8::encode_utf8;

verus! {

/// Represents the `Serato Autotags` tag.
#[derive(Debug, Clone, PartialEq)]
pub struct Autotags {
    /// The tag version.
    pub version: Version,
    /// The track's number of beats per minute, as decimal text.
    pub bpm: String,
    /// The track's autogain value, as decimal text.
    pub auto_gain: String,
    /// The track's gain value, as decimal text.
    pub gain_db: String,
}

/// True when `b` is an ASCII decimal number: an optional minus sign, one or
/// more digits, and optionally a decimal point followed by one or more
/// digits.
pub open spec fn is_decimal_bytes(b: Seq<u8>) -> bool {
    if b.len() > 0 && b[0] == 0x2D {
        is_unsigned_decimal_bytes(b.drop_first())
    } else {
        is_unsigned_decimal_bytes(b)
    }
}

/// True when `b` is one or more ASCII digits, optionally followed by a
/// decimal point and one or more further digits.
pub open spec fn is_unsigned_decimal_bytes(b: Seq<u8>) -> bool {
    ||| (b.len() > 0 && digits_only(b, 0, b.len() as int))
    ||| (exists|d: int|
        {
            &&& 0 < d < b.len() - 1
            &&& b[d] == 0x2E
            &&& digits_only(b, 0, d)
            &&& digits_only(b, d + 1, b.len() as int)
        })
}

/// True when `b[i..j]` holds only ASCII digits.
pub open spec fn digits_only(b: Seq<u8>, i: int, j: int) -> bool {
    forall|k: int| i <= k < j ==> 0x30 <= #[trigger] b[k] <= 0x39
}

/// A decimal number holds only ASCII bytes.
proof fn lemma_decimal_ascii(b: Seq<u8>)
    requires
        is_decimal_bytes(b),
    ensures
        forall|k: int| 0 <= k < b.len() ==> #[trigger] b[k] < 0x80,
{
    assert forall|k: int| 0 <= k < b.len() implies #[trigger] b[k] < 0x80 by {
        let c = b.drop_first();
        if b[0] == 0x2D && k > 0 {
            assert(c[k - 1] == b[k]);
            if is_unsigned_decimal_bytes(c) && !(c.len() > 0 && digits_only(c, 0, c.len() as int)) {
                let d = choose|d: int|
                    {
                        &&& 0 < d < c.len() - 1
                        &&& c[d] == 0x2E
                        &&& digits_only(c, 0, d)
                        &&& digits_only(c, d + 1, c.len() as int)
                    };
                assert(c[k - 1] == 0x2E || 0x30 <= c[k - 1] <= 0x39);
            }
        } else if b[0] != 0x2D {
            if is_unsigned_decimal_bytes(b) && !(b.len() > 0 && digits_only(b, 0, b.len() as int)) {
                let d = choose|d: int|
                    {
                        &&& 0 < d < b.len() - 1
                        &&& b[d] == 0x2E
                        &&& digits_only(b, 0, d)
                        &&& digits_only(b, d + 1, b.len() as int)
                    };
                assert(b[k] == 0x2E || 0x30 <= b[k] <= 0x39);
            }
        }
    }
}

/// The byte form of one number field: its decimal text followed by a NUL.
pub open spec fn double_str_bytes(s: Seq<char>) -> Seq<u8> {
    encode_utf8(s) + seq![0u8]
}

/// True when a number field carries well-formed decimal text.
pub open spec fn double_str_wf(s: Seq<char>) -> bool {
    is_decimal_bytes(encode_utf8(s))
}

/// The tag's byte form: the version bytes followed by the three
/// NUL-terminated numbers.
pub open spec fn autotags_bytes(a: Autotags) -> Seq<u8> {
    version_bytes(a.version) + double_str_bytes(a.bpm@) + double_str_bytes(a.auto_gain@)
        + double_str_bytes(a.gain_db@)
}

/// True when all three number fields carry well-formed decimal text.
pub open spec fn autotags_wf(a: Autotags) -> bool {
    double_str_wf(a.bpm@) && double_str_wf(a.auto_gain@) && double_str_wf(a.gain_db@)
}

/// Checks that `input[i..j]` is an ASCII decimal number.
fn check_decimal(input: &[u8], i: usize, j: usize) -> (r: bool)
    requires
        i <= j <= input@.len(),
    ensures
        r == is_decimal_bytes(input@.subrange(i as int, j as int)),
{
    let ghost whole = input@.subrange(i as int, j as int);
    let start: usize = if i < j && input[i] == 0x2D {
        i + 1
    } else {
        i
    };
    proof {
        if start > i {
            assert(whole.drop_first() =~= input@.subrange(start as int, j as int));
        } else {
            assert(whole =~= input@.subrange(start as int, j as int));
        }
    }
    let ghost b = input@.subrange(start as int, j as int);
    // scan the digit run
    let mut k = start;
    while k < j && input[k] >= 0x30 && input[k] <= 0x39
        invariant
            start <= k <= j <= input@.len(),
            digits_only(input@, start as int, k as int),
        decreases j - k,
    {
        k = k + 1;
    }
    proof {
        assert(forall|t: int| 0 <= t < b.len() ==> b[t] == input@[start + t]);
    }
    if k == start {
        // no digits at all
        proof {
            if is_unsigned_decimal_bytes(b) {
                if b.len() > 0 && digits_only(b, 0, b.len() as int) {
                    assert(0x30 <= b[0] <= 0x39);
                } else {
                    let d = choose|d: int|
                        {
                            &&& 0 < d < b.len() - 1
                            &&& b[d] == 0x2E
                            &&& digits_only(b, 0, d)
                            &&& digits_only(b, d + 1, b.len() as int)
                        };
                    assert(0x30 <= b[0] <= 0x39);
                }
                assert(false);
            }
        }
        return false;
    }
    if k == j {
        // digits all the way to the end
        proof {
            assert(digits_only(b, 0, b.len() as int));
        }
        return true;
    }
    if input[k] != 0x2E {
        // a non-digit that is not a decimal point
        proof {
            if is_unsigned_decimal_bytes(b) {
                if b.len() > 0 && digits_only(b, 0, b.len() as int) {
                    assert(0x30 <= b[k - start] <= 0x39);
                } else {
                    let d = choose|d: int|
                        {
                            &&& 0 < d < b.len() - 1
                            &&& b[d] == 0x2E
                            &&& digits_only(b, 0, d)
                            &&& digits_only(b, d + 1, b.len() as int)
                        };
                    // the non-digit at k - start must be the decimal point,
                    // but the byte there is neither digit nor point
                    if d < k - start {
                        assert(0x30 <= b[d] <= 0x39);
                    } else if d > k - start {
                        assert(0x30 <= b[k - start] <= 0x39);
                    }
                    assert(false);
                }
                assert(false);
            }
        }
        return false;
    }
    if k + 1 == j {
        // a trailing decimal point with no digits after it
        proof {
            if is_unsigned_decimal_bytes(b) {
                if b.len() > 0 && digits_only(b, 0, b.len() as int) {
                    assert(0x30 <= b[k - start] <= 0x39);
                } else {
                    let d = choose|d: int|
                        {
                            &&& 0 < d < b.len() - 1
                            &&& b[d] == 0x2E
                            &&& digits_only(b, 0, d)
                            &&& digits_only(b, d + 1, b.len() as int)
                        };
                    if d < k - start {
                        assert(0x30 <= b[d] <= 0x39);
                    } else {
                        assert(d == k - start);
                        assert(d < b.len() - 1);
                    }
                    assert(false);
                }
                assert(false);
            }
        }
        return false;
    }
    // digits, a point, then the rest must be digits
    let mut t = k + 1;
    while t < j && input[t] >= 0x30 && input[t] <= 0x39
        invariant
            k + 1 <= t <= j <= input@.len(),
            digits_only(input@, k as int + 1, t as int),
        decreases j - t,
    {
        t = t + 1;
    }
    if t == j {
        proof {
            let d = k - start;
            assert(b[d] == 0x2E);
            assert(digits_only(b, 0, d));
            assert(digits_only(b, d + 1, b.len() as int));
        }
        true
    } else {
        proof {
            if is_unsigned_decimal_bytes(b) {
                if b.len() > 0 && digits_only(b, 0, b.len() as int) {
                    assert(0x30 <= b[k - start] <= 0x39);
                } else {
                    let d = choose|d: int|
                        {
                            &&& 0 < d < b.len() - 1
                            &&& b[d] == 0x2E
                            &&& digits_only(b, 0, d)
                            &&& digits_only(b, d + 1, b.len() as int)
                        };
                    if d < k - start {
                        assert(0x30 <= b[d] <= 0x39);
                    } else if d > k - start {
                        assert(0x30 <= b[k - start] <= 0x39);
                    } else {
                        assert(0x30 <= b[t - start] <= 0x39);
                    }
                    assert(false);
                }
                assert(false);
            }
        }
        false
    }
}

/// Reads one NUL-terminated ASCII decimal number starting at `i` and
/// consumes the terminating NUL.
pub fn take_double_str(input: &[u8], i: usize) -> (r: Result<(String, usize), Error>)
    requires
        i <= input@.len(),
    ensures
        match r {
            Ok((s, j)) => {
                &&& i < j <= input@.len()
                &&& input@.subrange(i as int, j as int) == double_str_bytes(s@)
                &&& double_str_wf(s@)
                &&& nul_free(input@, i as int, j - 1)
                &&& input@[j - 1] == 0u8
            },
            Err(e) => {
                &&& e == Error::ParseError
                &&& (nul_free(input@, i as int, input@.len() as int) || exists|j: int|
                    {
                        &&& i <= j < input@.len()
                        &&& input@[j] == 0u8
                        &&& nul_free(input@, i as int, j)
                        &&& !is_decimal_bytes(input@.subrange(i as int, j))
                    })
            },
        },
{
    let nul = match take_until_nullbyte(input, i) {
        Ok(j) => j,
        Err(e) => {
            return Err(e);
        },
    };
    if !check_decimal(input, i, nul) {
        proof {
            let jj = nul as int;
            assert(input@[jj] == 0u8 && nul_free(input@, i as int, jj) && !is_decimal_bytes(
                input@.subrange(i as int, jj),
            ));
        }
        return Err(Error::ParseError);
    }
    proof {
        lemma_decimal_ascii(input@.subrange(i as int, nul as int));
        lemma_ascii_valid_utf8(input@.subrange(i as int, nul as int));
    }
    match take_utf8(input, i) {
        Ok((s, j)) => {
            proof {
                // the NUL found by take_utf8 is the same first NUL
                assert(j - 1 == nul as int);
                vstd::utf8::decode_utf8_encode_utf8(input@.subrange(i as int, j - 1));
                assert(input@.subrange(i as int, j as int) =~= input@.subrange(i as int, j - 1)
                    + seq![0u8]);
            }
            Ok((s, j))
        },
        Err(_) => {
            proof {
                assert(false);
            }
            Err(Error::ParseError)
        },
    }
}

/// Appends one number field: its decimal text followed by a NUL.
pub fn write_double_str(out: &mut Vec<u8>, number: &String) -> (n: usize)
    ensures
        final(out)@ == old(out)@ + double_str_bytes(number@),
        n == double_str_bytes(number@).len(),
{
    let start = out.len();
    out.extend_from_slice(number.as_str().as_bytes());
    out.push(0);
    assert(out@ =~= old(out)@ + double_str_bytes(number@));
    out.len() - start
}

/// Decimal text holds no NUL byte and is never empty.
proof fn lemma_decimal_no_nul(b: Seq<u8>)
    requires
        is_decimal_bytes(b),
    ensures
        b.len() >= 1,
        forall|k: int| 0 <= k < b.len() ==> #[trigger] b[k] != 0u8,
{
    lemma_decimal_ascii(b);
    assert forall|k: int| 0 <= k < b.len() implies #[trigger] b[k] != 0u8 by {
        let c = b.drop_first();
        if b[0] == 0x2D && k > 0 {
            assert(c[k - 1] == b[k]);
            if is_unsigned_decimal_bytes(c) && !(c.len() > 0 && digits_only(c, 0, c.len() as int)) {
                let d = choose|d: int|
                    {
                        &&& 0 < d < c.len() - 1
                        &&& c[d] == 0x2E
                        &&& digits_only(c, 0, d)
                        &&& digits_only(c, d + 1, c.len() as int)
                    };
                assert(c[k - 1] == 0x2E || 0x30 <= c[k - 1] <= 0x39);
            }
        } else if b[0] != 0x2D {
            if is_unsigned_decimal_bytes(b) && !(b.len() > 0 && digits_only(b, 0, b.len() as int)) {
                let d = choose|d: int|
                    {
                        &&& 0 < d < b.len() - 1
                        &&& b[d] == 0x2E
                        &&& digits_only(b, 0, d)
                        &&& digits_only(b, d + 1, b.len() as int)
                    };
                assert(b[k] == 0x2E || 0x30 <= b[k] <= 0x39);
            }
        }
    }
    if b.len() == 0 {
        if is_unsigned_decimal_bytes(b) {
            assert(false);
        }
    } else if b[0] == 0x2D && b.len() == 1 {
        if is_unsigned_decimal_bytes(b.drop_first()) {
            assert(b.drop_first().len() == 0);
            assert(false);
        }
    }
}

/// The layout of a well-formed Autotags byte form: each number field sits
/// behind the previous one's NUL, is NUL-free, and ends in its own NUL.
proof fn lemma_autotags_bytes_layout(a: Autotags, s: Seq<u8>)
    requires
        autotags_wf(a),
        s == autotags_bytes(a),
    ensures
        ({
            let b1 = encode_utf8(a.bpm@);
            let b2 = encode_utf8(a.auto_gain@);
            let b3 = encode_utf8(a.gain_db@);
            &&& s.len() == 5 + b1.len() + b2.len() + b3.len()
            &&& b1.len() >= 1 && b2.len() >= 1 && b3.len() >= 1
            &&& s.subrange(2, 2 + b1.len() as int) == b1
            &&& s[(2 + b1.len()) as int] == 0u8
            &&& nul_free(s, 2, 2 + b1.len() as int)
            &&& s.subrange((3 + b1.len()) as int, (3 + b1.len() + b2.len()) as int) == b2
            &&& s[(3 + b1.len() + b2.len()) as int] == 0u8
            &&& nul_free(s, (3 + b1.len()) as int, (3 + b1.len() + b2.len()) as int)
            &&& s.subrange((4 + b1.len() + b2.len()) as int, (4 + b1.len() + b2.len() + b3.len()) as int) == b3
            &&& s[(4 + b1.len() + b2.len() + b3.len()) as int] == 0u8
            &&& nul_free(s, (4 + b1.len() + b2.len()) as int, (4 + b1.len() + b2.len() + b3.len()) as int)
        }),
{
    let b1 = encode_utf8(a.bpm@);
    let b2 = encode_utf8(a.auto_gain@);
    let b3 = encode_utf8(a.gain_db@);
    lemma_decimal_no_nul(b1);
    lemma_decimal_no_nul(b2);
    lemma_decimal_no_nul(b3);
    assert(s.subrange(2, 2 + b1.len() as int) =~= b1);
    assert(s.subrange((3 + b1.len()) as int, (3 + b1.len() + b2.len()) as int) =~= b2);
    assert(s.subrange((4 + b1.len() + b2.len()) as int, (4 + b1.len() + b2.len() + b3.len()) as int) =~= b3);
}

/// The end of the number field that starts at `i` is forced: a NUL with a
/// NUL-free run before it from `i` is the field's own terminator.
proof fn lemma_first_nul_unique(s: Seq<u8>, i: int, p1: int, p2: int)
    requires
        i <= p1 < s.len(),
        s[p1] == 0u8,
        nul_free(s, i, p1),
        i <= p2 < s.len(),
        s[p2] == 0u8,
        nul_free(s, i, p2),
    ensures
        p1 == p2,
{
}

/// Parses the `Serato Autotags` tag, consuming the whole input: the version
/// bytes followed by the three NUL-terminated decimal numbers.  Exactly the
/// byte forms of well-formed [`Autotags`] values parse.
pub fn parse_autotags(input: &[u8]) -> (r: Result<Autotags, Error>)
    ensures
        match r {
            Ok(a) => input@ == autotags_bytes(a) && autotags_wf(a),
            Err(e) => e == Error::ParseError && !(exists|a: Autotags|
                autotags_wf(a) && input@ == #[trigger] autotags_bytes(a)),
        },
{
    let ghost s = input@;
    let (version, i0) = match take_version(input, 0) {
        Ok(v) => v,
        Err(e) => {
            proof {
                if exists|a: Autotags| autotags_wf(a) && s == #[trigger] autotags_bytes(a) {
                    let a = choose|a: Autotags|
                        autotags_wf(a) && s == #[trigger] autotags_bytes(a);
                    lemma_autotags_bytes_layout(a, s);
                }
            }
            return Err(e);
        },
    };
    let (bpm, i1) = match take_double_str(input, i0) {
        Ok(v) => v,
        Err(e) => {
            proof {
                if exists|a: Autotags| autotags_wf(a) && s == #[trigger] autotags_bytes(a) {
                    let a = choose|a: Autotags|
                        autotags_wf(a) && s == #[trigger] autotags_bytes(a);
                    lemma_autotags_bytes_layout(a, s);
                    let b1 = encode_utf8(a.bpm@);
                    if !nul_free(s, 2, s.len() as int) {
                        let j = choose|j: int|
                            {
                                &&& 2 <= j < s.len()
                                &&& s[j] == 0u8
                                &&& nul_free(s, 2, j)
                                &&& !is_decimal_bytes(s.subrange(2, j))
                            };
                        lemma_first_nul_unique(s, 2, j, 2 + b1.len() as int);
                    }
                    assert(false);
                }
            }
            return Err(e);
        },
    };
    let (auto_gain, i2) = match take_double_str(input, i1) {
        Ok(v) => v,
        Err(e) => {
            proof {
                if exists|a: Autotags| autotags_wf(a) && s == #[trigger] autotags_bytes(a) {
                    let a = choose|a: Autotags|
                        autotags_wf(a) && s == #[trigger] autotags_bytes(a);
                    lemma_autotags_bytes_layout(a, s);
                    let b1 = encode_utf8(a.bpm@);
                    let b2 = encode_utf8(a.auto_gain@);
                    lemma_first_nul_unique(s, 2, i1 - 1, 2 + b1.len() as int);
                    assert(i1 == (3 + b1.len()) as int);
                    if !nul_free(s, i1 as int, s.len() as int) {
                        let j = choose|j: int|
                            {
                                &&& i1 <= j < s.len()
                                &&& s[j] == 0u8
                                &&& nul_free(s, i1 as int, j)
                                &&& !is_decimal_bytes(s.subrange(i1 as int, j))
                            };
                        lemma_first_nul_unique(s, i1 as int, j, (3 + b1.len() + b2.len()) as int);
                    }
                    assert(false);
                }
            }
            return Err(e);
        },
    };
    let (gain_db, i3) = match take_double_str(input, i2) {
        Ok(v) => v,
        Err(e) => {
            proof {
                if exists|a: Autotags| autotags_wf(a) && s == #[trigger] autotags_bytes(a) {
                    let a = choose|a: Autotags|
                        autotags_wf(a) && s == #[trigger] autotags_bytes(a);
                    lemma_autotags_bytes_layout(a, s);
                    let b1 = encode_utf8(a.bpm@);
                    let b2 = encode_utf8(a.auto_gain@);
                    let b3 = encode_utf8(a.gain_db@);
                    lemma_first_nul_unique(s, 2, i1 - 1, 2 + b1.len() as int);
                    assert(i1 == (3 + b1.len()) as int);
                    lemma_first_nul_unique(s, i1 as int, i2 - 1, (3 + b1.len() + b2.len()) as int);
                    assert(i2 == (4 + b1.len() + b2.len()) as int);
                    if !nul_free(s, i2 as int, s.len() as int) {
                        let j = choose|j: int|
                            {
                                &&& i2 <= j < s.len()
                                &&& s[j] == 0u8
                                &&& nul_free(s, i2 as int, j)
                                &&& !is_decimal_bytes(s.subrange(i2 as int, j))
                            };
                        lemma_first_nul_unique(s, i2 as int, j, (4 + b1.len() + b2.len() + b3.len()) as int);
                    }
                    assert(false);
                }
            }
            return Err(e);
        },
    };
    if i3 != input.len() {
        proof {
            if exists|a: Autotags| autotags_wf(a) && s == #[trigger] autotags_bytes(a) {
                let a = choose|a: Autotags| autotags_wf(a) && s == #[trigger] autotags_bytes(a);
                lemma_autotags_bytes_layout(a, s);
                let b1 = encode_utf8(a.bpm@);
                let b2 = encode_utf8(a.auto_gain@);
                let b3 = encode_utf8(a.gain_db@);
                lemma_first_nul_unique(s, 2, i1 - 1, 2 + b1.len() as int);
                lemma_first_nul_unique(s, i1 as int, i2 - 1, (3 + b1.len() + b2.len()) as int);
                lemma_first_nul_unique(s, i2 as int, i3 - 1, (4 + b1.len() + b2.len() + b3.len()) as int);
                assert(i3 == s.len());
                assert(false);
            }
        }
        return Err(Error::ParseError);
    }
    let a = Autotags { version, bpm, auto_gain, gain_db };
    proof {
        assert(input@ =~= input@.subrange(0, i0 as int) + input@.subrange(i0 as int, i1 as int)
            + input@.subrange(i1 as int, i2 as int) + input@.subrange(i2 as int, i3 as int));
    }
    Ok(a)
}

/// Serializes an [`Autotags`] to its byte form, appending to `out`.
pub fn write_autotags(out: &mut Vec<u8>, autotags: &Autotags) -> (n: usize)
    ensures
        final(out)@ == old(out)@ + autotags_bytes(*autotags),
        n == autotags_bytes(*autotags).len(),
{
    let start = out.len();
    write_version(out, autotags.version);
    write_double_str(out, &autotags.bpm);
    write_double_str(out, &autotags.auto_gain);
    write_double_str(out, &autotags.gain_db);
    assert(out@ =~= old(out)@ + autotags_bytes(*autotags));
    out.len() - start
}

/// The tag's name, as embedded in envelopes and ID3 frame descriptions.
pub fn autotags_tag_name() -> (r: &'static str)
    ensures
        r@ == "Serato Autotags"@,
{
    "Serato Autotags"
}

/// The FLAC Vorbis-comment key that carries this tag.
pub fn autotags_flac_comment() -> (r: &'static str)
    ensures
        r@ == "SERATO_AUTOGAIN"@,
{
    "SERATO_AUTOGAIN"
}

/// The MP4 freeform atom name that carries this tag.
pub fn autotags_mp4_atom_name() -> (r: &'static str)
    ensures
        r@ == "autgain"@,
{
    "autgain"
}

} // verus!
