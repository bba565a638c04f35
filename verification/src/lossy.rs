//! Lossy UTF-8 decoding, per the Unicode "U+FFFD Substitution of Maximal
//! Subparts" algorithm: each maximal invalid subsequence of the input is
//! replaced by exactly one replacement character, and every valid portion
//! is decoded verbatim.

use crate::trusted::char_from_u32;
use crate::trusted::push_char;
use vstd::prelude::*;
use vstd::utf8::*;

verus! {

/// The Unicode replacement character, substituted for each maximal invalid
/// subsequence during lossy decoding.
pub const REPLACEMENT_CHARACTER: char = '\u{FFFD}';

/// True when `b1` may follow the leading byte `b0` in a valid UTF-8 scalar
/// encoding. The second byte of a 3- or 4-byte encoding is restricted
/// beyond the plain continuation range so that overlong encodings,
/// surrogates, and codepoints above U+10FFFF are ruled out.
pub open spec fn can_follow_leading_byte(b0: u8, b1: u8) -> bool {
    if b0 == 0xE0 {
        0xA0 <= b1 <= 0xBF
    } else if b0 == 0xED {
        0x80 <= b1 <= 0x9F
    } else if b0 == 0xF0 {
        0x90 <= b1 <= 0xBF
    } else if b0 == 0xF4 {
        0x80 <= b1 <= 0x8F
    } else {
        is_continuation_byte(b1)
    }
}

/// The length of the maximal subpart at the front of `bytes`, assuming the
/// front is not a valid scalar encoding: the longest prefix of `bytes` that
/// is also a prefix of some valid scalar encoding, or a single byte when no
/// such prefix extends past the first byte.
pub open spec fn invalid_prefix_len(bytes: Seq<u8>) -> int
    recommends
        bytes.len() > 0,
        !valid_first_scalar(bytes),
{
    let b0 = bytes[0];
    if 0xE0 <= b0 <= 0xF4 && bytes.len() >= 2 && can_follow_leading_byte(b0, bytes[1]) {
        if 0xF0 <= b0 && bytes.len() >= 3 && is_continuation_byte(bytes[2]) {
            3
        } else {
            2
        }
    } else {
        1
    }
}

/// The characters decoded from `bytes`, with each maximal invalid subpart
/// replaced by one [`REPLACEMENT_CHARACTER`]. On valid UTF-8 input this
/// agrees with [`decode_utf8`] (see [`lemma_lossy_decode_valid`]).
pub open spec fn lossy_decode(bytes: Seq<u8>) -> Seq<char>
    decreases bytes.len(),
{
    if bytes.len() == 0 {
        seq![]
    } else if valid_first_scalar(bytes) {
        seq![decode_first_scalar(bytes) as char] + lossy_decode(pop_first_scalar(bytes))
    } else {
        seq![REPLACEMENT_CHARACTER] + lossy_decode(bytes.skip(invalid_prefix_len(bytes)))
    }
}

/// Tests whether `b` is a UTF-8 continuation byte.
fn is_cont(b: u8) -> (r: bool)
    ensures
        r == is_continuation_byte(b),
{
    0x80 <= b && b <= 0xBF
}

/// Tests whether `b1` may follow the leading byte `b0` in a valid scalar
/// encoding.
fn can_follow(b0: u8, b1: u8) -> (r: bool)
    ensures
        r == can_follow_leading_byte(b0, b1),
{
    if b0 == 0xE0 {
        0xA0 <= b1 && b1 <= 0xBF
    } else if b0 == 0xED {
        0x80 <= b1 && b1 <= 0x9F
    } else if b0 == 0xF0 {
        0x90 <= b1 && b1 <= 0xBF
    } else if b0 == 0xF4 {
        0x80 <= b1 && b1 <= 0x8F
    } else {
        is_cont(b1)
    }
}

/// Classifies the front of `bytes` at position `i`: how many bytes the next
/// decoding step consumes, and the scalar it decodes when that step finds a
/// valid scalar encoding. On an invalid front the step consumes exactly the
/// maximal subpart.
fn utf8_step(bytes: &[u8], i: usize) -> (r: (usize, Option<u32>))
    requires
        i < bytes@.len(),
    ensures
        valid_first_scalar(bytes@.skip(i as int)) ==> {
            &&& r.1 == Some(decode_first_scalar(bytes@.skip(i as int)))
            &&& r.0 == length_of_first_scalar(bytes@.skip(i as int))
        },
        !valid_first_scalar(bytes@.skip(i as int)) ==> {
            &&& r.1 is None
            &&& r.0 == invalid_prefix_len(bytes@.skip(i as int))
        },
        r.1 matches Some(v) ==> is_scalar(v),
        1 <= r.0 <= bytes@.len() - i,
{
    let ghost tail = bytes@.skip(i as int);
    let n = bytes.len();
    let b0 = bytes[i];
    proof {
        assert(tail[0] == b0);
        assert(tail.len() == n - i);
    }
    if b0 < 0x80 {
        proof {
            assert((b0 & 0x7F) as u32 == b0 as u32 && b0 as u32 <= 0x7F) by (bit_vector)
                requires
                    b0 < 0x80,
            ;
            assert(valid_first_scalar(tail));
        }
        (1, Some(b0 as u32))
    } else if b0 < 0xC2 {
        proof {
            if tail.len() >= 2 && is_continuation_byte(tail[1]) && 0xC0 <= b0 {
                let b1 = tail[1];
                assert((((b0 & 0x1F) as u32) << 6) | ((b1 & 0x3F) as u32) < 0x80) by (bit_vector)
                    requires
                        0xC0 <= b0 < 0xC2,
                        0x80 <= b1 <= 0xBF,
                ;
            }
            assert(!valid_first_scalar(tail));
            assert(invalid_prefix_len(tail) == 1);
        }
        (1, None)
    } else if b0 < 0xE0 {
        if i + 1 < n && is_cont(bytes[i + 1]) {
            let b1 = bytes[i + 1];
            let v: u32 = (((b0 & 0x1F) as u32) << 6) | ((b1 & 0x3F) as u32);
            proof {
                assert(tail[1] == b1);
                assert(0x80 <= (((b0 & 0x1F) as u32) << 6) | ((b1 & 0x3F) as u32) <= 0x7FF)
                    by (bit_vector)
                    requires
                        0xC2 <= b0 <= 0xDF,
                        0x80 <= b1 <= 0xBF,
                ;
                assert(valid_first_scalar(tail));
            }
            (2, Some(v))
        } else {
            proof {
                assert(!valid_first_scalar(tail));
                assert(invalid_prefix_len(tail) == 1);
            }
            (1, None)
        }
    } else if b0 < 0xF0 {
        if i + 1 < n && can_follow(b0, bytes[i + 1]) {
            let b1 = bytes[i + 1];
            if i + 2 < n && is_cont(bytes[i + 2]) {
                let b2 = bytes[i + 2];
                let v: u32 = ((((b0 & 0x0F) as u32) << 12) | (((b1 & 0x3F) as u32) << 6)) | ((b2
                    & 0x3F) as u32);
                proof {
                    assert(tail[1] == b1 && tail[2] == b2);
                    assert({
                        let c = ((((b0 & 0x0F) as u32) << 12) | (((b1 & 0x3F) as u32) << 6)) | ((b2
                            & 0x3F) as u32);
                        0x800 <= c <= 0xFFFF && !(0xD800 <= c <= 0xDFFF)
                    }) by (bit_vector)
                        requires
                            0xE0 <= b0 <= 0xEF,
                            0x80 <= b1 <= 0xBF,
                            0x80 <= b2 <= 0xBF,
                            b0 == 0xE0 ==> 0xA0 <= b1,
                            b0 == 0xED ==> b1 <= 0x9F,
                    ;
                    assert(valid_first_scalar(tail));
                }
                (3, Some(v))
            } else {
                proof {
                    assert(!valid_first_scalar(tail));
                    assert(invalid_prefix_len(tail) == 2);
                }
                (2, None)
            }
        } else {
            proof {
                if tail.len() >= 3 && is_continuation_byte(tail[1]) && is_continuation_byte(
                    tail[2],
                ) {
                    let b1 = tail[1];
                    let b2 = tail[2];
                    assert({
                        let c = ((((b0 & 0x0F) as u32) << 12) | (((b1 & 0x3F) as u32) << 6)) | ((b2
                            & 0x3F) as u32);
                        !(0x800 <= c && !(0xD800 <= c <= 0xDFFF))
                    }) by (bit_vector)
                        requires
                            0xE0 <= b0 <= 0xEF,
                            0x80 <= b1 <= 0xBF,
                            0x80 <= b2 <= 0xBF,
                            b0 == 0xE0 ==> !(0xA0 <= b1 <= 0xBF),
                            b0 == 0xED ==> !(0x80 <= b1 <= 0x9F),
                            b0 != 0xE0 && b0 != 0xED ==> !(0x80 <= b1 <= 0xBF),
                    ;
                }
                assert(!valid_first_scalar(tail));
                assert(invalid_prefix_len(tail) == 1);
            }
            (1, None)
        }
    } else if b0 < 0xF5 {
        if i + 1 < n && can_follow(b0, bytes[i + 1]) {
            let b1 = bytes[i + 1];
            if i + 2 < n && is_cont(bytes[i + 2]) {
                let b2 = bytes[i + 2];
                if i + 3 < n && is_cont(bytes[i + 3]) {
                    let b3 = bytes[i + 3];
                    let v: u32 = (((((b0 & 0x07) as u32) << 18) | (((b1 & 0x3F) as u32) << 12)) | ((
                    (b2 & 0x3F) as u32) << 6)) | ((b3 & 0x3F) as u32);
                    proof {
                        assert(tail[1] == b1 && tail[2] == b2 && tail[3] == b3);
                        assert({
                            let c = (((((b0 & 0x07) as u32) << 18) | (((b1 & 0x3F) as u32) << 12))
                                | (((b2 & 0x3F) as u32) << 6)) | ((b3 & 0x3F) as u32);
                            0x10000 <= c <= 0x10FFFF
                        }) by (bit_vector)
                            requires
                                0xF0 <= b0 <= 0xF4,
                                0x80 <= b1 <= 0xBF,
                                0x80 <= b2 <= 0xBF,
                                0x80 <= b3 <= 0xBF,
                                b0 == 0xF0 ==> 0x90 <= b1,
                                b0 == 0xF4 ==> b1 <= 0x8F,
                        ;
                        assert(valid_first_scalar(tail));
                    }
                    (4, Some(v))
                } else {
                    proof {
                        assert(!valid_first_scalar(tail));
                        assert(invalid_prefix_len(tail) == 3);
                    }
                    (3, None)
                }
            } else {
                proof {
                    assert(!valid_first_scalar(tail));
                    assert(invalid_prefix_len(tail) == 2);
                }
                (2, None)
            }
        } else {
            proof {
                if tail.len() >= 4 && is_continuation_byte(tail[1]) && is_continuation_byte(
                    tail[2],
                ) && is_continuation_byte(tail[3]) {
                    let b1 = tail[1];
                    let b2 = tail[2];
                    let b3 = tail[3];
                    assert({
                        let c = (((((b0 & 0x07) as u32) << 18) | (((b1 & 0x3F) as u32) << 12)) | ((
                        (b2 & 0x3F) as u32) << 6)) | ((b3 & 0x3F) as u32);
                        !(0x10000 <= c <= 0x10FFFF)
                    }) by (bit_vector)
                        requires
                            0xF0 <= b0 <= 0xF4,
                            0x80 <= b1 <= 0xBF,
                            b0 == 0xF0 ==> !(0x90 <= b1 <= 0xBF),
                            b0 == 0xF4 ==> !(0x80 <= b1 <= 0x8F),
                            b0 != 0xF0 && b0 != 0xF4 ==> !(0x80 <= b1 <= 0xBF),
                    ;
                }
                assert(!valid_first_scalar(tail));
                assert(invalid_prefix_len(tail) == 1);
            }
            (1, None)
        }
    } else {
        proof {
            if tail.len() >= 4 && 0xF5 <= b0 <= 0xF7 && is_continuation_byte(tail[1])
                && is_continuation_byte(tail[2]) && is_continuation_byte(tail[3]) {
                let b1 = tail[1];
                let b2 = tail[2];
                let b3 = tail[3];
                assert({
                    let c = (((((b0 & 0x07) as u32) << 18) | (((b1 & 0x3F) as u32) << 12)) | (((b2
                        & 0x3F) as u32) << 6)) | ((b3 & 0x3F) as u32);
                    c > 0x10FFFF
                }) by (bit_vector)
                    requires
                        0xF5 <= b0 <= 0xF7,
                        0x80 <= b1 <= 0xBF,
                        0x80 <= b2 <= 0xBF,
                        0x80 <= b3 <= 0xBF,
                ;
            }
            assert(!valid_first_scalar(tail));
            assert(invalid_prefix_len(tail) == 1);
        }
        (1, None)
    }
}

/// On valid UTF-8 input, lossy decoding replaces nothing: it agrees with
/// [`decode_utf8`] exactly.
pub proof fn lemma_lossy_decode_valid(bytes: Seq<u8>)
    requires
        valid_utf8(bytes),
    ensures
        lossy_decode(bytes) == decode_utf8(bytes),
    decreases bytes.len(),
{
    if bytes.len() == 0 {
    } else {
        lemma_lossy_decode_valid(pop_first_scalar(bytes));
    }
}

/// Performs one decoding step at position `i`: returns how many bytes the
/// step consumes and the character it yields, either the scalar decoded
/// from a valid front or the replacement character for a maximal invalid
/// subpart.
pub(crate) fn lossy_step(bytes: &[u8], i: usize) -> (r: (usize, char))
    requires
        i < bytes@.len(),
    ensures
        1 <= r.0 <= bytes@.len() - i,
        lossy_decode(bytes@.skip(i as int)) == seq![r.1] + lossy_decode(
            bytes@.skip(i as int).skip(r.0 as int),
        ),
{
    let ghost tail = bytes@.skip(i as int);
    let (step, sc) = utf8_step(bytes, i);
    let c = match sc {
        Some(v) => char_from_u32(v).unwrap(),
        None => REPLACEMENT_CHARACTER,
    };
    proof {
        if valid_first_scalar(tail) {
            char_u32_cast(c, decode_first_scalar(tail));
            assert(pop_first_scalar(tail) == tail.skip(step as int));
            assert(lossy_decode(tail) == seq![c] + lossy_decode(tail.skip(step as int)));
        } else {
            assert(lossy_decode(tail) == seq![c] + lossy_decode(tail.skip(step as int)));
        }
    }
    (step, c)
}

/// Decodes `bytes` as UTF-8 into an owned string, substituting one
/// replacement character for each maximal invalid subpart and keeping every
/// valid portion verbatim.
pub fn lossy_string(bytes: &[u8]) -> (out: String)
    ensures
        out@ == lossy_decode(bytes@),
{
    let n = bytes.len();
    let mut out = String::new();
    let mut i: usize = 0;
    proof {
        assert(bytes@.skip(0) =~= bytes@);
        assert(out@ + lossy_decode(bytes@) =~= lossy_decode(bytes@));
    }
    while i < n
        invariant
            i <= n,
            n == bytes@.len(),
            lossy_decode(bytes@) == out@ + lossy_decode(bytes@.skip(i as int)),
        decreases n - i,
    {
        let ghost tail = bytes@.skip(i as int);
        let (step, c) = lossy_step(bytes, i);
        proof {
            assert(tail.skip(step as int) =~= bytes@.skip(i + step));
            assert(out@.push(c) =~= out@ + seq![c]);
            assert((out@ + seq![c]) + lossy_decode(bytes@.skip(i + step)) =~= out@ + (seq![c]
                + lossy_decode(bytes@.skip(i + step))));
        }
        push_char(&mut out, c);
        i = i + step;
    }
    proof {
        assert(bytes@.skip(n as int) =~= Seq::<u8>::empty());
        assert(out@ + lossy_decode(Seq::<u8>::empty()) =~= out@);
    }
    out
}

} // verus!
