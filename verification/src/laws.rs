//! Laws that the library's operations obey, stated over the same spec
//! functions that the operations' contracts use.

use crate::lossy::lossy_decode;
use crate::raw_str::RawStr;
use vstd::prelude::*;
use vstd::std_specs::cmp::PartialEqSpec;
use vstd::utf8::decode_utf8;
use vstd::utf8::encode_utf8;
use vstd::utf8::encode_utf8_decode_utf8;
use vstd::utf8::encode_utf8_valid_utf8;
use vstd::utf8::valid_utf8;

verus! {

/// Round trip through a known-valid text value: the byte representation of
/// text is always valid UTF-8, and validating it recovers the original
/// text. Hence wrapping a text value and validating the wrapped bytes
/// always succeeds and returns the value unchanged.
pub proof fn lemma_text_round_trip(chars: Seq<char>)
    ensures
        valid_utf8(encode_utf8(chars)),
        decode_utf8(encode_utf8(chars)) == chars,
{
    broadcast use encode_utf8_valid_utf8, encode_utf8_decode_utf8;

}

/// Equality of views is reflexive: every view equals itself.
pub proof fn lemma_eq_reflexive<'a>(v: RawStr<'a>)
    ensures
        v.eq_spec(&v),
{
}

/// The empty suffix matches every byte sequence.
pub proof fn lemma_empty_suffix(bytes: Seq<u8>)
    ensures
        Seq::<u8>::empty().is_suffix_of(bytes),
{
    assert(Seq::<u8>::empty() =~= bytes.subrange(bytes.len() as int, bytes.len() as int));
}

/// The lexicographic order is consistent with equality: two byte sequences
/// compare as equal exactly when they are the same sequence.
pub proof fn lemma_lex_cmp_equal_iff_eq(a: Seq<u8>, b: Seq<u8>)
    ensures
        (crate::raw_str::lex_cmp_bytes(a, b) == core::cmp::Ordering::Equal) <==> a == b,
    decreases a.len(),
{
    if a.len() == 0 && b.len() == 0 {
        assert(a =~= b);
    } else if a.len() == 0 || b.len() == 0 {
    } else if a[0] == b[0] {
        lemma_lex_cmp_equal_iff_eq(a.drop_first(), b.drop_first());
        if a.drop_first() == b.drop_first() {
            assert(a =~= b) by {
                assert forall|i: int| 0 <= i < a.len() implies a[i] == b[i] by {
                    if i > 0 {
                        assert(a[i] == a.drop_first()[i - 1]);
                        assert(b[i] == b.drop_first()[i - 1]);
                    }
                }
            }
        }
        if a == b {
            assert(a.drop_first() =~= b.drop_first());
        }
    }
}

/// Lossy conversion preserves valid input exactly: on valid UTF-8 it
/// returns the decoding of the bytes themselves, with no replacement.
pub proof fn lemma_lossy_preserves_valid(bytes: Seq<u8>)
    requires
        valid_utf8(bytes),
    ensures
        lossy_decode(bytes) == decode_utf8(bytes),
{
    crate::lossy::lemma_lossy_decode_valid(bytes);
}

} // verus!
