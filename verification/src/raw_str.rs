//! The [`RawStr`] view type and its operations.

use crate::lossy::lossy_decode;
use crate::lossy::lossy_string;
use crate::trusted::utf8_from_bytes;
use vstd::prelude::*;
use vstd::string::StringSliceAdditionalSpecFns;
use vstd::utf8::decode_utf8;
use vstd::utf8::encode_utf8_decode_utf8;
use vstd::utf8::valid_utf8;

verus! {

/// The ASCII-lowercase fold of a byte: the letters 'A' through 'Z' map to
/// their lowercase counterparts, every other byte is unchanged.
pub open spec fn ascii_fold(b: u8) -> u8 {
    if 0x41 <= b <= 0x5A {
        (b + 0x20) as u8
    } else {
        b
    }
}

/// Case-insensitive byte equality: the sequences have equal length and
/// equal bytes after ASCII-lowercase folding. Bytes outside the ASCII
/// letter ranges, including all bytes at or above 0x80, are never folded.
pub open spec fn eq_ignore_ascii_case_bytes(a: Seq<u8>, b: Seq<u8>) -> bool {
    a.len() == b.len() && (forall|i: int|
        0 <= i < a.len() ==> ascii_fold(a[i]) == ascii_fold(b[i]))
}

/// Folds a byte to ASCII lowercase.
fn fold_byte(b: u8) -> (r: u8)
    ensures
        r == ascii_fold(b),
{
    if 0x41 <= b && b <= 0x5A {
        b + 0x20
    } else {
        b
    }
}

/// Lexicographic comparison of byte sequences: the first differing byte
/// decides, and when one sequence is a prefix of the other, the shorter
/// sorts first.
pub open spec fn lex_cmp_bytes(a: Seq<u8>, b: Seq<u8>) -> core::cmp::Ordering
    decreases a.len(),
{
    if a.len() == 0 && b.len() == 0 {
        core::cmp::Ordering::Equal
    } else if a.len() == 0 {
        core::cmp::Ordering::Less
    } else if b.len() == 0 {
        core::cmp::Ordering::Greater
    } else if a[0] < b[0] {
        core::cmp::Ordering::Less
    } else if a[0] > b[0] {
        core::cmp::Ordering::Greater
    } else {
        lex_cmp_bytes(a.drop_first(), b.drop_first())
    }
}

/// Compares two byte slices lexicographically.
fn lex_cmp(a: &[u8], b: &[u8]) -> (r: core::cmp::Ordering)
    ensures
        r == lex_cmp_bytes(a@, b@),
{
    let an: usize = a.len();
    let bn: usize = b.len();
    let n: usize = if an < bn {
        an
    } else {
        bn
    };
    let mut i: usize = 0;
    proof {
        assert(a@.skip(0) =~= a@);
        assert(b@.skip(0) =~= b@);
    }
    while i < n
        invariant
            i <= n,
            an == a@.len(),
            bn == b@.len(),
            n == if an < bn {
                an
            } else {
                bn
            },
            lex_cmp_bytes(a@, b@) == lex_cmp_bytes(a@.skip(i as int), b@.skip(i as int)),
        decreases n - i,
    {
        if a[i] < b[i] {
            return core::cmp::Ordering::Less;
        }
        if a[i] > b[i] {
            return core::cmp::Ordering::Greater;
        }
        proof {
            assert(a@.skip(i as int).drop_first() =~= a@.skip(i + 1));
            assert(b@.skip(i as int).drop_first() =~= b@.skip(i + 1));
        }
        i = i + 1;
    }
    if an == bn {
        core::cmp::Ordering::Equal
    } else if an < bn {
        core::cmp::Ordering::Less
    } else {
        core::cmp::Ordering::Greater
    }
}

/// Compares two byte slices element-wise.
fn bytes_eq(a: &[u8], b: &[u8]) -> (r: bool)
    ensures
        r == (a@ == b@),
{
    if a.len() != b.len() {
        proof {
            assert(a@.len() != b@.len());
        }
        return false;
    }
    let n: usize = a.len();
    let mut i: usize = 0;
    while i < n
        invariant
            i <= n,
            n == a@.len() == b@.len(),
            forall|j: int| 0 <= j < i ==> a@[j] == b@[j],
        decreases n - i,
    {
        if a[i] != b[i] {
            return false;
        }
        i = i + 1;
    }
    proof {
        assert(a@ =~= b@);
    }
    true
}

/// A reference to a string which is believed to contain valid UTF-8 string
/// data, but which has not yet been verified to contain UTF-8 data.
///
/// Equality, ordering, and hashing are defined structurally over the byte
/// contents; no UTF-8 validity invariant is assumed or enforced.
#[derive(Copy, Clone, Debug, Eq, Ord, Hash)]
pub struct RawStr<'a>(pub &'a [u8]);

impl<'a> View for RawStr<'a> {
    type V = Seq<u8>;

    open spec fn view(&self) -> Seq<u8> {
        self.0@
    }
}

impl<'a> PartialEq for RawStr<'a> {
    /// Two views are equal exactly when their byte sequences are equal
    /// element-wise.
    fn eq(&self, other: &RawStr<'a>) -> (r: bool) {
        bytes_eq(self.0, other.0)
    }
}

impl<'a> vstd::std_specs::cmp::PartialEqSpecImpl for RawStr<'a> {
    open spec fn obeys_eq_spec() -> bool {
        true
    }

    open spec fn eq_spec(&self, other: &RawStr<'a>) -> bool {
        self@ == other@
    }
}

impl<'a> PartialOrd for RawStr<'a> {
    /// Views are totally ordered lexicographically over their raw bytes.
    fn partial_cmp(&self, other: &RawStr<'a>) -> (r: Option<core::cmp::Ordering>) {
        Some(lex_cmp(self.0, other.0))
    }
}

impl<'a> vstd::std_specs::cmp::PartialOrdSpecImpl for RawStr<'a> {
    open spec fn obeys_partial_cmp_spec() -> bool {
        true
    }

    open spec fn partial_cmp_spec(&self, other: &RawStr<'a>) -> Option<core::cmp::Ordering> {
        Some(lex_cmp_bytes(self@, other@))
    }
}

impl<'a> Default for RawStr<'a> {
    /// The default view is empty.
    fn default() -> (r: RawStr<'a>)
        ensures
            r@ == Seq::<u8>::empty(),
    {
        let r = RawStr(&[]);
        proof {
            assert(r@ =~= Seq::<u8>::empty());
        }
        r
    }
}

impl<'a> PartialEq<str> for RawStr<'a> {
    /// A view equals a plain text value exactly when the view's raw bytes
    /// equal the text's byte representation.
    fn eq(&self, other: &str) -> (r: bool) {
        bytes_eq(self.0, other.as_bytes())
    }
}

impl<'a> vstd::std_specs::cmp::PartialEqSpecImpl<str> for RawStr<'a> {
    open spec fn obeys_eq_spec() -> bool {
        true
    }

    open spec fn eq_spec(&self, other: &str) -> bool {
        self@ == other.spec_bytes()
    }
}

impl<'a> PartialEq<&str> for RawStr<'a> {
    /// A view equals a plain text value exactly when the view's raw bytes
    /// equal the text's byte representation.
    fn eq(&self, other: &&str) -> (r: bool) {
        bytes_eq(self.0, other.as_bytes())
    }
}

impl<'a> vstd::std_specs::cmp::PartialEqSpecImpl<&str> for RawStr<'a> {
    open spec fn obeys_eq_spec() -> bool {
        true
    }

    open spec fn eq_spec(&self, other: &&str) -> bool {
        self@ == other.spec_bytes()
    }
}

/// The result of a lossy conversion: a borrowed text view when no
/// replacement was needed, an owned one otherwise.
pub enum LossyStr<'a> {
    /// The bytes were valid UTF-8; the text borrows them directly.
    Borrowed(&'a str),
    /// The bytes held invalid sequences; the text is a fresh allocation.
    Owned(String),
}

impl<'a> View for LossyStr<'a> {
    type V = Seq<char>;

    open spec fn view(&self) -> Seq<char> {
        match self {
            LossyStr::Borrowed(s) => s@,
            LossyStr::Owned(s) => s@,
        }
    }
}

impl<'a> LossyStr<'a> {
    /// The converted text, borrowed from this value.
    pub fn as_str(&self) -> (r: &str)
        ensures
            r@ == self@,
    {
        match self {
            LossyStr::Borrowed(s) => s,
            LossyStr::Owned(s) => s.as_str(),
        }
    }
}

impl<'a> RawStr<'a> {
    /// Wraps a byte array as `RawStr`.
    pub fn from_bytes(bytes: &'a [u8]) -> (r: Self)
        ensures
            r@ == bytes@,
    {
        RawStr(bytes)
    }

    /// Wraps a string slice as `RawStr`.
    pub fn from_str(s: &'a str) -> (r: Self)
        ensures
            r@ == s.spec_bytes(),
    {
        RawStr(s.as_bytes())
    }

    /// Gets the raw bytes.
    pub fn as_bytes(&self) -> (r: &'a [u8])
        ensures
            r@ == self@,
    {
        self.0
    }

    /// Tests if the string is empty.
    pub fn is_empty(&self) -> (r: bool)
        ensures
            r == (self@.len() == 0),
    {
        self.0.len() == 0
    }

    /// Length of the string in bytes.
    pub fn len(&self) -> (r: usize)
        ensures
            r == self@.len(),
    {
        self.0.len()
    }

    /// Validates that the string contains valid UTF-8, and returns `Some(s)`
    /// if so. If the string contains invalid UTF-8 sequences, this returns
    /// `None`. The returned text borrows the same bytes as this view.
    pub fn to_str(&self) -> (r: Option<&'a str>)
        ensures
            r is Some <==> valid_utf8(self@),
            r matches Some(s) ==> s@ == decode_utf8(self@) && s.spec_bytes() == self@,
    {
        let r = utf8_from_bytes(self.0);
        proof {
            if r is Some {
                broadcast use encode_utf8_decode_utf8;

                assert(decode_utf8(self@) == r->0@);
            }
        }
        r
    }

    /// Converts this value to a string. If the string is valid UTF-8, this
    /// returns a borrowed view over the same bytes, allocating nothing. If
    /// it contains invalid UTF-8 sequences, this allocates a new `String`
    /// holding the lossy conversion: each maximal invalid subsequence is
    /// replaced by one Unicode replacement character, and valid portions
    /// are kept verbatim.
    pub fn to_str_lossy(&self) -> (r: LossyStr<'a>)
        ensures
            r@ == lossy_decode(self@),
            r is Borrowed <==> valid_utf8(self@),
    {
        match utf8_from_bytes(self.0) {
            Some(s) => {
                proof {
                    broadcast use encode_utf8_decode_utf8;

                    crate::lossy::lemma_lossy_decode_valid(self@);
                }
                LossyStr::Borrowed(s)
            },
            None => LossyStr::Owned(lossy_string(self.0)),
        }
    }

    /// Equivalent to `str::eq_ignore_ascii_case`: compares the two views
    /// byte-for-byte after folding ASCII letters to lowercase; all other
    /// bytes must match exactly, and differing lengths are never equal.
    pub fn eq_ignore_ascii_case(&self, other: RawStr<'_>) -> (r: bool)
        ensures
            r == eq_ignore_ascii_case_bytes(self@, other@),
    {
        let a = self.0;
        let b = other.0;
        if a.len() != b.len() {
            return false;
        }
        let n: usize = a.len();
        let mut i: usize = 0;
        while i < n
            invariant
                i <= n,
                a@ == self@,
                b@ == other@,
                n == a@.len() == b@.len(),
                forall|j: int| 0 <= j < i ==> ascii_fold(a@[j]) == ascii_fold(b@[j]),
            decreases n - i,
        {
            if fold_byte(a[i]) != fold_byte(b[i]) {
                proof {
                    assert(ascii_fold(self@[i as int]) != ascii_fold(other@[i as int]));
                }
                return false;
            }
            i = i + 1;
        }
        true
    }

    /// Equivalent to `str::ends_with`: true exactly when the trailing bytes
    /// of this view equal the suffix's bytes. A suffix longer than the view
    /// never matches; the empty suffix always does.
    pub fn ends_with(&self, other: RawStr<'_>) -> (r: bool)
        ensures
            r == other@.is_suffix_of(self@),
    {
        let a = self.0;
        let b = other.0;
        let alen: usize = a.len();
        let n: usize = b.len();
        if n > alen {
            return false;
        }
        let off: usize = alen - n;
        let mut i: usize = 0;
        while i < n
            invariant
                i <= n,
                a@ == self@,
                b@ == other@,
                alen == a@.len(),
                n == b@.len() <= alen,
                off == alen - n,
                forall|j: int| 0 <= j < i ==> a@[off + j] == b@[j],
            decreases n - i,
        {
            if a[off + i] != b[i] {
                proof {
                    let sub = a@.subrange(off as int, a@.len() as int);
                    assert(sub[i as int] == a@[off + i]);
                    assert(b@ != sub) by {
                        assert(sub[i as int] != b@[i as int]);
                    }
                }
                return false;
            }
            i = i + 1;
        }
        proof {
            assert(b@ =~= a@.subrange(off as int, a@.len() as int));
        }
        true
    }

    /// The text shown for this value: the lossy conversion of its bytes,
    /// with no quoting or escaping.
    pub fn to_display_string(&self) -> (r: String)
        ensures
            r@ == lossy_decode(self@),
    {
        let l = self.to_str_lossy();
        l.as_str().to_owned()
    }

    /// The debug rendering of this value: its lossy conversion shown as a
    /// quoted text literal, with special characters escaped.
    pub fn to_debug_string(&self) -> (r: String)
        ensures
            r@ == crate::escape::debug_chars(lossy_decode(self@)),
    {
        crate::escape::escaped_lossy_string(self.0)
    }
}

impl<'a> From<&'a str> for RawStr<'a> {
    /// Borrows the byte representation of an already-valid text value.
    /// What the conversion returns is stated on [`RawStr::from_str`], which
    /// this calls: a spec-level account of a borrowed-slice value cannot be
    /// built from a text value alone.
    fn from(s: &'a str) -> (r: RawStr<'a>) {
        RawStr::from_str(s)
    }
}

impl<'a> vstd::std_specs::convert::FromSpecImpl<&'a str> for RawStr<'a> {
    open spec fn obeys_from_spec() -> bool {
        false
    }

    open spec fn from_spec(s: &'a str) -> RawStr<'a> {
        vstd::pervasive::arbitrary()
    }
}

} // verus!
