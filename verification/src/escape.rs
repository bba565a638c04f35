//! Quoted, escaped rendering of text, as shown by the debug form of a
//! [`crate::RawStr`]: the content is wrapped in double quotes, and the
//! quote, the backslash, and control characters are escaped.

use crate::lossy::lossy_decode;
use crate::trusted::push_char;
use vstd::prelude::*;

verus! {

/// The lowercase hexadecimal digit for a value below 16.
pub open spec fn hex_digit(v: u8) -> char {
    if v == 0 {
        '0'
    } else if v == 1 {
        '1'
    } else if v == 2 {
        '2'
    } else if v == 3 {
        '3'
    } else if v == 4 {
        '4'
    } else if v == 5 {
        '5'
    } else if v == 6 {
        '6'
    } else if v == 7 {
        '7'
    } else if v == 8 {
        '8'
    } else if v == 9 {
        '9'
    } else if v == 10 {
        'a'
    } else if v == 11 {
        'b'
    } else if v == 12 {
        'c'
    } else if v == 13 {
        'd'
    } else if v == 14 {
        'e'
    } else {
        'f'
    }
}

/// The escaped form of one character: two-character escapes for the quote,
/// the backslash, tab, carriage return, line feed and the nul character, a
/// hexadecimal escape for the remaining control characters, and every other
/// character unchanged.
pub open spec fn escape_char(c: char) -> Seq<char> {
    if c == '"' {
        seq!['\\', '"']
    } else if c == '\\' {
        seq!['\\', '\\']
    } else if c == '\t' {
        seq!['\\', 't']
    } else if c == '\r' {
        seq!['\\', 'r']
    } else if c == '\n' {
        seq!['\\', 'n']
    } else if c == '\0' {
        seq!['\\', '0']
    } else if (c as u32) < 0x20 || (c as u32) == 0x7F {
        if (c as u32) < 0x10 {
            seq!['\\', 'u', '{', hex_digit((c as u32) as u8), '}']
        } else {
            seq![
                '\\',
                'u',
                '{',
                hex_digit(((c as u32) / 16) as u8),
                hex_digit(((c as u32) % 16) as u8),
                '}',
            ]
        }
    } else {
        seq![c]
    }
}

/// The escaped form of a character sequence: each character replaced by its
/// escaped form, in order.
pub open spec fn escape_chars(s: Seq<char>) -> Seq<char>
    decreases s.len(),
{
    if s.len() == 0 {
        seq![]
    } else {
        escape_char(s[0]) + escape_chars(s.drop_first())
    }
}

/// The quoted, escaped rendering of a character sequence.
pub open spec fn debug_chars(s: Seq<char>) -> Seq<char> {
    seq!['"'] + escape_chars(s) + seq!['"']
}

/// The lowercase hexadecimal digit for a value below 16.
fn hex_digit_exec(v: u8) -> (r: char)
    requires
        v < 16,
    ensures
        r == hex_digit(v),
{
    if v == 0 {
        '0'
    } else if v == 1 {
        '1'
    } else if v == 2 {
        '2'
    } else if v == 3 {
        '3'
    } else if v == 4 {
        '4'
    } else if v == 5 {
        '5'
    } else if v == 6 {
        '6'
    } else if v == 7 {
        '7'
    } else if v == 8 {
        '8'
    } else if v == 9 {
        '9'
    } else if v == 10 {
        'a'
    } else if v == 11 {
        'b'
    } else if v == 12 {
        'c'
    } else if v == 13 {
        'd'
    } else if v == 14 {
        'e'
    } else {
        'f'
    }
}

/// Appends the escaped form of `c` to `out`.
fn push_escaped(out: &mut String, c: char)
    ensures
        final(out)@ == old(out)@ + escape_char(c),
{
    if c == '"' {
        push_char(out, '\\');
        push_char(out, '"');
    } else if c == '\\' {
        push_char(out, '\\');
        push_char(out, '\\');
    } else if c == '\t' {
        push_char(out, '\\');
        push_char(out, 't');
    } else if c == '\r' {
        push_char(out, '\\');
        push_char(out, 'r');
    } else if c == '\n' {
        push_char(out, '\\');
        push_char(out, 'n');
    } else if c == '\0' {
        push_char(out, '\\');
        push_char(out, '0');
    } else {
        let v = c as u32;
        if v < 0x20 || v == 0x7F {
            push_char(out, '\\');
            push_char(out, 'u');
            push_char(out, '{');
            if v < 0x10 {
                push_char(out, hex_digit_exec(v as u8));
            } else {
                push_char(out, hex_digit_exec((v / 16) as u8));
                push_char(out, hex_digit_exec((v % 16) as u8));
            }
            push_char(out, '}');
        } else {
            push_char(out, c);
        }
    }
    proof {
        assert(out@ =~= old(out)@ + escape_char(c));
    }
}

/// Builds the quoted, escaped rendering of the lossy decoding of `bytes`.
pub fn escaped_lossy_string(bytes: &[u8]) -> (out: String)
    ensures
        out@ == debug_chars(lossy_decode(bytes@)),
{
    let n = bytes.len();
    let mut out = String::new();
    push_char(&mut out, '"');
    let mut i: usize = 0;
    proof {
        assert(bytes@.skip(0) =~= bytes@);
        assert(out@ =~= seq!['"']);
        assert(seq!['"'] + escape_chars(lossy_decode(bytes@)) =~= out@ + escape_chars(
            lossy_decode(bytes@),
        ));
    }
    while i < n
        invariant
            i <= n,
            n == bytes@.len(),
            seq!['"'] + escape_chars(lossy_decode(bytes@)) == out@ + escape_chars(
                lossy_decode(bytes@.skip(i as int)),
            ),
        decreases n - i,
    {
        let ghost tail = bytes@.skip(i as int);
        let (step, c) = crate::lossy::lossy_step(bytes, i);
        proof {
            assert(tail.skip(step as int) =~= bytes@.skip(i + step));
            let rest = lossy_decode(bytes@.skip(i + step));
            assert(lossy_decode(tail) == seq![c] + rest);
            assert((seq![c] + rest)[0] == c);
            assert((seq![c] + rest).drop_first() =~= rest);
            assert(escape_chars(lossy_decode(tail)) == escape_char(c) + escape_chars(rest));
            assert((out@ + escape_char(c)) + escape_chars(rest) =~= out@ + (escape_char(c)
                + escape_chars(rest)));
        }
        push_escaped(&mut out, c);
        i = i + step;
    }
    proof {
        assert(bytes@.skip(n as int) =~= Seq::<u8>::empty());
        assert(out@ + escape_chars(lossy_decode(Seq::<u8>::empty())) =~= out@);
    }
    push_char(&mut out, '"');
    proof {
        assert((seq!['"'] + escape_chars(lossy_decode(bytes@))).push('"') =~= debug_chars(
            lossy_decode(bytes@),
        ));
    }
    out
}

} // verus!
