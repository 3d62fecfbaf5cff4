//! Classification of characters, as the lexer needs it.

use vstd::prelude::*;

verus! {

/// Whether `c` has the Unicode `White_Space` property (what `char::is_whitespace` reports).
pub uninterp spec fn unicode_white_space(c: char) -> bool;

/// Whether `c` has the Unicode `Alphabetic` property (what `char::is_alphabetic` reports).
pub uninterp spec fn unicode_alphabetic(c: char) -> bool;

/// Whether `c` is in one of the Unicode number categories (what `char::is_numeric` reports).
pub uninterp spec fn unicode_numeric(c: char) -> bool;

/// An ASCII decimal digit, `'0'..='9'`.
pub open spec fn spec_ascii_digit(c: char) -> bool {
    '0' <= c <= '9'
}

/// An ASCII hexadecimal digit, `'0'..='9'`, `'a'..='f'` or `'A'..='F'`.
pub open spec fn spec_ascii_hexdigit(c: char) -> bool {
    ||| '0' <= c <= '9'
    ||| 'a' <= c <= 'f'
    ||| 'A' <= c <= 'F'
}

/// A character that may continue an identifier.
pub open spec fn spec_ident_char(c: char) -> bool {
    unicode_alphabetic(c) || unicode_numeric(c) || c == '_'
}

/// A character that may start an identifier.
pub open spec fn spec_ident_start(c: char) -> bool {
    unicode_alphabetic(c) || c == '_'
}

/// The number of bytes of the UTF-8 encoding of `c`, by the ranges of code points.
pub open spec fn spec_len_utf8(c: char) -> nat {
    if (c as u32) < 0x80 {
        1
    } else if (c as u32) < 0x800 {
        2
    } else if (c as u32) < 0x10000 {
        3
    } else {
        4
    }
}

/// The number of bytes of the UTF-8 encoding of a sequence of characters.
pub open spec fn spec_utf8_len(s: Seq<char>) -> nat
    decreases s.len(),
{
    if s.len() == 0 {
        0
    } else {
        spec_utf8_len(s.drop_last()) + spec_len_utf8(s.last())
    }
}

/// Calls `char::is_whitespace`. Its documentation defines the result as the Unicode
/// `White_Space` property, which is named here and not spelled out; of single
/// characters it shows that a space, a line feed and a no-break space have it, and
/// U+8D8A does not.
#[verifier::external_body]
pub fn is_whitespace(c: char) -> (r: bool)
    ensures
        r == unicode_white_space(c),
        (c == ' ' || c == '\n' || c == '\u{A0}') ==> r,
        c == '\u{8D8A}' ==> !r,
{
    c.is_whitespace()
}

/// Calls `char::is_alphabetic`. Its documentation defines the result as the Unicode
/// `Alphabetic` property, which is named here and not spelled out; of single
/// characters it shows that `a` and U+4EAC have it, and U+1F49D does not.
#[verifier::external_body]
pub fn is_alphabetic(c: char) -> (r: bool)
    ensures
        r == unicode_alphabetic(c),
        (c == 'a' || c == '\u{4EAC}') ==> r,
        c == '\u{1F49D}' ==> !r,
{
    c.is_alphabetic()
}

/// Calls `char::is_alphanumeric`, documented as `is_alphabetic() || is_numeric()`; the
/// two Unicode properties are named, not spelled out.
#[verifier::external_body]
pub fn is_alphanumeric(c: char) -> (r: bool)
    ensures
        r == (unicode_alphabetic(c) || unicode_numeric(c)),
{
    c.is_alphanumeric()
}

/// Whether `c` is an ASCII decimal digit, as `char::is_ascii_digit` tells.
pub fn is_ascii_digit(c: char) -> (r: bool)
    ensures
        r == spec_ascii_digit(c),
{
    '0' <= c && c <= '9'
}

/// Whether `c` is an ASCII hexadecimal digit, as `char::is_ascii_hexdigit` tells.
pub fn is_ascii_hexdigit(c: char) -> (r: bool)
    ensures
        r == spec_ascii_hexdigit(c),
{
    ('0' <= c && c <= '9') || ('a' <= c && c <= 'f') || ('A' <= c && c <= 'F')
}

/// The number of bytes of the UTF-8 encoding of `c`, as `char::len_utf8` gives it.
pub fn len_utf8(c: char) -> (r: usize)
    ensures
        r == spec_len_utf8(c),
{
    let v = c as u32;
    if v < 0x80 {
        1
    } else if v < 0x800 {
        2
    } else if v < 0x10000 {
        3
    } else {
        4
    }
}

} // verus!

verus! {

/// The UTF-8 length of a sequence grows by the length of each character appended.
pub proof fn lemma_utf8_len_push(s: Seq<char>, c: char)
    ensures
        spec_utf8_len(s.push(c)) == spec_utf8_len(s) + spec_len_utf8(c),
{
    assert(s.push(c).drop_last() =~= s);
}

/// The UTF-8 length of the prefixes of a sequence strictly increases with their length.
pub proof fn lemma_utf8_len_prefix_strict(s: Seq<char>, i: int, j: int)
    requires
        0 <= i < j <= s.len(),
    ensures
        spec_utf8_len(s.take(i)) < spec_utf8_len(s.take(j)),
    decreases j - i,
{
    assert(s.take(j).drop_last() =~= s.take(j - 1));
    if i < j - 1 {
        lemma_utf8_len_prefix_strict(s, i, j - 1);
    }
}

/// The UTF-8 length of a concatenation is the sum of the lengths.
pub proof fn lemma_utf8_len_concat(s: Seq<char>, t: Seq<char>)
    ensures
        spec_utf8_len(s + t) == spec_utf8_len(s) + spec_utf8_len(t),
    decreases t.len(),
{
    if t.len() > 0 {
        assert((s + t).drop_last() =~= s + t.drop_last());
        lemma_utf8_len_concat(s, t.drop_last());
    } else {
        assert(s + t =~= s);
    }
}

/// A run of a sequence is no longer in UTF-8 than the whole sequence.
pub proof fn lemma_utf8_len_subrange(s: Seq<char>, i: int, j: int)
    requires
        0 <= i <= j <= s.len(),
    ensures
        spec_utf8_len(s.subrange(i, j)) <= spec_utf8_len(s),
{
    assert(s =~= s.subrange(0, i) + s.subrange(i, j) + s.subrange(j, s.len() as int));
    lemma_utf8_len_concat(s.subrange(0, i) + s.subrange(i, j), s.subrange(j, s.len() as int));
    lemma_utf8_len_concat(s.subrange(0, i), s.subrange(i, j));
}

/// Characters below U+0080 take one byte each.
pub proof fn lemma_utf8_len_ascii(s: Seq<char>)
    requires
        forall|k: int| 0 <= k < s.len() ==> (#[trigger] s[k] as u32) < 0x80,
    ensures
        spec_utf8_len(s) == s.len(),
    decreases s.len(),
{
    if s.len() > 0 {
        lemma_utf8_len_ascii(s.drop_last());
    }
}

} // verus!
