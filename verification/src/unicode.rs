//! Character-level facts and conversions which the rest of the crate builds on.
//!
//! Unicode properties (numeric, alphanumeric, alphabetic) and case mappings
//! come from the standard library's `char` methods. Their results on ASCII
//! characters are stated here; beyond ASCII they are named by spec functions
//! so that contracts elsewhere in the crate can speak of them. The whitespace
//! property, a short list of code points, is stated and checked here.

use vstd::prelude::*;

verus! {

/// What `char::is_numeric` reports for a character beyond ASCII (Unicode
/// general categories Nd, Nl, No).
pub uninterp spec fn non_ascii_numeric(c: char) -> bool;

/// What `char::is_alphanumeric` reports for a character beyond ASCII.
pub uninterp spec fn non_ascii_alphanumeric(c: char) -> bool;

/// What `char::is_alphabetic` reports for a character beyond ASCII (the
/// Unicode `Alphabetic` property).
pub uninterp spec fn non_ascii_alphabetic(c: char) -> bool;

/// Whether `c` is an ASCII letter.
pub open spec fn is_ascii_letter(c: char) -> bool {
    'a' <= c <= 'z' || 'A' <= c <= 'Z'
}

/// What `char::is_numeric` reports for `c`: among the ASCII characters
/// exactly the digits `0` to `9`.
pub open spec fn char_is_numeric(c: char) -> bool {
    if (c as u32) < 0x80 {
        '0' <= c <= '9'
    } else {
        non_ascii_numeric(c)
    }
}

/// What `char::is_alphanumeric` reports for `c`: among the ASCII characters
/// exactly the letters and digits.
pub open spec fn char_is_alphanumeric(c: char) -> bool {
    if (c as u32) < 0x80 {
        is_ascii_letter(c) || '0' <= c <= '9'
    } else {
        non_ascii_alphanumeric(c)
    }
}

/// What `char::is_alphabetic` reports for `c`: among the ASCII characters
/// exactly the letters.
pub open spec fn char_is_alphabetic(c: char) -> bool {
    if (c as u32) < 0x80 {
        is_ascii_letter(c)
    } else {
        non_ascii_alphabetic(c)
    }
}

/// Whether `c` has the Unicode `White_Space` property, which is what
/// `char::is_whitespace` reports: the 25 code points U+0009 to U+000D,
/// U+0020, U+0085, U+00A0, U+1680, U+2000 to U+200A, U+2028, U+2029,
/// U+202F, U+205F and U+3000.
pub open spec fn char_is_whitespace(c: char) -> bool {
    let u = c as u32;
    (0x09 <= u <= 0x0D) || u == 0x20 || u == 0x85 || u == 0xA0 || u == 0x1680 || (0x2000 <= u <= 0x200A)
        || u == 0x2028 || u == 0x2029 || u == 0x202F || u == 0x205F || u == 0x3000
}

/// The characters yielded by `char::to_lowercase` for `c`.
pub uninterp spec fn char_lowercase(c: char) -> Seq<char>;

/// The characters yielded by `char::to_uppercase` for `c`.
pub uninterp spec fn char_uppercase(c: char) -> Seq<char>;

/// Calls `char::is_numeric`; the result is the value of [`char_is_numeric`]:
/// among the ASCII characters exactly the digits `0` to `9` are numeric (no
/// other ASCII character is in a numeric general category), and beyond ASCII
/// the result is named by [`non_ascii_numeric`].
#[verifier::external_body]
pub(crate) fn is_numeric(c: char) -> (r: bool)
    ensures
        r == char_is_numeric(c),
        (c as u32) >= 0x80 ==> r == non_ascii_numeric(c),
{
    c.is_numeric()
}

/// Calls `char::is_alphanumeric`; the result is the value of
/// [`char_is_alphanumeric`]: among the ASCII characters exactly the letters
/// and digits are alphanumeric, and beyond ASCII the result is named by
/// [`non_ascii_alphanumeric`].
#[verifier::external_body]
pub(crate) fn is_alphanumeric(c: char) -> (r: bool)
    ensures
        r == char_is_alphanumeric(c),
        (c as u32) >= 0x80 ==> r == non_ascii_alphanumeric(c),
{
    c.is_alphanumeric()
}

/// Calls `char::is_alphabetic`; the result is the value of
/// [`char_is_alphabetic`]: among the ASCII characters exactly the letters are
/// alphabetic, and beyond ASCII the result is named by [`non_ascii_alphabetic`].
#[verifier::external_body]
pub(crate) fn is_alphabetic(c: char) -> (r: bool)
    ensures
        r == char_is_alphabetic(c),
        (c as u32) >= 0x80 ==> r == non_ascii_alphabetic(c),
{
    c.is_alphabetic()
}

/// Whether `c` has the Unicode `White_Space` property (see [`char_is_whitespace`]).
pub(crate) fn is_whitespace(c: char) -> (r: bool)
    ensures
        r == char_is_whitespace(c),
{
    let u = c as u32;
    (0x09 <= u && u <= 0x0D) || u == 0x20 || u == 0x85 || u == 0xA0 || u == 0x1680 || (0x2000 <= u && u <= 0x200A)
        || u == 0x2028 || u == 0x2029 || u == 0x202F || u == 0x205F || u == 0x3000
}

/// Collects the iterator returned by `char::to_lowercase`; the result is the
/// value of [`char_lowercase`]. An ASCII capital maps to its small letter and
/// every other ASCII character to itself.
#[verifier::external_body]
pub(crate) fn lowercase_of(c: char) -> (r: Vec<char>)
    ensures
        r@ == char_lowercase(c),
        'A' <= c <= 'Z' ==> r@ == seq![((c as u32) + 32) as char],
        ((c as u32) < 0x80 && !('A' <= c <= 'Z')) ==> r@ == seq![c],
{
    c.to_lowercase().collect()
}

/// Collects the iterator returned by `char::to_uppercase`; the result is the
/// value of [`char_uppercase`]. An ASCII small letter maps to its capital and
/// every other ASCII character to itself.
#[verifier::external_body]
pub(crate) fn uppercase_of(c: char) -> (r: Vec<char>)
    ensures
        r@ == char_uppercase(c),
        'a' <= c <= 'z' ==> r@ == seq![((c as u32) - 32) as char],
        ((c as u32) < 0x80 && !('a' <= c <= 'z')) ==> r@ == seq![c],
{
    c.to_uppercase().collect()
}

/// Builds a `String` from a vector of characters through `FromIterator`; the
/// string holds exactly those characters, in order.
#[verifier::external_body]
pub(crate) fn string_from_chars(v: &Vec<char>) -> (s: String)
    ensures
        s@ == v@,
{
    v.iter().collect()
}

/// The characters of `s`, in order.
pub fn chars_of(s: &str) -> (v: Vec<char>)
    ensures
        v@ == s@,
{
    let mut v: Vec<char> = Vec::new();
    for c in it: s.chars()
        invariant
            v@ == it.seq().take(it.index()),
    {
        v.push(c);
    }
    v
}

/// The characters of `v` in the half-open range `from..to`, as a `String`.
pub fn string_of_range(v: &Vec<char>, from: usize, to: usize) -> (s: String)
    requires
        from <= to <= v.len(),
    ensures
        s@ == v@.subrange(from as int, to as int),
{
    let mut part: Vec<char> = Vec::new();
    let mut i = from;
    while i < to
        invariant
            from <= i <= to <= v.len(),
            part@ == v@.subrange(from as int, i as int),
        decreases to - i,
    {
        part.push(v[i]);
        i += 1;
    }
    string_from_chars(&part)
}

/// Appends every character of `v` to `out`.
pub fn append_chars(out: &mut Vec<char>, v: &Vec<char>)
    ensures
        final(out)@ == old(out)@ + v@,
{
    let mut i: usize = 0;
    while i < v.len()
        invariant
            0 <= i <= v.len(),
            out@ == old(out)@ + v@.take(i as int),
        decreases v.len() - i,
    {
        out.push(v[i]);
        i += 1;
        proof {
            assert(v@.take(i as int) == v@.take(i - 1).push(v@[i - 1]));
        }
    }
    proof {
        assert(v@.take(v.len() as int) == v@);
    }
}

/// The number of bytes in the UTF-8 encoding of `c`, as `char::len_utf8` documents it.
pub open spec fn utf8_len(c: char) -> nat {
    if (c as u32) < 0x80 {
        1
    } else if (c as u32) < 0x800 {
        2
    } else if (c as u32) < 0x10000 {
        3
    } else {
        4
    }
}

/// The number of bytes in the UTF-8 encoding of the characters `s`.
pub open spec fn utf8_len_of(s: Seq<char>) -> nat
    decreases s.len(),
{
    if s.len() == 0 {
        0
    } else {
        utf8_len_of(s.drop_last()) + utf8_len(s.last())
    }
}

/// The number of bytes in the UTF-8 encoding of `c`.
pub fn char_utf8_len(c: char) -> (n: usize)
    ensures
        n == utf8_len(c),
{
    let code: u32 = c as u32;
    if code < 0x80 {
        1
    } else if code < 0x800 {
        2
    } else if code < 0x10000 {
        3
    } else {
        4
    }
}

/// The byte length of a prefix grows with the prefix.
pub proof fn lemma_utf8_len_of_take_step(s: Seq<char>, i: int)
    requires
        0 <= i < s.len(),
    ensures
        utf8_len_of(s.take(i + 1)) == utf8_len_of(s.take(i)) + utf8_len(s[i]),
{
    assert(s.take(i + 1).drop_last() == s.take(i));
}

/// The byte length of a prefix never exceeds that of the whole sequence.
pub proof fn lemma_utf8_len_of_take_le(s: Seq<char>, i: int)
    requires
        0 <= i <= s.len(),
    ensures
        utf8_len_of(s.take(i)) <= utf8_len_of(s),
    decreases s.len() - i,
{
    if i < s.len() {
        lemma_utf8_len_of_take_step(s, i);
        lemma_utf8_len_of_take_le(s, i + 1);
    } else {
        assert(s.take(i) == s);
    }
}

/// Applying `f` to each element and concatenating the results, one more element at a time.
pub proof fn lemma_map_flatten_step<A, B>(s: Seq<A>, f: spec_fn(A) -> Seq<B>, i: int)
    requires
        0 <= i < s.len(),
    ensures
        s.take(i + 1).map_values(f).flatten() == s.take(i).map_values(f).flatten() + f(s[i]),
{
    assert(s.take(i + 1).map_values(f) == s.take(i).map_values(f).push(f(s[i])));
    s.take(i).map_values(f).lemma_flatten_push(f(s[i]));
}

} // verus!
