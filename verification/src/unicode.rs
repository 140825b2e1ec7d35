//! The parts of the Unicode tables in std that the library relies on.

use vstd::prelude::*;
use vstd::utf8::is_ascii_chars;

verus! {

/// Whether `c` is one of the 128 ASCII characters.
pub open spec fn is_ascii_char(c: char) -> bool {
    c <= '\u{7f}'
}

/// The lowercase form of an ASCII character.
pub open spec fn ascii_lower(c: char) -> char {
    if 'A' <= c <= 'Z' {
        (c as u32 + 32) as char
    } else {
        c
    }
}

/// The lowercase form of an ASCII text, character by character.
pub open spec fn ascii_lowercase(text: Seq<char>) -> Seq<char> {
    Seq::new(text.len(), |i: int| ascii_lower(text[i]))
}

/// What `str::to_lowercase` returns for a text that is not all ASCII.
pub uninterp spec fn unicode_lowercase(text: Seq<char>) -> Seq<char>;

/// The lowercase form of a text.
pub open spec fn lowercase(text: Seq<char>) -> Seq<char> {
    if is_ascii_chars(text) {
        ascii_lowercase(text)
    } else {
        unicode_lowercase(text)
    }
}

/// `str::to_lowercase` maps an ASCII text character by character; what the
/// Unicode tables make of any other text is only given a name.
pub assume_specification[ str::to_lowercase ](s: &str) -> (r: String)
    ensures
        is_ascii_chars(s@) ==> r@ == ascii_lowercase(s@),
        !is_ascii_chars(s@) ==> r@ == unicode_lowercase(s@),
;

/// What `char::is_whitespace` returns for a character outside ASCII.
pub uninterp spec fn unicode_whitespace(c: char) -> bool;

/// Whether `c` is white space: in ASCII the space and U+0009 to U+000D.
pub open spec fn is_white(c: char) -> bool {
    if is_ascii_char(c) {
        c == ' ' || '\u{9}' <= c <= '\u{d}'
    } else {
        unicode_whitespace(c)
    }
}

/// `char::is_whitespace` is the Unicode property `White_Space`: spelled out for
/// ASCII, named for the other characters.
pub assume_specification[ char::is_whitespace ](c: char) -> (r: bool)
    ensures
        is_ascii_char(c) ==> r == (c == ' ' || '\u{9}' <= c <= '\u{d}'),
        !is_ascii_char(c) ==> r == unicode_whitespace(c),
;

/// What `char::is_alphabetic` returns for a character outside ASCII.
pub uninterp spec fn unicode_alphabetic(c: char) -> bool;

/// Whether `c` is a letter: in ASCII `A` to `Z` and `a` to `z`.
pub open spec fn is_letter(c: char) -> bool {
    if is_ascii_char(c) {
        'A' <= c <= 'Z' || 'a' <= c <= 'z'
    } else {
        unicode_alphabetic(c)
    }
}

/// `char::is_alphabetic` is the Unicode property `Alphabetic`: spelled out for
/// ASCII, named for the other characters.
pub assume_specification[ char::is_alphabetic ](c: char) -> (r: bool)
    ensures
        is_ascii_char(c) ==> r == ('A' <= c <= 'Z' || 'a' <= c <= 'z'),
        !is_ascii_char(c) ==> r == unicode_alphabetic(c),
;

/// `String::push` appends one character.
pub assume_specification[ String::push ](s: &mut String, c: char)
    ensures
        final(s)@ == old(s)@.push(c),
;

/// `String::pop` takes the last character off, if there is one.
pub assume_specification[ String::pop ](s: &mut String) -> (r: Option<char>)
    ensures
        old(s)@.len() == 0 ==> r is None && final(s)@ == old(s)@,
        old(s)@.len() > 0 ==> r == Some(old(s)@.last()) && final(s)@ == old(s)@.drop_last(),
;

/// The lowercase form of a text.
pub fn to_lower(s: &str) -> (r: String)
    ensures
        r@ == lowercase(s@),
{
    s.to_lowercase()
}

} // verus!
