//! Character classes and the string operations of the standard library that
//! the rest of the crate builds on.
//!
//! The standard library answers three questions here by Unicode's tables:
//! whether a character is alphabetic, whether it is white space, and what the
//! lower case of a string is. Within ASCII all three are spelled out below;
//! for the rest each table has a name, and nothing is said of it but that the
//! standard library goes by it.

use vstd::prelude::*;

verus! {

/// Whether a character beyond ASCII has the Unicode property `Alphabetic`.
pub uninterp spec fn unicode_alphabetic(c: char) -> bool;

/// Whether a character beyond ASCII has the Unicode property `White_Space`.
pub uninterp spec fn unicode_white_space(c: char) -> bool;

/// The lower case, as Unicode defines it, of a text that is not all ASCII.
pub uninterp spec fn unicode_lowercase(s: Seq<char>) -> Seq<char>;

/// One of the 128 characters of ASCII.
pub open spec fn is_ascii_char(c: char) -> bool {
    c <= '\x7f'
}

/// An ASCII letter, of either case.
pub open spec fn is_ascii_letter(c: char) -> bool {
    ('a' <= c && c <= 'z') || ('A' <= c && c <= 'Z')
}

/// A letter: within ASCII the 52 letters, beyond it whatever Unicode calls
/// alphabetic.
pub open spec fn is_letter(c: char) -> bool {
    if is_ascii_char(c) {
        is_ascii_letter(c)
    } else {
        unicode_alphabetic(c)
    }
}

/// White space: within ASCII the space and the five controls from tab to
/// carriage return, beyond it whatever Unicode calls white space.
pub open spec fn is_space(c: char) -> bool {
    if is_ascii_char(c) {
        c == ' ' || ('\x09' <= c && c <= '\x0d')
    } else {
        unicode_white_space(c)
    }
}

/// A character with its ASCII capital, if it is one, turned into the small
/// letter; every other character as it is.
pub open spec fn ascii_lower(c: char) -> char {
    if 'A' <= c && c <= 'Z' {
        ((c as u32) + 32) as char
    } else {
        c
    }
}

/// A text made of ASCII characters alone.
pub open spec fn is_ascii_text(s: Seq<char>) -> bool {
    forall|i: int| 0 <= i < s.len() ==> is_ascii_char(#[trigger] s[i])
}

/// A text with each of its ASCII capitals turned into the small letter.
pub open spec fn ascii_lowercase(s: Seq<char>) -> Seq<char> {
    Seq::new(s.len(), |i: int| ascii_lower(s[i]))
}

/// The lower case of a text: of ASCII text its ASCII lower case, of any other
/// text whatever Unicode defines.
pub open spec fn lowercase(s: Seq<char>) -> Seq<char> {
    if is_ascii_text(s) {
        ascii_lowercase(s)
    } else {
        unicode_lowercase(s)
    }
}

/// The lower case of one character, which may be more than one character.
pub open spec fn lower(c: char) -> Seq<char> {
    lowercase(seq![c])
}

/// The lower case of an ASCII character is one character: the small letter
/// of a capital, and every other character itself.
pub proof fn lemma_lower_of_ascii(c: char)
    requires
        is_ascii_char(c),
    ensures
        lower(c) == seq![ascii_lower(c)],
{
    assert(is_ascii_text(seq![c]));
    assert(ascii_lowercase(seq![c]) =~= seq![ascii_lower(c)]);
}

/// `char::is_alphabetic` tells whether a character has Unicode's property
/// `Alphabetic`. Among the ASCII characters the letters have it and no other
/// does, which is what `is_letter` says; beyond ASCII the answer is the
/// table's, as the second clause says once more.
pub assume_specification[ char::is_alphabetic ](c: char) -> (b: bool)
    ensures
        b == is_letter(c),
        !is_ascii_char(c) ==> b == unicode_alphabetic(c),
;

/// `char::is_whitespace` tells whether a character has Unicode's property
/// `White_Space`. Among the ASCII characters the space and the five controls
/// from tab to carriage return have it and no other does, which is what
/// `is_space` says; beyond ASCII the answer is the table's, as the second
/// clause says once more.
pub assume_specification[ char::is_whitespace ](c: char) -> (b: bool)
    ensures
        b == is_space(c),
        !is_ascii_char(c) ==> b == unicode_white_space(c),
;

/// `char::to_ascii_lowercase` maps `A` to `Z` to `a` to `z` and every other
/// character to itself.
pub assume_specification[ char::to_ascii_lowercase ](c: &char) -> (small: char)
    ensures
        small == ascii_lower(*c),
;

/// `String::push` appends the character to the end of the string.
pub assume_specification[ String::push ](s: &mut String, c: char)
    ensures
        final(s)@ == old(s)@.push(c),
;

/// `str::to_lowercase` returns the lower case of the string as Unicode
/// defines it, which depends on the string alone. Of a string that is all
/// ASCII that is the string with its capitals turned into small letters,
/// which is what `lowercase` says; of any other string the answer is
/// Unicode's, as the second clause says once more.
pub assume_specification[ str::to_lowercase ](s: &str) -> (lowered: String)
    ensures
        lowered@ == lowercase(s@),
        !is_ascii_text(s@) ==> lowered@ == unicode_lowercase(s@),
;

} // verus!
