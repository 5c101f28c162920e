//! What the library takes from std's Unicode tables, each under a name.
use vstd::prelude::*;

verus! {

/// Whether std counts a character beyond ASCII as upper case.
pub uninterp spec fn wide_is_upper(c: char) -> bool;

/// Whether std counts a character beyond ASCII as white space.
pub uninterp spec fn wide_is_space(c: char) -> bool;

/// Whether std counts a character beyond ASCII as a letter.
pub uninterp spec fn wide_is_alpha(c: char) -> bool;

/// Whether a character is an ASCII letter.
pub open spec fn ascii_letter(c: char) -> bool {
    ('a' <= c <= 'z') || ('A' <= c <= 'Z')
}

/// Whether a character is upper case.
pub open spec fn char_is_upper(c: char) -> bool {
    if c as int <= 127 {
        'A' <= c <= 'Z'
    } else {
        wide_is_upper(c)
    }
}

/// Whether a character is white space: in ASCII the blank, and what lies from the tab to the carriage
/// return.
pub open spec fn char_is_space(c: char) -> bool {
    if c as int <= 127 {
        c == ' ' || (9 <= c as int <= 13)
    } else {
        wide_is_space(c)
    }
}

/// Whether a character is a letter. White space is none.
pub open spec fn char_is_alpha(c: char) -> bool {
    if c as int <= 127 {
        ascii_letter(c)
    } else {
        wide_is_alpha(c) && !wide_is_space(c)
    }
}

/// The text that std's `Debug` writes for a text: in double quotes, with escapes.
pub uninterp spec fn debug_text(s: Seq<char>) -> Seq<char>;

/// The upper-case form that `str::to_uppercase` gives.
pub uninterp spec fn upper_text(s: Seq<char>) -> Seq<char>;

/// The lower-case form that `str::to_lowercase` gives.
pub uninterp spec fn lower_text(s: Seq<char>) -> Seq<char>;

/// `char::is_uppercase`: the capital letters in ASCII; beyond it, a function of the character alone.
pub assume_specification[ char::is_uppercase ](c: char) -> (r: bool)
    ensures
        r == (if c as int <= 127 {
            'A' <= c <= 'Z'
        } else {
            wide_is_upper(c)
        }),
;

/// `char::is_whitespace`: the blank and the controls from tab to carriage return in ASCII; beyond it,
/// a function of the character alone.
pub assume_specification[ char::is_whitespace ](c: char) -> (r: bool)
    ensures
        r == (if c as int <= 127 {
            c == ' ' || (9 <= c as int <= 13)
        } else {
            wide_is_space(c)
        }),
;

/// `char::is_alphabetic`: the letters in ASCII; beyond it, a function of the character alone, which
/// holds of no white space.
pub assume_specification[ char::is_alphabetic ](c: char) -> (r: bool)
    ensures
        r == (if c as int <= 127 {
            ascii_letter(c)
        } else {
            wide_is_alpha(c) && !wide_is_space(c)
        }),
;

/// `<str as Debug>::fmt`: the quoted, escaped form of a text.
#[verifier::external_body]
pub(crate) fn quoted(s: &str) -> (r: String)
    ensures
        r@ == debug_text(s@),
{
    format!("{:?}", s)
}

/// `str::to_uppercase`, a function of the text alone.
#[verifier::external_body]
pub(crate) fn uppercase(s: &str) -> (r: String)
    ensures
        r@ == upper_text(s@),
{
    s.to_uppercase()
}

/// `str::to_lowercase`, a function of the text alone.
#[verifier::external_body]
pub(crate) fn lowercase(s: &str) -> (r: String)
    ensures
        r@ == lower_text(s@),
{
    s.to_lowercase()
}

} // verus!
