//! Character helpers: whitespace written out from the Unicode list, and
//! named results for std's case mapping and alphabetic test.

use vstd::prelude::*;

verus! {

/// The White_Space characters, written out: this is the set that std's
/// whitespace test accepts.
pub open spec fn is_space_char(c: char) -> bool {
    ||| c == ' '
    ||| c == '\u{9}'
    ||| c == '\n'
    ||| c == '\u{b}'
    ||| c == '\u{c}'
    ||| c == '\r'
    ||| c == '\u{85}'
    ||| c == '\u{a0}'
    ||| c == '\u{1680}'
    ||| c == '\u{2000}'
    ||| c == '\u{2001}'
    ||| c == '\u{2002}'
    ||| c == '\u{2003}'
    ||| c == '\u{2004}'
    ||| c == '\u{2005}'
    ||| c == '\u{2006}'
    ||| c == '\u{2007}'
    ||| c == '\u{2008}'
    ||| c == '\u{2009}'
    ||| c == '\u{200a}'
    ||| c == '\u{2028}'
    ||| c == '\u{2029}'
    ||| c == '\u{202f}'
    ||| c == '\u{205f}'
    ||| c == '\u{3000}'
}

/// Whitespace test over the written-out set.
pub fn char_is_space(c: char) -> (r: bool)
    ensures
        r == is_space_char(c),
{
    c == ' ' || c == '\u{9}' || c == '\n' || c == '\u{b}' || c == '\u{c}' || c == '\r' || c
        == '\u{85}' || c == '\u{a0}' || c == '\u{1680}' || c == '\u{2000}' || c == '\u{2001}' || c
        == '\u{2002}' || c == '\u{2003}' || c == '\u{2004}' || c == '\u{2005}' || c == '\u{2006}'
        || c == '\u{2007}' || c == '\u{2008}' || c == '\u{2009}' || c == '\u{200a}' || c
        == '\u{2028}' || c == '\u{2029}' || c == '\u{202f}' || c == '\u{205f}' || c == '\u{3000}'
}

/// The lowercase mapping of a character: one or more characters,
/// depending on the character alone.
pub uninterp spec fn lower_chars_of(c: char) -> Seq<char>;

/// The uppercase mapping of a character: one or more characters,
/// depending on the character alone.
pub uninterp spec fn upper_chars_of(c: char) -> Seq<char>;

/// Whether a character is alphabetic, depending on the character alone.
pub uninterp spec fn is_alpha_char(c: char) -> bool;

/// Relies on char::to_lowercase: yields the lowercase mapping, at least
/// one character (a character with no mapping yields itself).
#[verifier::external_body]
pub fn char_to_lowercase(c: char) -> (r: Vec<char>)
    ensures
        r@ == lower_chars_of(c),
        r@.len() >= 1,
{
    c.to_lowercase().collect()
}

/// Relies on char::to_uppercase: yields the uppercase mapping, at least
/// one character (a character with no mapping yields itself).
#[verifier::external_body]
pub fn char_to_uppercase(c: char) -> (r: Vec<char>)
    ensures
        r@ == upper_chars_of(c),
        r@.len() >= 1,
{
    c.to_uppercase().collect()
}

/// Relies on char::is_alphabetic.
#[verifier::external_body]
pub fn char_is_alphabetic(c: char) -> (r: bool)
    ensures
        r == is_alpha_char(c),
{
    c.is_alphabetic()
}

} // verus!
