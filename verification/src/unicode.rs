//! Character classification.
//!
//! Every directional decision in this crate reduces to one question about a
//! character: is it whitespace, punctuation, or alphanumeric? The three
//! classes are totally ordered (whitespace < punctuation < alphanumeric), so
//! "is this a word boundary, and in which direction" is a single class
//! comparison.
//!
//! The classes come from the standard Unicode predicates on `char`. Those
//! predicates are table lookups that depend on the character alone; this
//! module gives each one a specification that is exact on ASCII and on the
//! typographic glyphs this crate itself emits, and defers to an
//! uninterpreted function everywhere else.

use vstd::prelude::*;

verus! {

/// Names the Unicode `Alphabetic` property for characters this crate does
/// not pin down itself.
pub uninterp spec fn unicode_alphabetic(c: char) -> bool;

/// Names the Unicode numeric property (`Nd`, `Nl`, `No`) for characters this
/// crate does not pin down itself.
pub uninterp spec fn unicode_numeric(c: char) -> bool;

/// Names the Unicode `White_Space` property for characters this crate does
/// not pin down itself.
pub uninterp spec fn unicode_white(c: char) -> bool;

/// Names the Unicode `Uppercase` property for characters this crate does not
/// pin down itself.
pub uninterp spec fn unicode_uppercase(c: char) -> bool;

/// Names the Unicode `Lowercase` property for characters this crate does not
/// pin down itself.
pub uninterp spec fn unicode_lowercase(c: char) -> bool;

/// The non-ASCII characters that this crate's transforms emit or branch on.
/// Their classes are pinned exactly so that facts about a transform's output
/// (for instance, that a curly quote is punctuation) are available in proofs.
pub open spec fn pinned_glyph(c: char) -> bool {
    ||| c == '\u{a0}'    // no-break space
    ||| c == '\u{202f}'  // narrow no-break space
    ||| c == '\u{2002}'  // en space
    ||| c == '\u{ab}'    // opening guillemet
    ||| c == '\u{bb}'    // closing guillemet
    ||| c == '\u{2013}'  // en dash
    ||| c == '\u{2014}'  // em dash
    ||| c == '\u{2018}'  // opening single quote
    ||| c == '\u{2019}'  // closing single quote
    ||| c == '\u{201c}'  // opening double quote
    ||| c == '\u{201d}'  // closing double quote
    ||| c == '\u{2026}'  // ellipsis
}

/// Of the pinned glyphs, exactly the three spacing characters are whitespace;
/// the rest are punctuation.
pub open spec fn pinned_glyph_white(c: char) -> bool {
    c == '\u{a0}' || c == '\u{202f}' || c == '\u{2002}'
}

/// What `char::is_alphabetic` returns: ASCII letters, no glyph of
/// [`pinned_glyph`], and otherwise the Unicode `Alphabetic` property.
pub open spec fn spec_alphabetic(c: char) -> bool {
    if (c as u32) < 128 {
        ('a' as u32) <= (c as u32) <= ('z' as u32) || ('A' as u32) <= (c as u32) <= ('Z' as u32)
    } else if pinned_glyph(c) {
        false
    } else {
        unicode_alphabetic(c)
    }
}

/// What `char::is_alphanumeric` returns: a character is alphanumeric when it
/// is alphabetic or numeric.
pub open spec fn spec_alphanumeric(c: char) -> bool {
    if (c as u32) < 128 {
        spec_alphabetic(c) || ('0' as u32) <= (c as u32) <= ('9' as u32)
    } else if pinned_glyph(c) {
        false
    } else {
        unicode_alphabetic(c) || unicode_numeric(c)
    }
}

/// What `char::is_whitespace` returns. Beyond ASCII and the pinned glyphs it
/// defers to the Unicode `White_Space` property, which is disjoint from the
/// alphabetic, numeric and cased properties.
pub open spec fn spec_white(c: char) -> bool {
    if (c as u32) < 128 {
        c == ' ' || c == '\t' || c == '\n' || c == '\u{b}' || c == '\u{c}' || c == '\r'
    } else if pinned_glyph(c) {
        pinned_glyph_white(c)
    } else {
        unicode_white(c) && !unicode_alphabetic(c) && !unicode_numeric(c)
            && !unicode_uppercase(c) && !unicode_lowercase(c)
    }
}

/// What `char::is_uppercase` returns.
pub open spec fn spec_uppercase(c: char) -> bool {
    if (c as u32) < 128 {
        ('A' as u32) <= (c as u32) <= ('Z' as u32)
    } else if pinned_glyph(c) {
        false
    } else {
        unicode_uppercase(c)
    }
}

/// What `char::is_lowercase` returns.
pub open spec fn spec_lowercase(c: char) -> bool {
    if (c as u32) < 128 {
        ('a' as u32) <= (c as u32) <= ('z' as u32)
    } else if pinned_glyph(c) {
        false
    } else {
        unicode_lowercase(c)
    }
}

/// Relies on `char::is_alphabetic`: true exactly for characters with the
/// Unicode `Alphabetic` property; on ASCII these are the letters, and none
/// of the typographic glyphs this crate emits is alphabetic.
pub assume_specification[ char::is_alphabetic ](c: char) -> (r: bool)
    ensures
        r == spec_alphabetic(c),
        (c as u32) >= 128 && !pinned_glyph(c) ==> r == unicode_alphabetic(c),
;

/// Relies on `char::is_alphanumeric`: true exactly for alphabetic or numeric
/// characters; on ASCII these are the letters and digits, and none of the
/// typographic glyphs this crate emits is alphanumeric.
pub assume_specification[ char::is_alphanumeric ](c: char) -> (r: bool)
    ensures
        r == spec_alphanumeric(c),
        (c as u32) >= 128 && !pinned_glyph(c) ==> r == (unicode_alphabetic(c)
            || unicode_numeric(c)),
;

/// Relies on `char::is_whitespace`: true exactly for characters with the
/// Unicode `White_Space` property, which contains the ASCII spacing
/// characters and, of this crate's glyphs, exactly the no-break spaces, and
/// which is disjoint from the alphabetic, numeric and cased properties.
pub assume_specification[ std::primitive::char::is_whitespace ](c: char) -> (r: bool)
    ensures
        r == spec_white(c),
        (c as u32) >= 128 && !pinned_glyph(c) ==> r == (unicode_white(c)
            && !unicode_alphabetic(c) && !unicode_numeric(c)
            && !unicode_uppercase(c) && !unicode_lowercase(c)),
;

/// Relies on `char::is_uppercase`: true exactly for characters with the
/// Unicode `Uppercase` property; on ASCII these are `A` to `Z`, and none of
/// the typographic glyphs this crate emits is uppercase.
pub assume_specification[ char::is_uppercase ](c: char) -> (r: bool)
    ensures
        r == spec_uppercase(c),
        (c as u32) >= 128 && !pinned_glyph(c) ==> r == unicode_uppercase(c),
;

/// Relies on `char::is_lowercase`: true exactly for characters with the
/// Unicode `Lowercase` property; on ASCII these are `a` to `z`, and none of
/// the typographic glyphs this crate emits is lowercase.
pub assume_specification[ char::is_lowercase ](c: char) -> (r: bool)
    ensures
        r == spec_lowercase(c),
        (c as u32) >= 128 && !pinned_glyph(c) ==> r == unicode_lowercase(c),
;

/// Class of a character. The ordering whitespace < punctuation <
/// alphanumeric drives every directional decision downstream.
#[derive(Debug, Clone, Copy, PartialEq, Eq, Structural)]
pub enum CharClass {
    Whitespace,
    Punctuation,
    Alphanumeric,
}

/// Rank of a class under the ordering whitespace < punctuation <
/// alphanumeric.
pub open spec fn class_rank(k: CharClass) -> int {
    match k {
        CharClass::Whitespace => 0,
        CharClass::Punctuation => 1,
        CharClass::Alphanumeric => 2,
    }
}

/// Class of a character: alphanumeric by the Unicode alphanumeric
/// definition, whitespace by the Unicode whitespace definition, punctuation
/// otherwise.
pub open spec fn spec_char_class(c: char) -> CharClass {
    if spec_alphanumeric(c) {
        CharClass::Alphanumeric
    } else if spec_white(c) {
        CharClass::Whitespace
    } else {
        CharClass::Punctuation
    }
}

/// Get class of a character.
pub fn char_class(c: char) -> (r: CharClass)
    ensures
        r == spec_char_class(c),
{
    if c.is_alphanumeric() {
        CharClass::Alphanumeric
    } else if c.is_whitespace() {
        CharClass::Whitespace
    } else {
        CharClass::Punctuation
    }
}

/// True when `a` is strictly below `b` in the class ordering.
pub fn class_lt(a: CharClass, b: CharClass) -> (r: bool)
    ensures
        r == (class_rank(a) < class_rank(b)),
{
    match a {
        CharClass::Whitespace => !matches!(b, CharClass::Whitespace),
        CharClass::Punctuation => matches!(b, CharClass::Alphanumeric),
        CharClass::Alphanumeric => false,
    }
}

/// What `char::is_digit(10)` returns; stated directly, the decimal digits.
pub open spec fn spec_digit(c: char) -> bool {
    ('0' as u32) <= (c as u32) <= ('9' as u32)
}

/// True exactly on the decimal digits `0` to `9`.
pub fn is_digit_char(c: char) -> (r: bool)
    ensures
        r == spec_digit(c),
{
    let u = c as u32;
    ('0' as u32) <= u && u <= ('9' as u32)
}

} // verus!
