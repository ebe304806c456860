//! The character properties and case mappings of the standard library,
//! and the five character classes that segmentation is built on.

use vstd::prelude::*;

verus! {

/// Whether the standard library counts `c` as alphabetic or numeric.
pub uninterp spec fn alphanumeric(c: char) -> bool;

/// Whether the standard library counts `c` as an uppercase character.
pub uninterp spec fn uppercase(c: char) -> bool;

/// Whether the standard library counts `c` as a lowercase character.
pub uninterp spec fn lowercase(c: char) -> bool;

/// Whether the standard library counts `c` as numeric.
pub uninterp spec fn numeric(c: char) -> bool;

/// The characters that the standard library's uppercase mapping gives for `c`.
pub uninterp spec fn upper_of(c: char) -> Seq<char>;

/// The characters that the standard library's lowercase mapping gives for `c`.
pub uninterp spec fn lower_of(c: char) -> Seq<char>;

/// Calls `char::is_alphanumeric`. The answer depends on `c` alone, and the
/// contract gives it the name `alphanumeric(c)`; nothing more is claimed.
#[verifier::external_body]
pub(crate) fn is_alphanumeric(c: char) -> (r: bool)
    ensures
        r == alphanumeric(c),
{
    c.is_alphanumeric()
}

/// Calls `char::is_uppercase`. The answer depends on `c` alone, and the
/// contract gives it the name `uppercase(c)`; nothing more is claimed.
#[verifier::external_body]
pub(crate) fn is_uppercase(c: char) -> (r: bool)
    ensures
        r == uppercase(c),
{
    c.is_uppercase()
}

/// Calls `char::is_lowercase`. The answer depends on `c` alone, and the
/// contract gives it the name `lowercase(c)`; nothing more is claimed.
#[verifier::external_body]
pub(crate) fn is_lowercase(c: char) -> (r: bool)
    ensures
        r == lowercase(c),
{
    c.is_lowercase()
}

/// Calls `char::is_numeric`. The answer depends on `c` alone, and the
/// contract gives it the name `numeric(c)`; nothing more is claimed.
#[verifier::external_body]
pub(crate) fn is_numeric(c: char) -> (r: bool)
    ensures
        r == numeric(c),
{
    c.is_numeric()
}

/// Calls `char::to_uppercase` and collects the characters it yields. They
/// depend on `c` alone, and the contract gives them the name `upper_of(c)`.
#[verifier::external_body]
pub(crate) fn to_uppercase(c: char) -> (r: String)
    ensures
        r@ == upper_of(c),
{
    c.to_uppercase().collect()
}

/// Calls `char::to_lowercase` and collects the characters it yields. They
/// depend on `c` alone, and the contract gives them the name `lower_of(c)`.
#[verifier::external_body]
pub(crate) fn to_lowercase(c: char) -> (r: String)
    ensures
        r@ == lower_of(c),
{
    c.to_lowercase().collect()
}

/// The class of a character, as far as word boundaries are concerned.
#[derive(Clone, Copy, Debug, PartialEq, Eq, Structural)]
pub enum CharClass {
    /// An uppercase letter.
    Uppercase,
    /// A lowercase letter.
    Lowercase,
    /// A digit.
    Digit,
    /// A character that is neither a letter nor a digit: it separates words
    /// and belongs to none.
    Separator,
    /// A letter without case.
    Other,
}

/// Whether `c` is one of the separators known by name: the space, the
/// underscore and the hyphen.
pub open spec fn named_separator(c: char) -> bool {
    c == ' ' || c == '_' || c == '-'
}

/// Whether `c` is a separator: one of those known by name, or any other
/// character that is neither a letter nor a digit.
pub open spec fn is_separator(c: char) -> bool {
    named_separator(c) || !alphanumeric(c)
}

/// The class of a character of which it is known whether it is
/// alphanumeric, uppercase, lowercase and numeric. Whether it is
/// alphanumeric is asked first, then its case, then whether it is numeric.
pub open spec fn class_by(alphanumeric: bool, uppercase: bool, lowercase: bool, numeric: bool) -> CharClass {
    if !alphanumeric {
        CharClass::Separator
    } else if uppercase {
        CharClass::Uppercase
    } else if lowercase {
        CharClass::Lowercase
    } else if numeric {
        CharClass::Digit
    } else {
        CharClass::Other
    }
}

/// The class of `c`: a separator where `c` is one by name, else what the
/// properties of `c` make it.
pub open spec fn class_of(c: char) -> CharClass {
    if named_separator(c) {
        CharClass::Separator
    } else {
        class_by(alphanumeric(c), uppercase(c), lowercase(c), numeric(c))
    }
}

/// Whether `k` is the class of a letter with case.
pub open spec fn is_cased(k: CharClass) -> bool {
    k == CharClass::Uppercase || k == CharClass::Lowercase
}

/// Decides the class of a character from its properties.
pub fn class_from(alphanumeric: bool, uppercase: bool, lowercase: bool, numeric: bool) -> (k: CharClass)
    ensures
        k == class_by(alphanumeric, uppercase, lowercase, numeric),
{
    if !alphanumeric {
        CharClass::Separator
    } else if uppercase {
        CharClass::Uppercase
    } else if lowercase {
        CharClass::Lowercase
    } else if numeric {
        CharClass::Digit
    } else {
        CharClass::Other
    }
}

/// Classifies one character.
pub fn classify(c: char) -> (k: CharClass)
    ensures
        k == class_of(c),
        k == CharClass::Separator <==> is_separator(c),
{
    if c == ' ' || c == '_' || c == '-' {
        CharClass::Separator
    } else {
        class_from(is_alphanumeric(c), is_uppercase(c), is_lowercase(c), is_numeric(c))
    }
}

} // verus!
