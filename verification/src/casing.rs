//! Simple case mappings: the characters on which converting to Title Case
//! twice gives what converting once gives, and a way to find out whether a
//! text holds such characters only.

use vstd::prelude::*;
use vstd::string::StrSliceExecFns;
use vstd::std_specs::iter::IteratorSpec;
use crate::title::{capitalized_words, join_spaced, title_of, upper_forms_nonempty};
use crate::title_laws::{title_case_is_idempotent, title_is_capitalized_words_joined};
use crate::unicode::{
    CharClass, class_of, classify, is_cased, is_separator, lower_of, to_lowercase, to_uppercase,
    upper_of,
};

verus! {

/// Whether the case mappings are simple on `c`: each form of `c` is one
/// character, which a second mapping of the same kind leaves as it is; a
/// letter with case has an uppercase letter as its uppercase form and a
/// lowercase letter as its lowercase form, and any other character keeps its
/// class in both forms.
pub open spec fn cases_simply(c: char) -> bool {
    let upper = upper_of(c).first();
    let lower = lower_of(c).first();
    &&& upper_of(c) == seq![upper]
    &&& lower_of(c) == seq![lower]
    &&& upper_of(upper) == seq![upper]
    &&& lower_of(lower) == seq![lower]
    &&& class_of(upper) == if is_cased(class_of(c)) {
        CharClass::Uppercase
    } else {
        class_of(c)
    }
    &&& class_of(lower) == if is_cased(class_of(c)) {
        CharClass::Lowercase
    } else {
        class_of(c)
    }
}

/// Whether the case mappings are simple on every character of `s` outside
/// the separators.
pub open spec fn simple_casing(s: Seq<char>) -> bool {
    forall|i: int| 0 <= i < s.len() && !is_separator(s[i]) ==> cases_simply(#[trigger] s[i])
}

/// Tells whether `text` is the one character `c`.
fn is_just(text: &str, c: char) -> (r: bool)
    ensures
        r == (text@ == seq![c]),
{
    if text.unicode_len() == 1 {
        let only = text.get_char(0);
        assert(text@ =~= seq![only]);
        only == c
    } else {
        false
    }
}

/// Tells whether the case mappings are simple on `c`.
pub fn maps_simply(c: char) -> (r: bool)
    ensures
        r == cases_simply(c),
{
    let upper_form = to_uppercase(c);
    let lower_form = to_lowercase(c);
    if upper_form.as_str().unicode_len() != 1 || lower_form.as_str().unicode_len() != 1 {
        return false;
    }
    let upper = upper_form.as_str().get_char(0);
    let lower = lower_form.as_str().get_char(0);
    assert(upper_of(c) =~= seq![upper]);
    assert(lower_of(c) =~= seq![lower]);
    let class = classify(c);
    let cased = class == CharClass::Uppercase || class == CharClass::Lowercase;
    let upper_class = if cased {
        CharClass::Uppercase
    } else {
        class
    };
    let lower_class = if cased {
        CharClass::Lowercase
    } else {
        class
    };
    let upper_again = to_uppercase(upper);
    let lower_again = to_lowercase(lower);
    is_just(upper_again.as_str(), upper) && is_just(lower_again.as_str(), lower) && classify(upper)
        == upper_class && classify(lower) == lower_class
}

/// Tells whether the case mappings are simple on every character of `s`
/// outside the separators. Where they are, the Title Case form of `s` is its
/// capitalized words joined by single spaces, and converting `s` twice gives
/// what converting it once gives.
pub fn has_simple_casing(s: &str) -> (r: bool)
    ensures
        r == simple_casing(s@),
        r ==> title_of(s@) == join_spaced(capitalized_words(s@)),
        r ==> title_of(title_of(s@)) == title_of(s@),
{
    let mut rest = s.chars();
    let ghost mut i: int = 0;
    loop
        invariant
            0 <= i <= s@.len(),
            rest.obeys_prophetic_iter_laws(),
            rest.remaining() == s@.subrange(i, s@.len() as int),
            forall|j: int| 0 <= j < i && !is_separator(s@[j]) ==> cases_simply(#[trigger] s@[j]),
        ensures
            i == s@.len(),
        decreases s@.len() - i,
    {
        match rest.next() {
            None => {
                break;
            },
            Some(c) => {
                if classify(c) != CharClass::Separator && !maps_simply(c) {
                    return false;
                }
                proof {
                    i = i + 1;
                }
            },
        }
    }
    proof {
        assert(upper_forms_nonempty(s@));
        title_is_capitalized_words_joined(s@);
        title_case_is_idempotent(s@);
    }
    true
}

} // verus!
