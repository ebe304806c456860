//! Title Case: every word with an initial capital, the words parted by
//! single spaces.

use vstd::prelude::*;
use vstd::string::StringExecFns;
use crate::segment::words;
use crate::transform::{Policy, render_words, transform};
use crate::title_laws::title_is_capitalized_words_joined;
use crate::unicode::{is_separator, lower_of, to_lowercase, to_uppercase, upper_of};

verus! {

/// The convention of Title Case.
pub struct TitlePolicy;

impl Policy for TitlePolicy {
    /// A space, unless nothing has been written yet, and then the uppercase
    /// form of the word's first character.
    open spec fn after_boundary(&self, first: char, out: Seq<char>) -> Seq<char> {
        if out.len() > 0 {
            out.push(' ') + upper_of(first)
        } else {
            upper_of(first)
        }
    }

    /// The lowercase form of the character; the uppercase form where nothing
    /// has been written yet.
    open spec fn after_char(&self, c: char, out: Seq<char>) -> Seq<char> {
        if out.len() > 0 {
            out + lower_of(c)
        } else {
            upper_of(c)
        }
    }

    fn boundary(&self, first: char, out: &mut String) {
        if !out.as_str().is_empty() {
            proof {
                reveal_strlit(" ");
            }
            out.append(" ");
        }
        let upper = to_uppercase(first);
        out.append(upper.as_str());
    }

    fn character(&self, c: char, out: &mut String) {
        let form = if out.as_str().is_empty() {
            to_uppercase(c)
        } else {
            to_lowercase(c)
        };
        out.append(form.as_str());
    }
}

/// The characters of `w`, each in its lowercase form.
pub open spec fn lowered(w: Seq<char>) -> Seq<char>
    decreases w.len(),
{
    if w.len() == 0 {
        Seq::empty()
    } else {
        lowered(w.drop_last()) + lower_of(w.last())
    }
}

/// The word `w` with an initial capital: its first character in uppercase
/// form, the others in lowercase form.
pub open spec fn capitalized(w: Seq<char>) -> Seq<char> {
    if w.len() == 0 {
        Seq::empty()
    } else {
        upper_of(w.first()) + lowered(w.drop_first())
    }
}

/// The words `ws` with one space between each two of them, and none before
/// the first or after the last.
pub open spec fn join_spaced(ws: Seq<Seq<char>>) -> Seq<char>
    decreases ws.len(),
{
    if ws.len() == 0 {
        Seq::empty()
    } else if ws.len() == 1 {
        ws[0]
    } else {
        join_spaced(ws.drop_last()).push(' ') + ws.last()
    }
}

/// The words of `s`, each with an initial capital.
pub open spec fn capitalized_words(s: Seq<char>) -> Seq<Seq<char>> {
    words(s).map_values(|w: Seq<char>| capitalized(w))
}

/// Whether the uppercase form of every character of `s` outside the
/// separators has at least one character, as the standard library documents
/// of every character.
pub open spec fn upper_forms_nonempty(s: Seq<char>) -> bool {
    forall|i: int| 0 <= i < s.len() && !is_separator(s[i]) ==> upper_of(#[trigger] s[i]).len() > 0
}

/// The Title Case form of `s`, as the policy writes it.
pub open spec fn title_of(s: Seq<char>) -> Seq<char> {
    render_words(&TitlePolicy, words(s))
}

/// Conversion to Title Case: word boundaries are shown by spaces, and every
/// word is capitalized.
pub trait TitleCase: ToOwned {
    /// Convert this type to title case.
    fn to_title_case(&self) -> Self::Owned;
}

impl TitleCase for str {
    /// The words of the text, written by the Title Case policy. Where no
    /// uppercase form is empty, that is each word with an initial capital
    /// and the rest in lowercase, with single spaces between the words.
    fn to_title_case(&self) -> (r: String)
        ensures
            r@ == title_of(self@),
            upper_forms_nonempty(self@) ==> r@ == join_spaced(capitalized_words(self@)),
    {
        proof {
            if upper_forms_nonempty(self@) {
                title_is_capitalized_words_joined(self@);
            }
        }
        transform(self, &TitlePolicy)
    }
}

} // verus!
