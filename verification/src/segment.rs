//! Word boundaries: where in a text a word begins, and the words that the
//! text is thereby cut into.

use vstd::prelude::*;
use crate::unicode::{CharClass, class_of, is_cased, is_separator};

verus! {

/// Whether a word boundary lies between a character of class `prev` and the
/// character of class `cur` that follows it, where `next` is the class of the
/// character after that one, if there is one.
///
/// A separator never begins a word. Any other character begins one
/// - after a separator;
/// - as an uppercase letter after a lowercase one;
/// - as the last uppercase letter of a run of them, where a lowercase letter
///   follows;
/// - as a letter with case after a digit, or a digit after such a letter.
pub open spec fn boundary_between(prev: CharClass, cur: CharClass, next: Option<CharClass>) -> bool {
    cur != CharClass::Separator && (prev == CharClass::Separator
        || (prev == CharClass::Lowercase && cur == CharClass::Uppercase)
        || (prev == CharClass::Uppercase && cur == CharClass::Uppercase
            && next == Some(CharClass::Lowercase))
        || (prev == CharClass::Digit && is_cased(cur))
        || (is_cased(prev) && cur == CharClass::Digit))
}

/// Whether a character of class `cur` begins a word, given the classes of
/// its neighbours. The first character of a text begins a word unless it is a
/// separator.
pub open spec fn word_opens(prev: Option<CharClass>, cur: CharClass, next: Option<CharClass>) -> bool {
    match prev {
        None => cur != CharClass::Separator,
        Some(p) => boundary_between(p, cur, next),
    }
}

/// The class of the character at position `i` of `s`, if there is one.
pub open spec fn class_at(s: Seq<char>, i: int) -> Option<CharClass> {
    if 0 <= i < s.len() {
        Some(class_of(s[i]))
    } else {
        None
    }
}

/// Whether a word of `s` begins at position `i`.
pub open spec fn starts_word(s: Seq<char>, i: int) -> bool {
    0 <= i < s.len() && word_opens(class_at(s, i - 1), class_of(s[i]), class_at(s, i + 1))
}

/// The words found among the first `n` characters of `s`. The last of them
/// may go on beyond position `n`.
pub open spec fn words_upto(s: Seq<char>, n: int) -> Seq<Seq<char>>
    decreases n,
{
    if n <= 0 || n > s.len() {
        Seq::empty()
    } else {
        let before = words_upto(s, n - 1);
        let c = s[n - 1];
        if is_separator(c) {
            before
        } else if starts_word(s, n - 1) {
            before.push(seq![c])
        } else {
            before.drop_last().push(before.last().push(c))
        }
    }
}

/// The words of `s`, in the order in which they stand in it.
pub open spec fn words(s: Seq<char>) -> Seq<Seq<char>> {
    words_upto(s, s.len() as int)
}

/// Decides whether a character begins a word, from its class and those of
/// its neighbours.
pub fn opens_word(prev: Option<CharClass>, cur: CharClass, next: Option<CharClass>) -> (r: bool)
    ensures
        r == word_opens(prev, cur, next),
{
    match cur {
        CharClass::Separator => false,
        CharClass::Uppercase => match prev {
            None => true,
            Some(CharClass::Separator) | Some(CharClass::Lowercase) | Some(CharClass::Digit) => true,
            Some(CharClass::Uppercase) => match next {
                Some(CharClass::Lowercase) => true,
                _ => false,
            },
            Some(CharClass::Other) => false,
        },
        CharClass::Lowercase => match prev {
            None => true,
            Some(CharClass::Separator) | Some(CharClass::Digit) => true,
            _ => false,
        },
        CharClass::Digit => match prev {
            None => true,
            Some(CharClass::Separator) | Some(CharClass::Uppercase) | Some(CharClass::Lowercase) => true,
            _ => false,
        },
        CharClass::Other => match prev {
            None => true,
            Some(CharClass::Separator) => true,
            _ => false,
        },
    }
}

/// Where a character goes on with a word, a word has begun before it.
pub(crate) proof fn lemma_word_in_progress(s: Seq<char>, n: int)
    requires
        0 < n <= s.len(),
        !is_separator(s[n - 1]),
    ensures
        words_upto(s, n).len() > 0,
        words_upto(s, n).last().len() > 0,
        words_upto(s, n).last().last() == s[n - 1],
        !starts_word(s, n - 1) ==> words_upto(s, n - 1).len() > 0,
    decreases n,
{
    if !starts_word(s, n - 1) {
        // no boundary after a separator was missed, so the character before is in a word
        lemma_word_in_progress(s, n - 1);
    }
}

} // verus!
