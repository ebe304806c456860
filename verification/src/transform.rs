//! The engine: one pass over a text that hands each character of each word
//! to a policy, which writes the output.

use vstd::prelude::*;
use vstd::std_specs::iter::IteratorSpec;
use crate::unicode::{CharClass, classify, class_of, is_separator};
use crate::segment::{class_at, lemma_word_in_progress, opens_word, starts_word, words, words_upto};

verus! {

/// A target convention: what is written where a word begins, and what for
/// each further character of a word.
pub trait Policy {
    /// The output after `boundary` has been told that a word begins with
    /// `first`, where the output was `out` before.
    spec fn after_boundary(&self, first: char, out: Seq<char>) -> Seq<char>;

    /// The output after `character` has been given `c`, where the output was
    /// `out` before.
    spec fn after_char(&self, c: char, out: Seq<char>) -> Seq<char>;

    /// Called once where a word begins, with the word's first character. It
    /// writes what parts the word from the one before, and the first
    /// character in the form the convention gives it.
    fn boundary(&self, first: char, out: &mut String)
        ensures
            final(out)@ == self.after_boundary(first, old(out)@),
    ;

    /// Called once for each character of a word but the first.
    fn character(&self, c: char, out: &mut String)
        ensures
            final(out)@ == self.after_char(c, old(out)@),
    ;
}

/// What `policy` makes of the output `out` when it is given the word `w`:
/// the first character at the boundary, the others one by one.
pub open spec fn render_word<P: Policy>(policy: &P, w: Seq<char>, out: Seq<char>) -> Seq<char>
    decreases w.len(),
{
    if w.len() == 0 {
        out
    } else if w.len() == 1 {
        policy.after_boundary(w[0], out)
    } else {
        policy.after_char(w.last(), render_word(policy, w.drop_last(), out))
    }
}

/// What `policy` writes when it is given the words `ws` one after another,
/// starting from an empty output.
pub open spec fn render_words<P: Policy>(policy: &P, ws: Seq<Seq<char>>) -> Seq<char>
    decreases ws.len(),
{
    if ws.len() == 0 {
        Seq::empty()
    } else {
        render_word(policy, ws.last(), render_words(policy, ws.drop_last()))
    }
}

/// Converts `s` by the convention `policy`: the words of `s` are found, and
/// the policy writes the output from them. Separators are handed to nobody.
pub fn transform<P: Policy>(s: &str, policy: &P) -> (out: String)
    ensures
        out@ == render_words(policy, words(s@)),
{
    let mut out = String::new();
    let mut rest = s.chars();
    let mut prev: Option<CharClass> = None;
    let first = rest.next();
    let mut cur: Option<(char, CharClass)> = match first {
        Some(c) => Some((c, classify(c))),
        None => None,
    };
    let ghost mut i: int = 0;
    loop
        invariant
            0 <= i <= s@.len(),
            rest.obeys_prophetic_iter_laws(),
            i < s@.len() ==> rest.remaining() == s@.subrange(i + 1, s@.len() as int),
            i < s@.len() ==> cur == Some((s@[i], class_of(s@[i]))),
            i == s@.len() ==> cur is None,
            prev == class_at(s@, i - 1),
            out@ == render_words(policy, words_upto(s@, i)),
        ensures
            i == s@.len(),
        decreases s@.len() - i,
    {
        match cur {
            None => {
                break;
            },
            Some((c, class)) => {
                let following = rest.next();
                let next: Option<(char, CharClass)> = match following {
                    Some(n) => Some((n, classify(n))),
                    None => None,
                };
                let next_class: Option<CharClass> = match next {
                    Some((_, k)) => Some(k),
                    None => None,
                };
                proof {
                    if !is_separator(c) {
                        lemma_word_in_progress(s@, i + 1);
                        lemma_render_step(policy, s@, i + 1);
                    }
                }
                if opens_word(prev, class, next_class) {
                    policy.boundary(c, &mut out);
                } else if class != CharClass::Separator {
                    policy.character(c, &mut out);
                }
                prev = Some(class);
                cur = next;
                proof {
                    i = i + 1;
                }
            },
        }
    }
    out
}

/// One more character of a word adds one call of the policy to the output.
proof fn lemma_render_step<P: Policy>(policy: &P, s: Seq<char>, n: int)
    requires
        0 < n <= s.len(),
        !is_separator(s[n - 1]),
    ensures
        render_words(policy, words_upto(s, n)) == if starts_word(s, n - 1) {
            policy.after_boundary(s[n - 1], render_words(policy, words_upto(s, n - 1)))
        } else {
            policy.after_char(s[n - 1], render_words(policy, words_upto(s, n - 1)))
        },
{
    let before = words_upto(s, n - 1);
    let c = s[n - 1];
    if starts_word(s, n - 1) {
        assert(words_upto(s, n).drop_last() == before);
    } else {
        lemma_word_in_progress(s, n);
        if n - 1 > 0 && !is_separator(s[n - 2]) {
            lemma_word_in_progress(s, n - 1);
        }
        let w = before.last();
        assert(words_upto(s, n).drop_last() == before.drop_last());
        assert(w.push(c).drop_last() == w);
    }
}

} // verus!
