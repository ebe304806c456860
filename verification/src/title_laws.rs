//! What holds of Title Case: its output is the capitalized words joined by
//! single spaces, and a text that is in Title Case already stays as it is.

use vstd::prelude::*;
use crate::unicode::{is_separator, lower_of, upper_of};
use crate::segment::{starts_word, words, words_upto};
use crate::segment_laws::{
    all_separators, digit_meets_letter, no_word_joins_digit_and_letter, separator_runs_collapse,
    separators_hold_no_word, words_hold_the_text, words_inherit, words_of_parted_texts,
};
use crate::casing::{cases_simply, simple_casing};
use crate::transform::{render_word, render_words};
use crate::title::{
    TitlePolicy, capitalized, capitalized_words, join_spaced, lowered, title_of, upper_forms_nonempty,
};

verus! {

/// Whether `w` is a word in Title Case: it is one word, capitalizing leaves
/// its first character as it is, and lowercasing each of the others.
pub open spec fn is_title_word(w: Seq<char>) -> bool {
    &&& words(w) == seq![w]
    &&& upper_of(w.first()) == seq![w.first()]
    &&& forall|j: int| 0 < j < w.len() ==> lower_of(#[trigger] w[j]) == seq![w[j]]
}

/// Whether each of `ws` is a word in Title Case.
pub open spec fn are_title_words(ws: Seq<Seq<char>>) -> bool {
    forall|k: int| 0 <= k < ws.len() ==> is_title_word(#[trigger] ws[k])
}

proof fn lemma_render_title_word(w: Seq<char>, out: Seq<char>)
    requires
        w.len() > 0,
        upper_of(w.first()).len() > 0,
    ensures
        render_word(&TitlePolicy, w, out) == if out.len() > 0 {
            out.push(' ') + capitalized(w)
        } else {
            capitalized(w)
        },
        capitalized(w).len() > 0,
    decreases w.len(),
{
    if w.len() > 1 {
        let front = w.drop_last();
        lemma_render_title_word(front, out);
        assert(w.drop_first().drop_last() =~= front.drop_first());
        if out.len() > 0 {
            assert(out.push(' ') + capitalized(front) + lower_of(w.last()) =~= out.push(' ') + (
            capitalized(front) + lower_of(w.last())));
        }
    }
}

proof fn lemma_render_title_words(ws: Seq<Seq<char>>)
    requires
        forall|k: int| 0 <= k < ws.len() ==> (#[trigger] ws[k]).len() > 0 && upper_of(ws[k].first()).len() > 0,
    ensures
        render_words(&TitlePolicy, ws) == join_spaced(ws.map_values(|w: Seq<char>| capitalized(w))),
        ws.len() > 0 ==> render_words(&TitlePolicy, ws).len() > 0,
    decreases ws.len(),
{
    let cap = |w: Seq<char>| capitalized(w);
    if ws.len() > 0 {
        let front = ws.drop_last();
        lemma_render_title_words(front);
        lemma_render_title_word(ws.last(), render_words(&TitlePolicy, front));
        assert(ws.map_values(cap).drop_last() =~= front.map_values(cap));
    }
}

/// The Title Case form of a text is its words, each with an initial capital
/// and the rest in lowercase, joined by single spaces: however many
/// separators parted two words, one space parts them in the output, and
/// none stands before the first word or after the last.
pub proof fn title_is_capitalized_words_joined(s: Seq<char>)
    requires
        upper_forms_nonempty(s),
    ensures
        title_of(s) == join_spaced(capitalized_words(s)),
{
    words_hold_the_text(s);
    words_inherit(s, |c: char| upper_of(c).len() > 0);
    lemma_render_title_words(words(s));
}

/// Title Case does not tell one run of separators from another: whatever
/// separators stand between two parts of a text, and however many, the
/// output is the same.
pub proof fn title_ignores_what_separates(a: Seq<char>, seps: Seq<char>, others: Seq<char>, b: Seq<char>)
    requires
        all_separators(seps),
        seps.len() > 0,
        all_separators(others),
        others.len() > 0,
    ensures
        title_of(a + seps + b) == title_of(a + others + b),
{
    separator_runs_collapse(a, seps, b);
    separator_runs_collapse(a, others, b);
}

/// Separators before the first word and after the last leave no trace in
/// the output.
pub proof fn title_ignores_outer_separators(leading: Seq<char>, s: Seq<char>, trailing: Seq<char>)
    requires
        all_separators(leading),
        all_separators(trailing),
    ensures
        title_of(leading + s + trailing) == title_of(s),
{
    separators_hold_no_word(leading);
    separators_hold_no_word(trailing);
    words_of_parted_texts(leading, s);
    words_of_parted_texts(leading + s, trailing);
}

proof fn lemma_lowered_is_kept(w: Seq<char>)
    requires
        forall|j: int| 0 <= j < w.len() ==> lower_of(#[trigger] w[j]) == seq![w[j]],
    ensures
        lowered(w) == w,
    decreases w.len(),
{
    if w.len() > 0 {
        lemma_lowered_is_kept(w.drop_last());
    }
}

proof fn lemma_title_word_is_kept(w: Seq<char>)
    requires
        is_title_word(w),
    ensures
        w.len() > 0,
        capitalized(w) == w,
{
    words_hold_the_text(w);
    lemma_lowered_is_kept(w.drop_first());
}

proof fn lemma_words_of_joined(ws: Seq<Seq<char>>)
    requires
        are_title_words(ws),
    ensures
        words(join_spaced(ws)) == ws,
    decreases ws.len(),
{
    if ws.len() > 1 {
        // the space after the words before the last parts them from it
        let front = ws.drop_last();
        let joined = join_spaced(front);
        let space = seq![' '];
        lemma_words_of_joined(front);
        separators_hold_no_word(space);
        words_of_parted_texts(joined, space);
        assert(joined + space =~= joined.push(' '));
        words_of_parted_texts(joined.push(' '), ws.last());
    }
}

/// Converting a text that is in Title Case already gives the same text:
/// where words in Title Case are joined by single spaces, segmentation finds
/// those words again, and Title Case writes them as they were.
pub proof fn title_case_is_kept(ws: Seq<Seq<char>>)
    requires
        are_title_words(ws),
    ensures
        words(join_spaced(ws)) == ws,
        title_of(join_spaced(ws)) == join_spaced(ws),
{
    let cap = |w: Seq<char>| capitalized(w);
    lemma_words_of_joined(ws);
    assert forall|k: int| 0 <= k < ws.len() implies (#[trigger] ws[k]).len() > 0 && upper_of(
        ws[k].first(),
    ).len() > 0 && cap(ws[k]) == ws[k] by {
        lemma_title_word_is_kept(ws[k]);
    }
    lemma_render_title_words(ws);
    assert(ws.map_values(cap) =~= ws);
}

proof fn lemma_single_word(t: Seq<char>, n: int)
    requires
        0 < n <= t.len(),
        forall|i: int| 0 <= i < t.len() ==> !is_separator(#[trigger] t[i]),
        forall|i: int| 0 < i < t.len() ==> !starts_word(t, i),
    ensures
        words_upto(t, n) == seq![t.take(n)],
    decreases n,
{
    if n == 1 {
        assert(words_upto(t, 0) =~= Seq::<Seq<char>>::empty());
        assert(t.take(1) =~= seq![t[0]]);
    } else {
        lemma_single_word(t, n - 1);
        assert(t.take(n - 1).push(t[n - 1]) =~= t.take(n));
    }
}

proof fn lemma_lowered_simple(w: Seq<char>)
    requires
        forall|j: int| 0 <= j < w.len() ==> cases_simply(#[trigger] w[j]),
    ensures
        lowered(w) == Seq::new(w.len(), |j: int| lower_of(w[j]).first()),
    decreases w.len(),
{
    if w.len() > 0 {
        lemma_lowered_simple(w.drop_last());
    }
}

proof fn lemma_capitalized_is_title_word(w: Seq<char>)
    requires
        w.len() > 0,
        forall|j: int| 0 <= j < w.len() ==> !is_separator(#[trigger] w[j]) && cases_simply(w[j]),
        forall|j: int| 0 < j < w.len() ==> !digit_meets_letter(w[j - 1], #[trigger] w[j]),
    ensures
        is_title_word(capitalized(w)),
{
    // each character of the capitalized word is the one form of the character
    // in its place, so no word begins inside it
    let t = capitalized(w);
    lemma_lowered_simple(w.drop_first());
    lemma_single_word(t, t.len() as int);
    assert(t.take(t.len() as int) =~= t);
}

/// Converting twice gives what converting once gives, for every text on
/// whose characters the case mappings are simple.
pub proof fn title_case_is_idempotent(s: Seq<char>)
    requires
        simple_casing(s),
    ensures
        title_of(title_of(s)) == title_of(s),
{
    let ws = words(s);
    let caps = capitalized_words(s);
    words_hold_the_text(s);
    words_inherit(s, |c: char| !is_separator(c) && cases_simply(c));
    no_word_joins_digit_and_letter(s);
    assert forall|k: int| 0 <= k < caps.len() implies is_title_word(#[trigger] caps[k]) by {
        lemma_capitalized_is_title_word(ws[k]);
    }
    assert(upper_forms_nonempty(s));
    title_is_capitalized_words_joined(s);
    title_case_is_kept(caps);
}

} // verus!
