//! What holds of every segmentation: how many words there are, that they
//! hold the text's characters but the separators, how digits and acronyms
//! are cut, and that a run of separators counts as one.

use vstd::prelude::*;
use crate::unicode::{CharClass, class_of, is_cased, is_separator};
use crate::segment::{lemma_word_in_progress, starts_word, words, words_upto};

verus! {

/// The positions at which a word of `s` begins.
pub open spec fn word_starts(s: Seq<char>) -> Set<int> {
    Set::new(|i: int| starts_word(s, i))
}

/// The test that tells the characters of words from the separators.
pub open spec fn in_word() -> spec_fn(char) -> bool {
    |c: char| !is_separator(c)
}

/// Whether `seps` holds separators only.
pub open spec fn all_separators(seps: Seq<char>) -> bool {
    forall|i: int| 0 <= i < seps.len() ==> is_separator(#[trigger] seps[i])
}

/// Whether no word can run from the end of `x` into the beginning of `y`:
/// one of them is empty, or a separator stands at the joint.
pub open spec fn parted(x: Seq<char>, y: Seq<char>) -> bool {
    x.len() == 0 || y.len() == 0 || is_separator(x.last()) || is_separator(y.first())
}

spec fn starts_below(s: Seq<char>, n: int) -> Set<int> {
    Set::new(|i: int| i < n && starts_word(s, i))
}

proof fn lemma_count_upto(s: Seq<char>, n: int)
    requires
        0 <= n <= s.len(),
    ensures
        starts_below(s, n).finite(),
        words_upto(s, n).len() == starts_below(s, n).len(),
    decreases n,
{
    if n == 0 {
        assert(starts_below(s, 0) =~= Set::empty());
    } else {
        lemma_count_upto(s, n - 1);
        if starts_word(s, n - 1) {
            assert(starts_below(s, n) =~= starts_below(s, n - 1).insert(n - 1));
        } else {
            assert(starts_below(s, n) =~= starts_below(s, n - 1));
            if !is_separator(s[n - 1]) {
                lemma_word_in_progress(s, n);
            }
        }
    }
}

/// There are as many words as there are boundaries: one word for each
/// position at which the rules let a word begin.
pub proof fn word_count_is_boundary_count(s: Seq<char>)
    ensures
        word_starts(s).finite(),
        words(s).len() == word_starts(s).len(),
{
    lemma_count_upto(s, s.len() as int);
    assert(word_starts(s) =~= starts_below(s, s.len() as int));
}

proof fn lemma_cover_upto(s: Seq<char>, n: int)
    requires
        0 <= n <= s.len(),
    ensures
        words_upto(s, n).flatten() == s.take(n).filter(in_word()),
        forall|k: int| 0 <= k < words_upto(s, n).len() ==> (#[trigger] words_upto(s, n)[k]).len() > 0,
    decreases n,
{
    broadcast use {Seq::lemma_flatten_push, Seq::lemma_filter_push};
    if n == 0 {
        reveal(Seq::filter);
    } else {
        lemma_cover_upto(s, n - 1);
        let before = words_upto(s, n - 1);
        let c = s[n - 1];
        assert(s.take(n) =~= s.take(n - 1).push(c));
        if !is_separator(c) && !starts_word(s, n - 1) {
            lemma_word_in_progress(s, n);
            assert(before =~= before.drop_last().push(before.last()));
        }
    }
}

/// The words hold the characters of the text that are no separators, each
/// once and in their order, and no word is empty.
pub proof fn words_hold_the_text(s: Seq<char>)
    ensures
        words(s).flatten() == s.filter(in_word()),
        forall|k: int| 0 <= k < words(s).len() ==> (#[trigger] words(s)[k]).len() > 0,
{
    lemma_cover_upto(s, s.len() as int);
    assert(s.take(s.len() as int) =~= s);
}

proof fn lemma_inherit_upto(s: Seq<char>, n: int, p: spec_fn(char) -> bool)
    requires
        0 <= n <= s.len(),
        forall|i: int| 0 <= i < s.len() && !is_separator(s[i]) ==> p(#[trigger] s[i]),
    ensures
        forall|k: int, j: int|
            0 <= k < words_upto(s, n).len() && 0 <= j < words_upto(s, n)[k].len() ==> p(
                #[trigger] words_upto(s, n)[k][j],
            ),
    decreases n,
{
    if n > 0 {
        lemma_inherit_upto(s, n - 1, p);
        let before = words_upto(s, n - 1);
        let now = words_upto(s, n);
        let c = s[n - 1];
        if !is_separator(c) {
            assert(p(s[n - 1]));
            if !starts_word(s, n - 1) {
                lemma_word_in_progress(s, n);
            }
            assert forall|k: int, j: int| 0 <= k < now.len() && 0 <= j < now[k].len() implies p(
                #[trigger] now[k][j],
            ) by {
                if k < now.len() - 1 {
                    assert(now[k] == before[k]);
                    assert(p(before[k][j]));
                } else if !starts_word(s, n - 1) && j < before.last().len() {
                    assert(now[k][j] == before[before.len() - 1][j]);
                    assert(p(before[before.len() - 1][j]));
                }
            }
        }
    }
}

/// Every character of every word of `s` has a property that every character
/// of `s` outside the separators has.
pub proof fn words_inherit(s: Seq<char>, p: spec_fn(char) -> bool)
    requires
        forall|i: int| 0 <= i < s.len() && !is_separator(s[i]) ==> p(#[trigger] s[i]),
    ensures
        forall|k: int, j: int|
            0 <= k < words(s).len() && 0 <= j < words(s)[k].len() ==> p(#[trigger] words(s)[k][j]),
{
    lemma_inherit_upto(s, s.len() as int, p);
}

/// Whether a digit and a letter with case stand side by side in `a` and
/// `b`, in either order.
pub open spec fn digit_meets_letter(a: char, b: char) -> bool {
    (class_of(a) == CharClass::Digit && is_cased(class_of(b))) || (is_cased(class_of(a))
        && class_of(b) == CharClass::Digit)
}

proof fn lemma_inherit_pairs_upto(s: Seq<char>, n: int, q: spec_fn(char, char) -> bool)
    requires
        0 <= n <= s.len(),
        forall|i: int|
            0 < i < s.len() && !is_separator(s[i - 1]) && !is_separator(s[i]) && !starts_word(s, i)
                ==> q(s[i - 1], #[trigger] s[i]),
    ensures
        forall|k: int, j: int|
            0 <= k < words_upto(s, n).len() && 0 < j < words_upto(s, n)[k].len() ==> q(
                words_upto(s, n)[k][j - 1],
                #[trigger] words_upto(s, n)[k][j],
            ),
    decreases n,
{
    if n > 0 {
        lemma_inherit_pairs_upto(s, n - 1, q);
        let before = words_upto(s, n - 1);
        let now = words_upto(s, n);
        let c = s[n - 1];
        if !is_separator(c) {
            if !starts_word(s, n - 1) {
                lemma_word_in_progress(s, n);
                lemma_word_in_progress(s, n - 1);
                assert(q(s[n - 2], s[n - 1]));
            }
            assert forall|k: int, j: int| 0 <= k < now.len() && 0 < j < now[k].len() implies q(
                now[k][j - 1],
                #[trigger] now[k][j],
            ) by {
                if k < now.len() - 1 {
                    assert(now[k] == before[k]);
                    assert(q(before[k][j - 1], before[k][j]));
                } else if !starts_word(s, n - 1) {
                    let w = before[before.len() - 1];
                    if j < w.len() {
                        assert(now[k][j] == w[j]);
                        assert(q(w[j - 1], w[j]));
                    }
                }
            }
        }
    }
}

/// Every two characters that stand side by side in a word of `s` have a
/// property that every two characters of `s` have that stand side by side
/// with no word beginning between them.
pub proof fn words_inherit_pairs(s: Seq<char>, q: spec_fn(char, char) -> bool)
    requires
        forall|i: int|
            0 < i < s.len() && !is_separator(s[i - 1]) && !is_separator(s[i]) && !starts_word(s, i)
                ==> q(s[i - 1], #[trigger] s[i]),
    ensures
        forall|k: int, j: int|
            0 <= k < words(s).len() && 0 < j < words(s)[k].len() ==> q(
                words(s)[k][j - 1],
                #[trigger] words(s)[k][j],
            ),
{
    lemma_inherit_pairs_upto(s, s.len() as int, q);
}

/// Inside a word a digit never stands next to a letter with case.
pub proof fn no_word_joins_digit_and_letter(s: Seq<char>)
    ensures
        forall|k: int, j: int|
            0 <= k < words(s).len() && 0 < j < words(s)[k].len() ==> !digit_meets_letter(
                words(s)[k][j - 1],
                #[trigger] words(s)[k][j],
            ),
{
    words_inherit_pairs(s, |a: char, b: char| !digit_meets_letter(a, b));
}

proof fn lemma_one_kind(w: Seq<char>, j: int)
    requires
        0 <= j < w.len(),
        forall|i: int| 0 <= i < w.len() ==> !is_separator(#[trigger] w[i]) && class_of(w[i])
            != CharClass::Other,
        forall|i: int| 0 < i < w.len() ==> !digit_meets_letter(w[i - 1], #[trigger] w[i]),
    ensures
        class_of(w[j]) == CharClass::Digit <==> class_of(w[0]) == CharClass::Digit,
    decreases j,
{
    if j > 0 {
        lemma_one_kind(w, j - 1);
    }
}

/// Digits form words of their own: in a text without letters that have no
/// case, a word that holds a digit holds digits only.
pub proof fn digits_form_words_of_their_own(s: Seq<char>)
    requires
        forall|i: int| 0 <= i < s.len() ==> class_of(#[trigger] s[i]) != CharClass::Other,
    ensures
        forall|k: int, i: int, j: int|
            0 <= k < words(s).len() && 0 <= i < words(s)[k].len() && 0 <= j < words(s)[k].len()
                ==> (class_of(#[trigger] words(s)[k][i]) == CharClass::Digit <==> class_of(
                #[trigger] words(s)[k][j],
            ) == CharClass::Digit),
{
    words_inherit(s, |c: char| !is_separator(c) && class_of(c) != CharClass::Other);
    no_word_joins_digit_and_letter(s);
    assert forall|k: int, i: int, j: int|
        0 <= k < words(s).len() && 0 <= i < words(s)[k].len() && 0 <= j < words(s)[k].len() implies (
    class_of(#[trigger] words(s)[k][i]) == CharClass::Digit <==> class_of(
        #[trigger] words(s)[k][j],
    ) == CharClass::Digit) by {
        let w = words(s)[k];
        lemma_one_kind(w, i);
        lemma_one_kind(w, j);
    }
}

/// Inside a word an uppercase letter never follows a lowercase one.
pub proof fn no_word_holds_a_hump(s: Seq<char>)
    ensures
        forall|k: int, j: int|
            0 <= k < words(s).len() && 0 < j < words(s)[k].len() ==> !(class_of(words(s)[k][j - 1])
                == CharClass::Lowercase && class_of(#[trigger] words(s)[k][j])
                == CharClass::Uppercase),
{
    words_inherit_pairs(
        s,
        |a: char, b: char|
            !(class_of(a) == CharClass::Lowercase && class_of(b) == CharClass::Uppercase),
    );
}

/// A run of digits is never cut: no word begins between two digits.
pub proof fn digit_runs_stay_whole(s: Seq<char>, i: int)
    requires
        0 < i < s.len(),
        class_of(s[i - 1]) == CharClass::Digit,
        class_of(s[i]) == CharClass::Digit,
    ensures
        !starts_word(s, i),
{
}

/// Digits are words of their own: where a digit and a letter with case
/// stand side by side, in either order, a word begins between them.
pub proof fn digits_part_from_letters(s: Seq<char>, i: int)
    requires
        0 < i < s.len(),
        digit_meets_letter(s[i - 1], s[i]),
    ensures
        starts_word(s, i),
{
}

/// Between two uppercase letters a word begins where a lowercase letter
/// follows them, and only there: a run of uppercase letters stays one word
/// but for its last letter, which opens the word that the lowercase letter
/// goes on with.
pub proof fn acronyms_end_before_the_last_capital(s: Seq<char>, i: int)
    requires
        0 < i < s.len(),
        class_of(s[i - 1]) == CharClass::Uppercase,
        class_of(s[i]) == CharClass::Uppercase,
    ensures
        starts_word(s, i) <==> (i + 1 < s.len() && class_of(s[i + 1]) == CharClass::Lowercase),
{
}

proof fn lemma_starts_left(x: Seq<char>, y: Seq<char>, i: int)
    requires
        parted(x, y),
        0 <= i < x.len(),
    ensures
        starts_word(x + y, i) == starts_word(x, i),
{
}

proof fn lemma_starts_right(x: Seq<char>, y: Seq<char>, j: int)
    requires
        parted(x, y),
        0 <= j < y.len(),
    ensures
        starts_word(x + y, x.len() + j) == starts_word(y, j),
{
}

proof fn lemma_words_left(x: Seq<char>, y: Seq<char>, n: int)
    requires
        parted(x, y),
        0 <= n <= x.len(),
    ensures
        words_upto(x + y, n) == words_upto(x, n),
    decreases n,
{
    if n > 0 {
        lemma_words_left(x, y, n - 1);
        lemma_starts_left(x, y, n - 1);
    }
}

proof fn lemma_words_right(x: Seq<char>, y: Seq<char>, m: int)
    requires
        parted(x, y),
        0 <= m <= y.len(),
    ensures
        words_upto(x + y, x.len() + m) == words(x) + words_upto(y, m),
    decreases m,
{
    if m == 0 {
        lemma_words_left(x, y, x.len() as int);
    } else {
        lemma_words_right(x, y, m - 1);
        lemma_starts_right(x, y, m - 1);
        let c = y[m - 1];
        let before = words_upto(y, m - 1);
        if !is_separator(c) && !starts_word(y, m - 1) {
            lemma_word_in_progress(y, m);
            let w = before.last();
            assert(words(x) + before.drop_last().push(w.push(c)) =~= (words(x)
                + before.drop_last()).push(w.push(c)));
        }
    }
}

/// Where a separator stands at the joint of two texts, or one of them is
/// empty, the words of the whole are the words of the first and then those
/// of the second.
pub proof fn words_of_parted_texts(x: Seq<char>, y: Seq<char>)
    requires
        parted(x, y),
    ensures
        words(x + y) == words(x) + words(y),
{
    lemma_words_right(x, y, y.len() as int);
}

proof fn lemma_no_word_upto(seps: Seq<char>, n: int)
    requires
        all_separators(seps),
        0 <= n <= seps.len(),
    ensures
        words_upto(seps, n) == Seq::<Seq<char>>::empty(),
    decreases n,
{
    if n > 0 {
        lemma_no_word_upto(seps, n - 1);
    }
}

/// A text of separators alone holds no word.
pub proof fn separators_hold_no_word(seps: Seq<char>)
    requires
        all_separators(seps),
    ensures
        words(seps) == Seq::<Seq<char>>::empty(),
{
    lemma_no_word_upto(seps, seps.len() as int);
}

/// A run of one or more separators counts as one boundary, whatever its
/// length and its characters: the words of a text are the words before the
/// run and then the words after it. With nothing before the run, or nothing
/// after it, the run leaves no trace at all.
pub proof fn separator_runs_collapse(a: Seq<char>, seps: Seq<char>, b: Seq<char>)
    requires
        all_separators(seps),
        seps.len() > 0,
    ensures
        words(a + seps + b) == words(a) + words(b),
{
    separators_hold_no_word(seps);
    words_of_parted_texts(a, seps);
    words_of_parted_texts(a + seps, b);
}

} // verus!
