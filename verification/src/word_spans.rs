//! Where the words lie in the text: each word is the stretch from one
//! boundary up to the next boundary or separator.

use vstd::prelude::*;
use crate::unicode::is_separator;
use crate::segment::{lemma_word_in_progress, starts_word, words, words_upto};

verus! {

/// The positions below `n` at which a word of `s` begins, in rising order.
pub open spec fn starts_upto(s: Seq<char>, n: int) -> Seq<int>
    decreases n,
{
    if n <= 0 || n > s.len() {
        Seq::empty()
    } else if starts_word(s, n - 1) {
        starts_upto(s, n - 1).push(n - 1)
    } else {
        starts_upto(s, n - 1)
    }
}

/// The positions at which a word of `s` begins, in rising order.
pub open spec fn start_positions(s: Seq<char>) -> Seq<int> {
    starts_upto(s, s.len() as int)
}

/// Whether `w` is the word of `s` that begins at position `a`: a word begins
/// there, `w` is the stretch of `s` from there on that holds no separator
/// and in which no further word begins, and it ends where `s` ends, before a
/// separator, or where the next word begins.
pub open spec fn is_word_at(s: Seq<char>, w: Seq<char>, a: int) -> bool {
    let b = a + w.len();
    &&& w.len() > 0
    &&& 0 <= a
    &&& b <= s.len()
    &&& starts_word(s, a)
    &&& s.subrange(a, b) == w
    &&& forall|i: int| a < i < b ==> !is_separator(#[trigger] s[i]) && !starts_word(s, i)
    &&& (b == s.len() || is_separator(s[b]) || starts_word(s, b))
}

spec fn span_ok(s: Seq<char>, n: int, w: Seq<char>, a: int, last: bool) -> bool {
    let b = a + w.len();
    &&& w.len() > 0
    &&& 0 <= a
    &&& b <= n
    &&& starts_word(s, a)
    &&& s.subrange(a, b) == w
    &&& forall|i: int| a < i < b ==> !is_separator(#[trigger] s[i]) && !starts_word(s, i)
    &&& if last {
        (b < n ==> is_separator(s[b])) && (n > 0 && !is_separator(s[n - 1]) ==> b == n)
    } else {
        b < n && (is_separator(s[b]) || starts_word(s, b))
    }
}

spec fn nth_ok(s: Seq<char>, n: int, k: int) -> bool {
    let ws = words_upto(s, n);
    let ps = starts_upto(s, n);
    &&& span_ok(s, n, ws[k], ps[k], k == ws.len() - 1)
    &&& k < ws.len() - 1 ==> ps[k] + ws[k].len() <= ps[k + 1]
}

proof fn lemma_spans_upto(s: Seq<char>, n: int)
    requires
        0 <= n <= s.len(),
    ensures
        starts_upto(s, n).len() == words_upto(s, n).len(),
        forall|k: int| 0 <= k < words_upto(s, n).len() ==> #[trigger] nth_ok(s, n, k),
        forall|i: int| 0 <= i < n && starts_word(s, i) ==> starts_upto(s, n).contains(i),
    decreases n,
{
    if n > 0 {
        lemma_spans_upto(s, n - 1);
        let c = s[n - 1];
        let before = words_upto(s, n - 1);
        let now = words_upto(s, n);
        let ps = starts_upto(s, n - 1);
        let qs = starts_upto(s, n);
        if !is_separator(c) {
            lemma_word_in_progress(s, n);
        }
        assert forall|i: int| 0 <= i < n && starts_word(s, i) implies qs.contains(i) by {
            if i < n - 1 {
                let k = choose|k: int| 0 <= k < ps.len() && ps[k] == i;
                assert(qs[k] == i);
            } else {
                assert(qs[qs.len() - 1] == i);
            }
        }
        assert forall|k: int| 0 <= k < now.len() implies #[trigger] nth_ok(s, n, k) by {
            if k < before.len() {
                assert(nth_ok(s, n - 1, k));
            }
            if k == now.len() - 1 && !is_separator(c) {
                if starts_word(s, n - 1) {
                    assert(s.subrange(n - 1, n) =~= seq![c]);
                } else {
                    assert(s.subrange(ps[k], n) =~= s.subrange(ps[k], n - 1).push(c));
                }
            }
        }
    }
}

/// The words are the stretches between the boundaries: there is one word
/// for each position at which a word begins, the words stand in the order
/// of those positions, and each is the stretch that begins at its position.
pub proof fn words_lie_between_boundaries(s: Seq<char>)
    ensures
        start_positions(s).len() == words(s).len(),
        forall|i: int| starts_word(s, i) <==> start_positions(s).contains(i),
        forall|k: int, l: int|
            0 <= k < l < start_positions(s).len() ==> start_positions(s)[k] < start_positions(s)[l],
        forall|k: int|
            0 <= k < words(s).len() ==> is_word_at(s, #[trigger] words(s)[k], start_positions(s)[k]),
{
    let n = s.len() as int;
    let ws = words(s);
    let ps = start_positions(s);
    lemma_spans_upto(s, n);
    assert forall|k: int| 0 <= k < ws.len() implies is_word_at(s, #[trigger] ws[k], ps[k]) by {
        assert(nth_ok(s, n, k));
    }
    assert forall|i: int| ps.contains(i) implies starts_word(s, i) by {
        let k = choose|k: int| 0 <= k < ps.len() && ps[k] == i;
        assert(nth_ok(s, n, k));
    }
    assert forall|k: int, l: int| 0 <= k < l < ps.len() implies ps[k] < ps[l] by {
        lemma_rising(s, k, l);
    }
}

proof fn lemma_rising(s: Seq<char>, k: int, l: int)
    requires
        0 <= k < l < start_positions(s).len(),
    ensures
        start_positions(s)[k] < start_positions(s)[l],
    decreases l - k,
{
    let n = s.len() as int;
    lemma_spans_upto(s, n);
    assert(nth_ok(s, n, l - 1));
    if k < l - 1 {
        lemma_rising(s, k, l - 1);
    }
}

} // verus!
