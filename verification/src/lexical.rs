//! The counting half of the lexical extractor.
//!
//! A text is put into lower case and split into tokens. What is counted
//! here are whole numbers: how often each vocabulary word occurs, how many
//! tokens there are, and how many of them are positive or negative words.
//! Weighting and normalising those counts is arithmetic on real numbers and
//! is done by the caller.

use vstd::prelude::*;
use crate::text::{chars_of, tokenize, tokens};
use crate::vocabulary::{
    negative_word_list,
    negative_words,
    positive_word_list,
    positive_words,
    vocabulary,
};

verus! {

/// The number of components that follow the vocabulary components in a
/// lexical vector: text length, positive count, negative count, balance.
pub const AUXILIARY_FEATURES: usize = 4;

/// The lower-case form of `text` as the standard library computes it.
pub uninterp spec fn lowercase_of(text: Seq<char>) -> Seq<char>;

/// `str::to_lowercase`: the result is the lower-case form of `text`, which
/// depends on the characters of `text` alone.
#[verifier::external_body]
fn to_lowercase(text: &str) -> (lowered: String)
    ensures
        lowered@ == lowercase_of(text@),
{
    text.to_lowercase()
}

/// How many of `toks` equal `word`.
pub open spec fn occurrences(toks: Seq<Seq<char>>, word: Seq<char>) -> nat
    decreases toks.len(),
{
    if toks.len() == 0 {
        0
    } else {
        occurrences(toks.drop_last(), word) + if toks.last() == word {
            1nat
        } else {
            0nat
        }
    }
}

/// How many of `toks` are among `words`.
pub open spec fn hits(toks: Seq<Seq<char>>, words: Seq<Seq<char>>) -> nat
    decreases toks.len(),
{
    if toks.len() == 0 {
        0
    } else {
        hits(toks.drop_last(), words) + if words.contains(toks.last()) {
            1nat
        } else {
            0nat
        }
    }
}

/// The whole-number features of one text.
#[derive(Debug)]
pub struct LexicalCounts {
    /// For each vocabulary word, how often it occurs among the tokens.
    pub term_counts: Vec<usize>,
    /// The number of tokens.
    pub token_count: usize,
    /// The number of tokens that are positive words.
    pub positive_count: usize,
    /// The number of tokens that are negative words.
    pub negative_count: usize,
}

impl LexicalCounts {
    /// Whether these are the counts of the token sequence `toks`.
    pub open spec fn counts_of(&self, toks: Seq<Seq<char>>) -> bool {
        &&& self.term_counts@.len() == vocabulary().len()
        &&& forall|i: int|
            0 <= i < vocabulary().len() ==> (#[trigger] self.term_counts@[i]) == occurrences(
                toks,
                vocabulary()[i],
            )
        &&& self.token_count == toks.len()
        &&& self.positive_count == hits(toks, positive_words())
        &&& self.negative_count == hits(toks, negative_words())
    }
}

/// No word occurs more often than there are tokens.
pub proof fn lemma_occurrences_bounded(toks: Seq<Seq<char>>, word: Seq<char>)
    ensures
        occurrences(toks, word) <= toks.len(),
    decreases toks.len(),
{
    if toks.len() > 0 {
        lemma_occurrences_bounded(toks.drop_last(), word);
    }
}

/// No more tokens are among `words` than there are tokens.
pub proof fn lemma_hits_bounded(toks: Seq<Seq<char>>, words: Seq<Seq<char>>)
    ensures
        hits(toks, words) <= toks.len(),
    decreases toks.len(),
{
    if toks.len() > 0 {
        lemma_hits_bounded(toks.drop_last(), words);
    }
}

/// A text without tokens has every count at zero.
pub proof fn lemma_counts_of_nothing(c: LexicalCounts)
    requires
        c.counts_of(Seq::empty()),
    ensures
        c.token_count == 0,
        c.positive_count == 0,
        c.negative_count == 0,
        forall|i: int| 0 <= i < c.term_counts@.len() ==> (#[trigger] c.term_counts@[i]) == 0,
{
}

fn same_chars(a: &Vec<char>, b: &Vec<char>) -> (same: bool)
    ensures
        same == (a@ == b@),
{
    if a.len() != b.len() {
        return false;
    }
    let n: usize = a.len();
    let mut i: usize = 0;
    while i < n
        invariant
            n == a@.len(),
            n == b@.len(),
            i <= n,
            forall|m: int| 0 <= m < i ==> a@[m] == b@[m],
        decreases n - i,
    {
        if a[i] != b[i] {
            return false;
        }
        i += 1;
    }
    assert(a@ =~= b@);
    true
}

fn is_among(words: &Vec<Vec<char>>, tok: &Vec<char>) -> (found: bool)
    ensures
        found == words.deep_view().contains(tok@),
{
    let mut i: usize = 0;
    while i < words.len()
        invariant
            i <= words@.len(),
            forall|m: int| 0 <= m < i ==> words.deep_view()[m] != tok@,
        decreases words@.len() - i,
    {
        proof {
            assert(words.deep_view()[i as int] == words@[i as int].deep_view());
            assert(words@[i as int].deep_view() =~= words@[i as int]@);
        }
        if same_chars(&words[i], tok) {
            return true;
        }
        i += 1;
    }
    false
}

fn count_word(toks: &Vec<Vec<char>>, word: &Vec<char>) -> (count: usize)
    ensures
        count == occurrences(toks.deep_view(), word@),
{
    let ghost all = toks.deep_view();
    let mut count: usize = 0;
    let mut i: usize = 0;
    proof {
        assert(all.take(0) =~= Seq::<Seq<char>>::empty());
    }
    while i < toks.len()
        invariant
            all == toks.deep_view(),
            i <= toks@.len(),
            count == occurrences(all.take(i as int), word@),
        decreases toks@.len() - i,
    {
        proof {
            assert(all[i as int] == toks@[i as int].deep_view());
            assert(toks@[i as int].deep_view() =~= toks@[i as int]@);
            assert(all.take(i + 1).drop_last() =~= all.take(i as int));
            assert(all.take(i + 1).last() == all[i as int]);
            lemma_occurrences_bounded(all.take(i as int), word@);
        }
        if same_chars(&toks[i], word) {
            count += 1;
        }
        i += 1;
    }
    proof {
        assert(all.take(i as int) =~= all);
    }
    count
}

fn count_hits(toks: &Vec<Vec<char>>, words: &Vec<Vec<char>>) -> (count: usize)
    ensures
        count == hits(toks.deep_view(), words.deep_view()),
{
    let ghost all = toks.deep_view();
    let mut count: usize = 0;
    let mut i: usize = 0;
    proof {
        assert(all.take(0) =~= Seq::<Seq<char>>::empty());
    }
    while i < toks.len()
        invariant
            all == toks.deep_view(),
            i <= toks@.len(),
            count == hits(all.take(i as int), words.deep_view()),
        decreases toks@.len() - i,
    {
        proof {
            assert(all[i as int] == toks@[i as int].deep_view());
            assert(toks@[i as int].deep_view() =~= toks@[i as int]@);
            assert(all.take(i + 1).drop_last() =~= all.take(i as int));
            assert(all.take(i + 1).last() == all[i as int]);
            lemma_hits_bounded(all.take(i as int), words.deep_view());
        }
        if is_among(words, &toks[i]) {
            count += 1;
        }
        i += 1;
    }
    proof {
        assert(all.take(i as int) =~= all);
    }
    count
}

fn word_chars(list: &Vec<&'static str>) -> (words: Vec<Vec<char>>)
    ensures
        words.deep_view().len() == list@.len(),
        forall|i: int| 0 <= i < list@.len() ==> (#[trigger] words.deep_view()[i]) == list@[i]@,
{
    let mut words: Vec<Vec<char>> = Vec::new();
    let mut i: usize = 0;
    while i < list.len()
        invariant
            i <= list@.len(),
            words@.len() == i,
            forall|m: int| 0 <= m < i ==> (#[trigger] words@[m])@ == list@[m]@,
        decreases list@.len() - i,
    {
        let w: Vec<char> = chars_of(list[i]);
        words.push(w);
        i += 1;
    }
    proof {
        assert forall|m: int| 0 <= m < list@.len() implies (#[trigger] words.deep_view()[m])
            == list@[m]@ by {
            assert(words.deep_view()[m] == words@[m].deep_view());
            assert(words@[m].deep_view() =~= words@[m]@);
        }
    }
    words
}

/// The number of components of a lexical vector: one for each vocabulary
/// word and the auxiliary features after them.
pub fn lexical_dimension() -> (d: usize)
    ensures
        d == vocabulary().len() + AUXILIARY_FEATURES,
        d == 143,
{
    positive_word_list().len() + negative_word_list().len() + AUXILIARY_FEATURES
}

/// Counts the features of a text that is already in lower case.
///
/// Never fails: a text that is empty or all white space has no tokens and
/// every count at zero.
pub fn count_features(lowered: &str) -> (counts: LexicalCounts)
    ensures
        counts.counts_of(tokens(lowered@)),
{
    let chars: Vec<char> = chars_of(lowered);
    let toks: Vec<Vec<char>> = tokenize(&chars);
    let positive: Vec<Vec<char>> = word_chars(&positive_word_list());
    let negative: Vec<Vec<char>> = word_chars(&negative_word_list());
    let ghost all = toks.deep_view();
    proof {
        assert(positive.deep_view() =~= positive_words());
        assert(negative.deep_view() =~= negative_words());
    }
    let mut term_counts: Vec<usize> = Vec::new();
    let mut i: usize = 0;
    while i < positive.len()
        invariant
            all == toks.deep_view(),
            positive.deep_view() == positive_words(),
            i <= positive@.len(),
            term_counts@.len() == i,
            forall|m: int|
                0 <= m < i ==> (#[trigger] term_counts@[m]) == occurrences(all, positive_words()[m]),
        decreases positive@.len() - i,
    {
        proof {
            assert(positive.deep_view()[i as int] == positive@[i as int].deep_view());
            assert(positive@[i as int].deep_view() =~= positive@[i as int]@);
        }
        let count: usize = count_word(&toks, &positive[i]);
        term_counts.push(count);
        i += 1;
    }
    let mut j: usize = 0;
    while j < negative.len()
        invariant
            all == toks.deep_view(),
            negative.deep_view() == negative_words(),
            positive@.len() == positive_words().len(),
            j <= negative@.len(),
            term_counts@.len() == positive@.len() + j,
            forall|m: int|
                0 <= m < positive@.len() ==> (#[trigger] term_counts@[m]) == occurrences(
                    all,
                    positive_words()[m],
                ),
            forall|m: int|
                0 <= m < j ==> (#[trigger] term_counts@[positive@.len() + m]) == occurrences(
                    all,
                    negative_words()[m],
                ),
        decreases negative@.len() - j,
    {
        proof {
            assert(negative.deep_view()[j as int] == negative@[j as int].deep_view());
            assert(negative@[j as int].deep_view() =~= negative@[j as int]@);
        }
        let count: usize = count_word(&toks, &negative[j]);
        term_counts.push(count);
        j += 1;
    }
    let positive_count: usize = count_hits(&toks, &positive);
    let negative_count: usize = count_hits(&toks, &negative);
    let counts = LexicalCounts {
        term_counts,
        token_count: toks.len(),
        positive_count,
        negative_count,
    };
    proof {
        let p = positive_words().len() as int;
        assert forall|m: int| 0 <= m < vocabulary().len() implies (
        #[trigger] counts.term_counts@[m]) == occurrences(all, vocabulary()[m]) by {
            if m >= p {
                assert(counts.term_counts@[p + (m - p)] == occurrences(
                    all,
                    negative_words()[m - p],
                ));
            }
        }
    }
    counts
}

/// Counts the features of `text`: those of its lower-case form.
pub fn lexical_counts(text: &str) -> (counts: LexicalCounts)
    ensures
        counts.counts_of(tokens(lowercase_of(text@))),
{
    let lowered: String = to_lowercase(text);
    count_features(lowered.as_str())
}

} // verus!
