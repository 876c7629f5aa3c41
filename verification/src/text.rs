//! Characters, whitespace and tokens.

use vstd::prelude::*;
use vstd::std_specs::iter::IteratorSpec;

verus! {

/// Whether `c` is a Unicode white-space character.
pub open spec fn is_whitespace(c: char) -> bool {
    let u = c as u32;
    ||| 0x09 <= u <= 0x0d
    ||| u == 0x20
    ||| u == 0x85
    ||| u == 0xa0
    ||| u == 0x1680
    ||| 0x2000 <= u <= 0x200a
    ||| u == 0x2028
    ||| u == 0x2029
    ||| u == 0x202f
    ||| u == 0x205f
    ||| u == 0x3000
}

/// The length of the run of non-white-space characters that `s` starts with.
pub open spec fn run_length(s: Seq<char>) -> int
    decreases s.len(),
{
    if s.len() == 0 || is_whitespace(s[0]) {
        0
    } else {
        1 + run_length(s.drop_first())
    }
}

/// The tokens of `s`: its maximal runs of non-white-space characters, in
/// order of appearance.
pub open spec fn tokens(s: Seq<char>) -> Seq<Seq<char>>
    decreases s.len(),
{
    if s.len() == 0 {
        Seq::empty()
    } else if is_whitespace(s[0]) {
        tokens(s.drop_first())
    } else {
        proof {
            lemma_run_length(s);
        }
        seq![s.take(run_length(s))] + tokens(s.skip(run_length(s)))
    }
}

/// The leading run lies within `s`, holds no white space, is not empty when
/// `s` starts with a character that is not white space, and ends at the end
/// of `s` or before a white-space character.
pub proof fn lemma_run_length(s: Seq<char>)
    ensures
        0 <= run_length(s) <= s.len(),
        s.len() > 0 && !is_whitespace(s[0]) ==> run_length(s) >= 1,
        forall|i: int| 0 <= i < run_length(s) ==> !is_whitespace(#[trigger] s[i]),
        run_length(s) < s.len() ==> is_whitespace(s[run_length(s)]),
    decreases s.len(),
{
    if s.len() > 0 && !is_whitespace(s[0]) {
        let rest = s.drop_first();
        lemma_run_length(rest);
        assert forall|i: int| 0 <= i < run_length(s) implies !is_whitespace(#[trigger] s[i]) by {
            if i > 0 {
                assert(s[i] == rest[i - 1]);
            }
        }
        if run_length(s) < s.len() {
            assert(s[run_length(s)] == rest[run_length(rest)]);
        }
    }
}

/// Whether every character of `s` is white space (so also when `s` is empty).
pub open spec fn is_blank(s: Seq<char>) -> bool {
    forall|i: int| 0 <= i < s.len() ==> is_whitespace(#[trigger] s[i])
}

/// Tests `c` for white space.
pub fn char_is_whitespace(c: char) -> (b: bool)
    ensures
        b == is_whitespace(c),
{
    let u: u32 = c as u32;
    (0x09 <= u && u <= 0x0d) || u == 0x20 || u == 0x85 || u == 0xa0 || u == 0x1680 || (0x2000 <= u
        && u <= 0x200a) || u == 0x2028 || u == 0x2029 || u == 0x202f || u == 0x205f || u
        == 0x3000
}

/// The characters of `s`.
pub fn chars_of(s: &str) -> (v: Vec<char>)
    ensures
        v@ == s@,
{
    let mut v: Vec<char> = Vec::new();
    let mut it = s.chars();
    for c in iter: it
        invariant
            v@ == iter.seq().take(iter.index() as int),
            iter.seq() == s@,
    {
        v.push(c);
    }
    v
}

/// A run that is known from its two ends has the length `n`.
pub proof fn lemma_run_length_is(s: Seq<char>, n: int)
    requires
        0 <= n <= s.len(),
        forall|i: int| 0 <= i < n ==> !is_whitespace(#[trigger] s[i]),
        n == s.len() || is_whitespace(s[n]),
    ensures
        run_length(s) == n,
    decreases n,
{
    if n > 0 {
        let rest = s.drop_first();
        assert forall|i: int| 0 <= i < n - 1 implies !is_whitespace(#[trigger] rest[i]) by {
            assert(rest[i] == s[i + 1]);
        }
        lemma_run_length_is(rest, n - 1);
    }
}

/// No token is empty and no token holds white space.
pub proof fn lemma_tokens_are_words(s: Seq<char>)
    ensures
        forall|k: int|
            0 <= k < tokens(s).len() ==> (#[trigger] tokens(s)[k]).len() > 0 && forall|i: int|
                0 <= i < tokens(s)[k].len() ==> !is_whitespace(#[trigger] tokens(s)[k][i]),
        tokens(s).len() <= s.len(),
    decreases s.len(),
{
    if s.len() == 0 {
    } else if is_whitespace(s[0]) {
        lemma_tokens_are_words(s.drop_first());
    } else {
        lemma_run_length(s);
        let n = run_length(s);
        lemma_tokens_are_words(s.skip(n));
        let first = s.take(n);
        let rest = tokens(s.skip(n));
        assert forall|k: int| 0 <= k < tokens(s).len() implies (#[trigger] tokens(s)[k]).len() > 0
            && forall|i: int|
            0 <= i < tokens(s)[k].len() ==> !is_whitespace(#[trigger] tokens(s)[k][i]) by {
            if k == 0 {
                assert(tokens(s)[0] == first);
                assert forall|i: int| 0 <= i < first.len() implies !is_whitespace(
                    #[trigger] first[i],
                ) by {
                    assert(first[i] == s[i]);
                }
            } else {
                assert(tokens(s)[k] == rest[k - 1]);
            }
        }
    }
}

/// Text without a character that is not white space has no token.
pub proof fn lemma_blank_has_no_tokens(s: Seq<char>)
    requires
        is_blank(s),
    ensures
        tokens(s) == Seq::<Seq<char>>::empty(),
    decreases s.len(),
{
    if s.len() > 0 {
        let rest = s.drop_first();
        assert(is_whitespace(s[0]));
        assert forall|i: int| 0 <= i < rest.len() implies is_whitespace(#[trigger] rest[i]) by {
            assert(rest[i] == s[i + 1]);
        }
        lemma_blank_has_no_tokens(rest);
    }
}

/// Splits `chars` into its tokens.
pub fn tokenize(chars: &Vec<char>) -> (toks: Vec<Vec<char>>)
    ensures
        toks.deep_view() == tokens(chars@),
{
    let n: usize = chars.len();
    let mut toks: Vec<Vec<char>> = Vec::new();
    let mut i: usize = 0;
    proof {
        assert(chars@.skip(0) =~= chars@);
        assert(toks.deep_view() + tokens(chars@) =~= tokens(chars@));
    }
    while i < n
        invariant
            n == chars@.len(),
            i <= n,
            tokens(chars@) == toks.deep_view() + tokens(chars@.skip(i as int)),
        decreases n - i,
    {
        let ghost rest = chars@.skip(i as int);
        assert(rest[0] == chars@[i as int]);
        if char_is_whitespace(chars[i]) {
            proof {
                assert(rest.drop_first() =~= chars@.skip(i + 1));
            }
            i += 1;
        } else {
            let mut tok: Vec<char> = Vec::new();
            let mut j: usize = i;
            while j < n && !char_is_whitespace(chars[j])
                invariant
                    n == chars@.len(),
                    i <= j <= n,
                    tok@ == chars@.subrange(i as int, j as int),
                    forall|m: int| i <= m < j ==> !is_whitespace(#[trigger] chars@[m]),
                decreases n - j,
            {
                tok.push(chars[j]);
                proof {
                    assert(tok@ =~= chars@.subrange(i as int, j + 1));
                }
                j += 1;
            }
            let ghost before = toks.deep_view();
            let ghost stored = toks@;
            proof {
                assert forall|m: int| 0 <= m < j - i implies !is_whitespace(#[trigger] rest[m]) by {
                    assert(rest[m] == chars@[i + m]);
                }
                if j < n {
                    assert(rest[j - i] == chars@[j as int]);
                }
                lemma_run_length_is(rest, j - i);
                assert(rest.take(j - i) =~= tok@);
                assert(rest.skip(j - i) =~= chars@.skip(j as int));
            }
            toks.push(tok);
            proof {
                assert(toks.deep_view() =~= before.push(tok@)) by {
                    assert forall|m: int| 0 <= m < toks@.len() implies toks.deep_view()[m]
                        == before.push(tok@)[m] by {
                        if m < stored.len() {
                            assert(toks@[m] == stored[m]);
                        } else {
                            assert(toks@[m] == tok);
                            assert(tok.deep_view() =~= tok@);
                        }
                    }
                }
                assert(before.push(tok@) + tokens(chars@.skip(j as int)) =~= before + (seq![
                    tok@,
                ] + tokens(chars@.skip(j as int))));
            }
            i = j;
        }
    }
    proof {
        assert(toks.deep_view() + Seq::<Seq<char>>::empty() =~= toks.deep_view());
    }
    toks
}

} // verus!
