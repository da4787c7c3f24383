//! Cutting a chapter's text into word tokens.

use crate::positions::{lemma_filter_keeps_marked, lemma_marked, marked};
use crate::text::{
    alphabetic, chars_of, leading, lemma_leading_bounds, lemma_trimmed_ends, scan_forward,
    string_of, trim_range, trimmed, CharClass,
};
use vstd::prelude::*;

verus! {

/// The words of `text`: its maximal runs of characters that are not white
/// space, in the order in which they stand.
pub open spec fn words_of(text: Seq<char>) -> Seq<Seq<char>>
    decreases text.len(),
    via words_of_decreases
{
    let rest = text.skip(leading(text, CharClass::Space) as int);
    let len = leading(rest, CharClass::NonSpace) as int;
    if len == 0 {
        Seq::empty()
    } else {
        seq![rest.take(len)] + words_of(rest.skip(len))
    }
}

#[via_fn]
proof fn words_of_decreases(text: Seq<char>) {
    lemma_leading_bounds(text, CharClass::Space);
    lemma_leading_bounds(text.skip(leading(text, CharClass::Space) as int), CharClass::NonSpace);
}

/// The token that `word` gives: the word without the characters at its
/// start and at its end that are not alphabetic. Characters inside it stay.
pub open spec fn token_of(word: Seq<char>) -> Seq<char> {
    trimmed(word, CharClass::NonLetter)
}

/// The tokens that `words` give: the token of each word, in the words'
/// order, without those that are empty.
pub open spec fn tokens_from(words: Seq<Seq<char>>) -> Seq<Seq<char>> {
    words.map_values(|word: Seq<char>| token_of(word)).filter(|token: Seq<char>| token.len() > 0)
}

/// The tokens of `text`: those that its words give.
pub open spec fn tokens_of(text: Seq<char>) -> Seq<Seq<char>> {
    tokens_from(words_of(text))
}

/// The indices of the words among `words` that give a token, ascending.
pub open spec fn token_sources(words: Seq<Seq<char>>) -> Seq<int> {
    marked(words.map_values(|word: Seq<char>| token_of(word).len() > 0))
}

/// The tokens of a text whose first word is `word` and whose other words are
/// those of `rest`.
proof fn lemma_tokens_step(text: Seq<char>, word: Seq<char>, rest: Seq<char>)
    requires
        words_of(text) == seq![word] + words_of(rest),
    ensures
        tokens_of(text) == (if token_of(word).len() > 0 {
            seq![token_of(word)]
        } else {
            Seq::empty()
        }) + tokens_of(rest),
{
    let give = |word: Seq<char>| token_of(word);
    let keep = |token: Seq<char>| token.len() > 0;
    let first = seq![word].map_values(give);
    let later = words_of(rest).map_values(give);
    assert(words_of(text).map_values(give) =~= first + later);
    Seq::filter_distributes_over_add(first, later, keep);
    assert(first =~= Seq::<Seq<char>>::empty().push(token_of(word)));
    Seq::<Seq<char>>::empty().lemma_filter_push(token_of(word), keep);
    reveal(Seq::filter);
    assert(Seq::<Seq<char>>::empty().filter(keep) =~= Seq::<Seq<char>>::empty());
}

/// A token is a run of characters of its word. Where it is not empty it
/// begins and ends with an alphabetic character, and so never consists of
/// other characters alone.
pub proof fn lemma_token_has_letters(word: Seq<char>)
    ensures
        exists|from: int|
            0 <= from && from + token_of(word).len() <= word.len() && token_of(word)
                == #[trigger] word.subrange(from, from + token_of(word).len()),
        token_of(word).len() > 0 ==> alphabetic(token_of(word)[0]) && alphabetic(
            token_of(word).last(),
        ),
{
    lemma_trimmed_ends(word, CharClass::NonLetter);
    let from = leading(word, CharClass::NonLetter) as int;
    assert(token_of(word) == word.subrange(from, from + token_of(word).len()));
}

/// The tokens of a text stand in the order of the words that gave them, and
/// none is without an alphabetic character.
///
/// The token at each index comes from the word at the source index of the
/// same rank; the source indices ascend; every word whose token is not
/// empty is among them; and every token begins and ends with an alphabetic
/// character.
pub proof fn lemma_tokens_follow_words(text: Seq<char>)
    ensures
        tokens_of(text).len() == token_sources(words_of(text)).len(),
        forall|i: int|
            #![trigger tokens_of(text)[i]]
            #![trigger token_sources(words_of(text))[i]]
            0 <= i < tokens_of(text).len() ==> {
                let source = token_sources(words_of(text))[i];
                &&& 0 <= source < words_of(text).len()
                &&& tokens_of(text)[i] == token_of(words_of(text)[source])
                &&& tokens_of(text)[i].len() > 0
                &&& alphabetic(tokens_of(text)[i][0])
                &&& alphabetic(tokens_of(text)[i].last())
            },
        forall|i: int, j: int|
            0 <= i < j < tokens_of(text).len() ==> (#[trigger] token_sources(words_of(text))[i])
                < (#[trigger] token_sources(words_of(text))[j]),
        forall|k: int|
            0 <= k < words_of(text).len() && token_of(#[trigger] words_of(text)[k]).len() > 0
                ==> token_sources(words_of(text)).contains(k),
{
    let words = words_of(text);
    let give = |word: Seq<char>| token_of(word);
    let keep = |token: Seq<char>| token.len() > 0;
    let gives = |word: Seq<char>| token_of(word).len() > 0;
    let given = words.map_values(give);
    assert(given.map_values(keep) =~= words.map_values(gives));
    lemma_filter_keeps_marked(given, keep);
    lemma_marked(words.map_values(gives));
    assert forall|k: int|
        0 <= k < words.len() && token_of(#[trigger] words[k]).len() > 0 implies token_sources(
        words,
    ).contains(k) by {
        assert(words.map_values(gives)[k]);
    }
    assert forall|i: int|
        #![trigger tokens_of(text)[i]]
        #![trigger token_sources(words)[i]]
        0 <= i < tokens_of(text).len() implies ({
        let source = token_sources(words)[i];
        &&& 0 <= source < words.len()
        &&& tokens_of(text)[i] == token_of(words[source])
        &&& tokens_of(text)[i].len() > 0
        &&& alphabetic(tokens_of(text)[i][0])
        &&& alphabetic(tokens_of(text)[i].last())
    }) by {
        let source = token_sources(words)[i];
        assert(tokens_of(text)[i] == given[source]);
        assert(words.map_values(gives)[source]);
        lemma_token_has_letters(words[source]);
    }
}

/// Cuts `text` into its tokens.
pub fn tokens_in(text: &str) -> (tokens: Vec<String>)
    ensures
        tokens.deep_view() == tokens_of(text@),
{
    let chars = chars_of(text);
    let len = chars.len();
    let mut tokens: Vec<String> = Vec::new();
    let mut pos: usize = 0;
    let mut more = true;
    proof {
        assert(chars@.skip(0) =~= chars@);
        assert(tokens.deep_view() + tokens_of(chars@) =~= tokens_of(chars@));
    }
    while more
        invariant
            pos <= len == chars.len(),
            chars@ == text@,
            more ==> tokens_of(chars@) == tokens.deep_view() + tokens_of(chars@.skip(pos as int)),
            !more ==> tokens_of(chars@) == tokens.deep_view(),
        decreases (if more { 1int } else { 0int }), len - pos,
    {
        let start = scan_forward(&chars, pos, len, CharClass::Space);
        let end = scan_forward(&chars, start, len, CharClass::NonSpace);
        let ghost text_here = chars@.skip(pos as int);
        let ghost rest = text_here.skip(leading(text_here, CharClass::Space) as int);
        proof {
            assert(text_here =~= chars@.subrange(pos as int, len as int));
            assert(rest =~= chars@.subrange(start as int, len as int));
        }
        if end == start {
            proof {
                assert(tokens_of(text_here) =~= Seq::<Seq<char>>::empty()) by {
                    reveal(Seq::filter);
                }
                assert(tokens.deep_view() + tokens_of(text_here) =~= tokens.deep_view());
            }
            more = false;
        } else {
            let (from, to) = trim_range(&chars, start, end, CharClass::NonLetter);
            let ghost word = chars@.subrange(start as int, end as int);
            let ghost before = tokens.deep_view();
            proof {
                assert(rest.take(end - start) =~= word);
                assert(rest.skip(end - start) =~= chars@.skip(end as int));
                lemma_tokens_step(text_here, word, chars@.skip(end as int));
            }
            if from < to {
                tokens.push(string_of(&chars, from, to));
                assert(tokens.deep_view() =~= before.push(token_of(word)));
            }
            proof {
                assert(tokens_of(chars@) =~= tokens.deep_view() + tokens_of(
                    chars@.skip(end as int),
                ));
            }
            pos = end;
        }
    }
    tokens
}

/// Cuts each chapter into its tokens; the chapters keep their order.
pub fn tokenize(chapters: &Vec<String>) -> (tokenized: Vec<Vec<String>>)
    ensures
        tokenized.deep_view() == chapters.deep_view().map_values(
            |text: Seq<char>| tokens_of(text),
        ),
{
    let mut tokenized: Vec<Vec<String>> = Vec::new();
    let mut i: usize = 0;
    while i < chapters.len()
        invariant
            i <= chapters.len(),
            tokenized.deep_view() == chapters.deep_view().take(i as int).map_values(
                |text: Seq<char>| tokens_of(text),
            ),
        decreases chapters.len() - i,
    {
        let tokens = tokens_in(chapters[i].as_str());
        let ghost before = tokenized.deep_view();
        tokenized.push(tokens);
        proof {
            assert(tokenized.deep_view() =~= before.push(tokens_of(chapters@[i as int]@)));
            assert(chapters.deep_view()[i as int] == chapters@[i as int]@);
            assert(tokenized.deep_view() =~= chapters.deep_view().take(i + 1).map_values(
                |text: Seq<char>| tokens_of(text),
            ));
        }
        i += 1;
    }
    assert(chapters.deep_view().take(i as int) =~= chapters.deep_view());
    tokenized
}

} // verus!
