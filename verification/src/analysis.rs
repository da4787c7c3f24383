//! From the raw texts to the densities of every chapter.

use crate::chapters::{chapterize, chapters_of};
use crate::density::{calculate_term_density, is_density_of, Density};
use crate::lines::{to_trimmed_lines, trimmed_lines_of};
use crate::tokens::{tokens_in, tokens_of};
use vstd::prelude::*;

verus! {

/// The densities of the two vocabularies in one chapter.
#[derive(Clone, Copy, Debug, PartialEq, Eq)]
pub struct ChapterDensities {
    pub peace: Density,
    pub war: Density,
}

/// The terms that a vocabulary text lists: its lines, each without the white
/// space around it, except those that are then empty.
pub open spec fn terms_of(text: Seq<char>) -> Seq<Seq<char>> {
    trimmed_lines_of(text).filter(|term: Seq<char>| term.len() > 0)
}

/// The terms that `text` lists, one to a line.
pub fn terms_in<'a>(text: &'a str) -> (terms: Vec<&'a str>)
    ensures
        terms.deep_view() == terms_of(text@),
{
    let lines = to_trimmed_lines(text);
    let ghost keep = |term: Seq<char>| term.len() > 0;
    let mut terms: Vec<&'a str> = Vec::new();
    let mut i: usize = 0;
    proof {
        reveal(Seq::filter);
        assert(lines.deep_view().take(0).filter(keep) =~= terms.deep_view());
    }
    while i < lines.len()
        invariant
            i <= lines.len(),
            keep == |term: Seq<char>| term.len() > 0,
            terms.deep_view() == lines.deep_view().take(i as int).filter(keep),
        decreases lines.len() - i,
    {
        let line = lines[i];
        let ghost before = terms.deep_view();
        proof {
            let seen = lines.deep_view().take(i as int);
            assert(lines.deep_view().take(i + 1) =~= seen.push(line@));
            seen.lemma_filter_push(line@, keep);
        }
        if !line.is_empty() {
            terms.push(line);
            assert(terms.deep_view() =~= before.push(line@));
        }
        i += 1;
    }
    assert(lines.deep_view().take(i as int) =~= lines.deep_view());
    terms
}

/// Scores every chapter of `book` against the two vocabularies.
///
/// The result holds one entry for each chapter, in the order in which the
/// chapters begin in the book: the densities, in the chapter's tokens, of
/// the terms that `peace_terms` lists and of those that `war_terms` lists.
pub fn score_chapters(book: &str, peace_terms: &str, war_terms: &str) -> (scores: Vec<
    ChapterDensities,
>)
    ensures
        scores.len() == chapters_of(book@).len(),
        forall|i: int|
            0 <= i < scores.len() ==> is_density_of(
                (#[trigger] scores[i]).peace,
                tokens_of(chapters_of(book@)[i]),
                terms_of(peace_terms@),
            ) && is_density_of(
                scores[i].war,
                tokens_of(chapters_of(book@)[i]),
                terms_of(war_terms@),
            ),
{
    let chapters = chapterize(book);
    let peace = terms_in(peace_terms);
    let war = terms_in(war_terms);
    let mut scores: Vec<ChapterDensities> = Vec::new();
    let mut i: usize = 0;
    while i < chapters.len()
        invariant
            i <= chapters.len(),
            chapters.deep_view() == chapters_of(book@),
            peace.deep_view() == terms_of(peace_terms@),
            war.deep_view() == terms_of(war_terms@),
            scores.len() == i,
            forall|k: int|
                0 <= k < i ==> is_density_of(
                    (#[trigger] scores[k]).peace,
                    tokens_of(chapters_of(book@)[k]),
                    terms_of(peace_terms@),
                ) && is_density_of(
                    scores[k].war,
                    tokens_of(chapters_of(book@)[k]),
                    terms_of(war_terms@),
                ),
        decreases chapters.len() - i,
    {
        let tokens = tokens_in(chapters[i].as_str());
        assert(chapters.deep_view()[i as int] == chapters@[i as int]@);
        let entry = ChapterDensities {
            peace: calculate_term_density(&tokens, &peace),
            war: calculate_term_density(&tokens, &war),
        };
        scores.push(entry);
        i += 1;
    }
    assert(chapters.deep_view().len() == chapters.len());
    scores
}

} // verus!
