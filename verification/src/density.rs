//! How densely, and how closely together, the terms of a vocabulary stand in
//! a chapter.
//!
//! The density of a vocabulary in a chapter is
//! `term_count / (token_count * average_distance)`. Everything is counted in
//! whole numbers here: the average distance is kept as a quotient of two
//! counts, and the density as the counts it is made of, so that nothing is
//! rounded before the caller chooses a number format.

use crate::positions::{lemma_marked, marked};
use crate::text::same_text;
use vstd::prelude::*;

verus! {

/// The distance given to a chapter in which no term stands. It is large, so
/// that such a chapter's density is small.
pub const NO_TERM_DISTANCE: usize = 1_000_000;

/// A quotient of two counts.
#[derive(Clone, Copy, Debug, PartialEq, Eq)]
pub struct Ratio {
    pub numerator: usize,
    pub denominator: usize,
}

/// What the density of a vocabulary in a chapter is made of.
///
/// Its value is `term_count / (token_count * distance)`. For a chapter
/// without tokens `token_count` is zero and the density has no value.
#[derive(Clone, Copy, Debug, PartialEq, Eq)]
pub struct Density {
    /// How many of the chapter's tokens are terms.
    pub term_count: usize,
    /// How many tokens the chapter has.
    pub token_count: usize,
    /// The average distance between one term and the next.
    pub distance: Ratio,
}

impl Density {
    /// Whether the density has a value: the chapter has a token.
    pub open spec fn is_defined(self) -> bool {
        self.token_count > 0
    }

    /// The numerator of the density, written as one quotient.
    pub open spec fn numerator(self) -> int {
        self.term_count * self.distance.denominator
    }

    /// The denominator of the density, written as one quotient.
    pub open spec fn denominator(self) -> int {
        self.token_count * self.distance.numerator
    }
}

/// Whether `token` is one of `terms`, character for character.
pub open spec fn is_term(token: Seq<char>, terms: Seq<Seq<char>>) -> bool {
    terms.contains(token)
}

/// The positions in `tokens` at which a term stands, ascending.
pub open spec fn term_positions(tokens: Seq<Seq<char>>, terms: Seq<Seq<char>>) -> Seq<int> {
    marked(tokens.map_values(|token: Seq<char>| is_term(token, terms)))
}

/// How many of `tokens` are terms; a token that stands twice counts twice.
pub open spec fn term_count(tokens: Seq<Seq<char>>, terms: Seq<Seq<char>>) -> nat {
    term_positions(tokens, terms).len()
}

/// The sum of the gaps between each of `positions` and the one before it.
pub open spec fn gap_sum(positions: Seq<int>) -> int
    decreases positions.len(),
{
    if positions.len() <= 1 {
        0
    } else {
        gap_sum(positions.drop_last()) + (positions.last() - positions[positions.len() - 2])
    }
}

/// The numerator of the average distance between the terms in `tokens`:
/// `NO_TERM_DISTANCE` where no term stands, else the sum of the gaps
/// between the terms, and 1 in place of a sum of 0.
pub open spec fn distance_numerator(tokens: Seq<Seq<char>>, terms: Seq<Seq<char>>) -> int {
    let positions = term_positions(tokens, terms);
    if positions.len() == 0 {
        NO_TERM_DISTANCE as int
    } else if gap_sum(positions) == 0 {
        1
    } else {
        gap_sum(positions)
    }
}

/// The denominator of the average distance between the terms in `tokens`:
/// 1 where no term stands, else the number of terms.
pub open spec fn distance_denominator(tokens: Seq<Seq<char>>, terms: Seq<Seq<char>>) -> int {
    let positions = term_positions(tokens, terms);
    if positions.len() == 0 {
        1
    } else {
        positions.len() as int
    }
}

/// Whether `density` is the density of `terms` in `tokens`.
pub open spec fn is_density_of(
    density: Density,
    tokens: Seq<Seq<char>>,
    terms: Seq<Seq<char>>,
) -> bool {
    &&& density.term_count == term_count(tokens, terms)
    &&& density.token_count == tokens.len()
    &&& density.distance.numerator == distance_numerator(tokens, terms)
    &&& density.distance.denominator == distance_denominator(tokens, terms)
}

/// What one more token does to the positions of the terms: a term's own
/// position joins them, any other token leaves them as they were.
proof fn lemma_term_positions_step(tokens: Seq<Seq<char>>, terms: Seq<Seq<char>>, i: int)
    requires
        0 <= i < tokens.len(),
    ensures
        term_positions(tokens.take(i + 1), terms) == if is_term(tokens[i], terms) {
            term_positions(tokens.take(i), terms).push(i)
        } else {
            term_positions(tokens.take(i), terms)
        },
{
    let listed = |token: Seq<char>| is_term(token, terms);
    assert(tokens.take(i + 1).map_values(listed).drop_last() =~= tokens.take(i).map_values(
        listed,
    ));
}

/// The counts that a density is made of keep within bounds: there are no
/// more terms than tokens, numerator and denominator of the average distance
/// are at least 1, and where a term stands the numerator is at most the
/// number of tokens and the denominator is the number of terms.
pub proof fn lemma_density_bounds(tokens: Seq<Seq<char>>, terms: Seq<Seq<char>>)
    ensures
        term_count(tokens, terms) <= tokens.len(),
        distance_numerator(tokens, terms) >= 1,
        distance_denominator(tokens, terms) >= 1,
        term_count(tokens, terms) > 0 ==> distance_numerator(tokens, terms) <= tokens.len()
            && distance_denominator(tokens, terms) == term_count(tokens, terms),
{
    let positions = term_positions(tokens, terms);
    lemma_marked(tokens.map_values(|token: Seq<char>| is_term(token, terms)));
    if positions.len() > 0 {
        lemma_gap_sum_is_span(positions);
        if positions.len() > 1 {
            assert(positions[0] < positions[positions.len() - 1]);
        }
    }
}

/// Where no token is a term, the average distance is `NO_TERM_DISTANCE`, and
/// the density, of a chapter that has tokens, is zero: a numerator of 0 over
/// a denominator that is not.
pub proof fn lemma_density_without_terms(
    tokens: Seq<Seq<char>>,
    terms: Seq<Seq<char>>,
    density: Density,
)
    requires
        forall|i: int| 0 <= i < tokens.len() ==> !is_term(#[trigger] tokens[i], terms),
        is_density_of(density, tokens, terms),
    ensures
        density.term_count == 0,
        density.distance.numerator == NO_TERM_DISTANCE,
        density.distance.denominator == 1,
        tokens.len() > 0 ==> density.is_defined() && density.numerator() == 0
            && density.denominator() > 0,
{
    let flags = tokens.map_values(|token: Seq<char>| is_term(token, terms));
    lemma_marked(flags);
    if marked(flags).len() > 0 {
        assert(flags[marked(flags)[0]]);
    }
    if tokens.len() > 0 {
        assert(density.denominator() == tokens.len() * NO_TERM_DISTANCE);
        assert(tokens.len() * NO_TERM_DISTANCE > 0) by (nonlinear_arith)
            requires
                tokens.len() > 0,
                NO_TERM_DISTANCE > 0,
        ;
    }
}

/// The average distance is exactly `NO_TERM_DISTANCE` where no term stands.
pub proof fn lemma_distance_without_terms(tokens: Seq<Seq<char>>, terms: Seq<Seq<char>>)
    requires
        term_count(tokens, terms) == 0,
    ensures
        distance_numerator(tokens, terms) == NO_TERM_DISTANCE,
        distance_denominator(tokens, terms) == 1,
{
}

/// The average distance is 1 where exactly one term stands: there is no gap
/// to add up, so 1 stands for the sum, over one term.
pub proof fn lemma_distance_of_single_term(tokens: Seq<Seq<char>>, terms: Seq<Seq<char>>)
    requires
        term_count(tokens, terms) == 1,
    ensures
        distance_numerator(tokens, terms) == 1,
        distance_denominator(tokens, terms) == 1,
{
}

/// The density of a chapter of one token that is a term is 1: numerator and
/// denominator are the same.
pub proof fn lemma_density_of_single_term(
    tokens: Seq<Seq<char>>,
    terms: Seq<Seq<char>>,
    density: Density,
)
    requires
        tokens.len() == 1,
        is_term(tokens[0], terms),
        is_density_of(density, tokens, terms),
    ensures
        density.term_count == 1,
        density.token_count == 1,
        density.distance.numerator == 1,
        density.distance.denominator == 1,
        density.numerator() == density.denominator() == 1,
{
    lemma_term_positions_step(tokens, terms, 0);
    assert(tokens.take(1) =~= tokens);
    assert(tokens.take(0).map_values(|token: Seq<char>| is_term(token, terms)).len() == 0);
}

/// Two vocabularies that agree on which tokens of a chapter are terms have
/// the same density in it, count for count.
pub proof fn lemma_same_terms_same_density(
    tokens: Seq<Seq<char>>,
    first: Seq<Seq<char>>,
    second: Seq<Seq<char>>,
    first_density: Density,
    second_density: Density,
)
    requires
        forall|i: int|
            0 <= i < tokens.len() ==> is_term(#[trigger] tokens[i], first) == is_term(
                tokens[i],
                second,
            ),
        is_density_of(first_density, tokens, first),
        is_density_of(second_density, tokens, second),
    ensures
        first_density == second_density,
{
    assert(tokens.map_values(|token: Seq<char>| is_term(token, first)) =~= tokens.map_values(
        |token: Seq<char>| is_term(token, second),
    ));
}

/// The gaps between positions add up to the distance from the first
/// position to the last.
pub proof fn lemma_gap_sum_is_span(positions: Seq<int>)
    requires
        positions.len() > 0,
    ensures
        gap_sum(positions) == positions.last() - positions[0],
    decreases positions.len(),
{
    if positions.len() > 1 {
        lemma_gap_sum_is_span(positions.drop_last());
    }
}

/// Whether `token` is one of `terms`.
pub fn is_listed(token: &str, terms: &Vec<&str>) -> (b: bool)
    ensures
        b == is_term(token@, terms.deep_view()),
{
    let mut i: usize = 0;
    while i < terms.len()
        invariant
            i <= terms.len(),
            forall|k: int| 0 <= k < i ==> terms.deep_view()[k] != token@,
        decreases terms.len() - i,
    {
        if same_text(token, terms[i]) {
            assert(terms.deep_view()[i as int] == token@);
            return true;
        }
        i += 1;
    }
    false
}

/// Counts the tokens of the chapter that are terms.
pub fn calculate_term_count(tokenized_chapter: &Vec<String>, terms: &Vec<&str>) -> (count: usize)
    ensures
        count == term_count(tokenized_chapter.deep_view(), terms.deep_view()),
{
    let ghost tokens = tokenized_chapter.deep_view();
    let mut count: usize = 0;
    let mut i: usize = 0;
    while i < tokenized_chapter.len()
        invariant
            i <= tokenized_chapter.len(),
            tokens == tokenized_chapter.deep_view(),
            count == term_count(tokens.take(i as int), terms.deep_view()),
            count <= i,
        decreases tokenized_chapter.len() - i,
    {
        proof {
            lemma_term_positions_step(tokens, terms.deep_view(), i as int);
            assert(tokens[i as int] == tokenized_chapter@[i as int]@);
        }
        if is_listed(tokenized_chapter[i].as_str(), terms) {
            count += 1;
        }
        i += 1;
    }
    assert(tokens.take(i as int) =~= tokens);
    count
}

/// The average distance between one term and the next in the chapter, as a
/// quotient.
///
/// Where no token is a term it is `NO_TERM_DISTANCE / 1`. Otherwise it is the
/// sum of the gaps between each term's position and that of the term before
/// it, over the number of terms; where that sum is 0, as it is for a single
/// term, 1 stands in its place.
pub fn calculate_avg_nearest_term_dist(tokenized_chapter: &Vec<String>, terms: &Vec<&str>) -> (avg:
    Ratio)
    ensures
        avg.numerator == distance_numerator(tokenized_chapter.deep_view(), terms.deep_view()),
        avg.denominator == distance_denominator(tokenized_chapter.deep_view(), terms.deep_view()),
{
    let ghost tokens = tokenized_chapter.deep_view();
    let ghost mut positions: Seq<int> = Seq::empty();
    let mut found: usize = 0;
    let mut previous: usize = 0;
    let mut sum: usize = 0;
    let mut i: usize = 0;
    while i < tokenized_chapter.len()
        invariant
            i <= tokenized_chapter.len(),
            tokens == tokenized_chapter.deep_view(),
            positions == term_positions(tokens.take(i as int), terms.deep_view()),
            found == positions.len(),
            sum == gap_sum(positions),
            found > 0 ==> previous == positions.last() && previous < i && 0 <= positions[0]
                <= previous,
        decreases tokenized_chapter.len() - i,
    {
        proof {
            lemma_term_positions_step(tokens, terms.deep_view(), i as int);
            assert(tokens[i as int] == tokenized_chapter@[i as int]@);
            lemma_marked(
                tokens.take(i as int).map_values(
                    |token: Seq<char>| is_term(token, terms.deep_view()),
                ),
            );
            if found > 0 {
                lemma_gap_sum_is_span(positions);
            }
        }
        if is_listed(tokenized_chapter[i].as_str(), terms) {
            proof {
                assert(positions.push(i as int).drop_last() =~= positions);
            }
            if found > 0 {
                sum += i - previous;
            }
            previous = i;
            found += 1;
            proof {
                positions = positions.push(i as int);
            }
        }
        i += 1;
    }
    assert(tokens.take(i as int) =~= tokens);
    if found == 0 {
        Ratio { numerator: NO_TERM_DISTANCE, denominator: 1 }
    } else if sum == 0 {
        Ratio { numerator: 1, denominator: found }
    } else {
        Ratio { numerator: sum, denominator: found }
    }
}

/// The density of `terms` in the chapter, as the counts it is made of.
///
/// A chapter without tokens has no density: the result then has a
/// `token_count` of 0, and `is_defined` tells so.
pub fn calculate_term_density(tokenized_chapter: &Vec<String>, terms: &Vec<&str>) -> (density:
    Density)
    ensures
        is_density_of(density, tokenized_chapter.deep_view(), terms.deep_view()),
{
    Density {
        term_count: calculate_term_count(tokenized_chapter, terms),
        token_count: tokenized_chapter.len(),
        distance: calculate_avg_nearest_term_dist(tokenized_chapter, terms),
    }
}

} // verus!
