use tolstoi::{
    calculate_avg_nearest_term_dist, calculate_term_count, calculate_term_density, Density, Ratio,
};

fn quotient(ratio: Ratio) -> f32 {
    ratio.numerator as f32 / ratio.denominator as f32
}

fn value(density: Density) -> f32 {
    density.term_count as f32 / (density.token_count as f32 * quotient(density.distance))
}

fn strings(words: &[&str]) -> Vec<String> {
    words.iter().map(|word| String::from(*word)).collect()
}

#[test]
fn calculate_term_density_should_return_1() {
    let tokenized_chapter = vec![String::from("foo")];
    let terms = vec!["foo"];
    let term_density = value(calculate_term_density(&tokenized_chapter, &terms));
    assert!((term_density - 1.0).abs() <= 0.001);
}

#[test]
fn calculate_term_density_should_return_0() {
    let tokenized_chapter = vec![String::from("bar")];
    let terms = vec!["foo"];
    let term_density = value(calculate_term_density(&tokenized_chapter, &terms));
    assert!((term_density - 0.0).abs() <= 0.001);
}

#[test]
fn calculate_term_density_should_return_0p5() {
    let tokenized_chapter = vec![
        String::from("foo"),
        String::from("bar"),
        String::from("fo"),
        String::from("baar"),
    ];
    let terms = vec!["foo", "fo"];
    let term_density = value(calculate_term_density(&tokenized_chapter, &terms));
    println!("{term_density}");
    assert!((term_density - 0.5).abs() <= 0.001);
}

#[test]
fn calculate_term_count_should_return_1() {
    let tokenized_chapter = vec![
        String::from("foo"),
        String::from("bar"),
        String::from("fo"),
        String::from("baar"),
    ];
    let terms = vec!["foo"];
    let term_count = calculate_term_count(&tokenized_chapter, &terms);
    assert_eq!(term_count, 1);
}

#[test]
fn calculate_term_count_should_return_0() {
    let tokenized_chapter = vec![
        String::from("bar"),
        String::from("fo"),
        String::from("baar"),
    ];
    let terms = vec!["foo"];
    let term_count = calculate_term_count(&tokenized_chapter, &terms);
    assert_eq!(term_count, 0);
}

#[test]
fn calculate_nearest_term_dist_should_return_1() {
    let tokenized_chapter = vec![String::from("bar")];
    let terms = vec!["bar"];
    let avg_nearest_term_dist =
        quotient(calculate_avg_nearest_term_dist(&tokenized_chapter, &terms));
    assert!((avg_nearest_term_dist - 1.0).abs() <= 0.001);
}

#[test]
fn calculate_nearest_term_dist_should_return_1p5() {
    let tokenized_chapter = vec![
        String::from("bar"),
        String::from("foo"),
        String::from("foo"),
        String::from("bar"),
    ];
    let terms = vec!["bar"];
    let avg_nearest_term_dist =
        quotient(calculate_avg_nearest_term_dist(&tokenized_chapter, &terms));
    assert!((avg_nearest_term_dist - 1.5).abs() <= 0.001);
}

#[test]
fn calculate_nearest_term_dist_should_return_1_000_000() {
    let tokenized_chapter = vec![];
    let terms = vec!["bar"];
    let avg_nearest_term_dist =
        quotient(calculate_avg_nearest_term_dist(&tokenized_chapter, &terms));
    assert!((avg_nearest_term_dist - 1_000_000.0).abs() <= 0.001);
}

#[test]
fn density_is_zero_where_no_token_is_a_term() {
    let tokens = strings(&["bar", "baz", "foo!"]);
    let terms = vec!["foo", "Bar"];
    let density = calculate_term_density(&tokens, &terms);
    assert_eq!(
        density,
        Density {
            term_count: 0,
            token_count: 3,
            distance: Ratio { numerator: 1_000_000, denominator: 1 },
        }
    );
    assert_eq!(value(density), 0.0);
}

#[test]
fn density_is_one_for_a_single_token_that_is_a_term() {
    let tokens = strings(&["foo"]);
    let terms = vec!["bar", "foo"];
    let density = calculate_term_density(&tokens, &terms);
    assert_eq!(
        density,
        Density {
            term_count: 1,
            token_count: 1,
            distance: Ratio { numerator: 1, denominator: 1 },
        }
    );
    assert_eq!(value(density), 1.0);
}

#[test]
fn density_of_two_terms_among_four_tokens() {
    let tokens = strings(&["foo", "bar", "fo", "baar"]);
    let terms = vec!["foo", "fo"];
    let density = calculate_term_density(&tokens, &terms);
    assert_eq!(
        density,
        Density {
            term_count: 2,
            token_count: 4,
            distance: Ratio { numerator: 2, denominator: 2 },
        }
    );
    assert_eq!(value(density), 0.5);
}

#[test]
fn distance_of_a_single_term_is_one() {
    let tokens = strings(&["a", "b", "bar", "c"]);
    let terms = vec!["bar"];
    assert_eq!(
        calculate_avg_nearest_term_dist(&tokens, &terms),
        Ratio { numerator: 1, denominator: 1 }
    );
}

#[test]
fn distance_between_the_first_and_the_last_of_four_tokens() {
    let tokens = strings(&["bar", "foo", "foo", "bar"]);
    let terms = vec!["bar"];
    let distance = calculate_avg_nearest_term_dist(&tokens, &terms);
    assert_eq!(distance, Ratio { numerator: 3, denominator: 2 });
    assert_eq!(quotient(distance), 1.5);
}

#[test]
fn distance_without_any_term_is_a_million() {
    let terms = vec!["bar"];
    assert_eq!(
        calculate_avg_nearest_term_dist(&strings(&[]), &terms),
        Ratio { numerator: 1_000_000, denominator: 1 }
    );
    assert_eq!(
        calculate_avg_nearest_term_dist(&strings(&["a", "b"]), &terms),
        Ratio { numerator: 1_000_000, denominator: 1 }
    );
    let no_terms: Vec<&str> = vec![];
    let distance = calculate_avg_nearest_term_dist(&strings(&["a", "b"]), &no_terms);
    assert_eq!(distance, Ratio { numerator: 1_000_000, denominator: 1 });
    assert_eq!(quotient(distance), 1_000_000.0);
}

#[test]
fn gaps_add_up_between_neighbouring_terms() {
    // terms at 1, 2, 5 and 9: gaps 1, 3 and 4
    let tokens = strings(&["x", "war", "gun", "x", "x", "war", "x", "x", "x", "gun", "x"]);
    let terms = vec!["gun", "war"];
    assert_eq!(calculate_term_count(&tokens, &terms), 4);
    assert_eq!(
        calculate_avg_nearest_term_dist(&tokens, &terms),
        Ratio { numerator: 8, denominator: 4 }
    );
    assert_eq!(
        calculate_term_density(&tokens, &terms),
        Density {
            term_count: 4,
            token_count: 11,
            distance: Ratio { numerator: 8, denominator: 4 },
        }
    );
}

#[test]
fn terms_match_whole_tokens_and_mind_the_case() {
    let tokens = strings(&["Peace", "peace", "peaceful", "pea", "peace"]);
    let terms = vec!["peace"];
    assert_eq!(calculate_term_count(&tokens, &terms), 2);
    assert_eq!(
        calculate_avg_nearest_term_dist(&tokens, &terms),
        Ratio { numerator: 3, denominator: 2 }
    );
}

#[test]
fn terms_of_several_bytes_are_compared_by_their_characters() {
    let tokens = strings(&["мир", "война", "миру", "é", "e"]);
    let terms = vec!["мир", "é"];
    assert_eq!(calculate_term_count(&tokens, &terms), 2);
}

#[test]
fn a_term_listed_twice_counts_a_token_once() {
    let tokens = strings(&["foo", "foo", "bar"]);
    let terms = vec!["foo", "foo"];
    assert_eq!(calculate_term_count(&tokens, &terms), 2);
    assert_eq!(
        calculate_avg_nearest_term_dist(&tokens, &terms),
        Ratio { numerator: 1, denominator: 2 }
    );
}

#[test]
fn a_chapter_without_tokens_has_no_density() {
    let terms = vec!["foo"];
    let density = calculate_term_density(&strings(&[]), &terms);
    assert_eq!(
        density,
        Density {
            term_count: 0,
            token_count: 0,
            distance: Ratio { numerator: 1_000_000, denominator: 1 },
        }
    );
    assert!(value(density).is_nan());
}

#[test]
fn an_empty_term_matches_an_empty_token_only() {
    let tokens = strings(&["a", "", "b"]);
    let terms = vec![""];
    assert_eq!(calculate_term_count(&tokens, &terms), 1);
    assert_eq!(calculate_term_count(&strings(&["a", "b"]), &terms), 0);
}
