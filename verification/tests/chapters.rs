use tolstoi::{chapterize, is_book_end, is_chapter_start, to_trimmed_lines, tokenize};

#[test]
fn should_trim_string() {
    let string = String::from(" foo  ");
    let result = to_trimmed_lines(&string);
    assert_eq!(result, vec!["foo"]);
}

#[test]
fn should_split_string_into_lines() {
    let string = String::from("foo\nbar");
    let result = to_trimmed_lines(&string);
    assert_eq!(result, vec!["foo", "bar"]);
}

#[test]
fn should_split_string_into_trimmed_lines() {
    let string = String::from("  foo \n  bar ");
    let result = to_trimmed_lines(&string);
    assert_eq!(result, vec!["foo", "bar"]);
}

#[test]
fn should_chapterize_book_correctly() {
    let book = "\
Before chapter.
CHAPTER 1
Content 1
CHAPTER 2
Content 2
**** END OF THE PROJECT GUTENBERG EBOOK, WAR AND PEACE ****
After book end.";
    let chapters = chapterize(book);
    let expected = vec!["CHAPTER 1 Content 1", "CHAPTER 2 Content 2"];
    assert_eq!(chapters, expected);
}

#[test]
fn line_should_end_book() {
    let line = "**** END OF THE PROJECT GUTENBERG EBOOK, WAR AND PEACE ****";
    let result = is_book_end(line);
    assert_eq!(result, true);
}

#[test]
fn line_should_not_end_book() {
    let line = "**** END OF THE PROJECT GUTENBERG EBOOK WAR AND PEACE ****";
    let result = is_book_end(line);
    assert_eq!(result, false);
}

#[test]
fn line_should_start_chapter() {
    let line = "CHAPTER 1";
    let result = is_chapter_start(line);
    assert_eq!(result, true);
}

#[test]
fn line_should_not_start_chapter() {
    let line = "chapter 1";
    let result = is_chapter_start(line);
    assert_eq!(result, false);
}

#[test]
fn should_tokenize_chapters_correctly() {
    let book = "\
Before chapter.
CHAPTER 1
Content 1
CHAPTER 2
Content 2
**** END OF THE PROJECT GUTENBERG EBOOK, WAR AND PEACE ****
After book end.";
    let chapters = chapterize(book);
    let tokenized_chapters = tokenize(&chapters);
    let expected = vec![vec!["CHAPTER", "Content"], vec!["CHAPTER", "Content"]];
    assert_eq!(tokenized_chapters, expected);
}

#[test]
fn lines_end_at_line_feeds_and_at_carriage_return_line_feed() {
    assert_eq!(to_trimmed_lines("a\r\nb\nc"), vec!["a", "b", "c"]);
}

#[test]
fn a_final_line_feed_adds_no_line() {
    assert_eq!(to_trimmed_lines("a\nb\n"), vec!["a", "b"]);
    assert_eq!(to_trimmed_lines("a\nb"), vec!["a", "b"]);
}

#[test]
fn an_empty_text_has_no_lines() {
    let expected: Vec<&str> = vec![];
    assert_eq!(to_trimmed_lines(""), expected);
}

#[test]
fn blank_lines_become_empty_lines() {
    assert_eq!(to_trimmed_lines("a\n\n  \nb"), vec!["a", "", "", "b"]);
    assert_eq!(to_trimmed_lines("\n"), vec![""]);
}

#[test]
fn trimming_keeps_the_white_space_inside_a_line() {
    assert_eq!(to_trimmed_lines("\t a  b \u{a0}\n"), vec!["a  b"]);
}

#[test]
fn lines_keep_characters_of_several_bytes() {
    assert_eq!(to_trimmed_lines(" мир \n guerre é \n"), vec!["мир", "guerre é"]);
}

#[test]
fn a_book_without_chapter_marks_has_no_chapters() {
    let expected: Vec<String> = vec![];
    assert_eq!(chapterize("Some text.\nMore text.\nchapter 1\n"), expected);
    assert_eq!(chapterize(""), expected);
}

#[test]
fn a_book_without_end_mark_runs_to_its_last_line() {
    let book = "front\nCHAPTER 1\nfirst\nsecond\nCHAPTER 2\nlast";
    assert_eq!(
        chapterize(book),
        vec!["CHAPTER 1 first second", "CHAPTER 2 last"]
    );
}

#[test]
fn the_end_mark_stops_the_scan_at_once() {
    let book = "CHAPTER 1\nbody\nEND OF THE PROJECT GUTENBERG EBOOK, WAR AND PEACE\nCHAPTER 2\nlate";
    assert_eq!(chapterize(book), vec!["CHAPTER 1 body"]);
}

#[test]
fn an_end_mark_before_the_first_chapter_leaves_nothing() {
    let book = "END OF THE PROJECT GUTENBERG EBOOK, WAR AND PEACE\nCHAPTER 1\nbody";
    let expected: Vec<String> = vec![];
    assert_eq!(chapterize(book), expected);
}

#[test]
fn a_line_with_both_marks_begins_a_chapter() {
    let book = "CHAPTER 1\nCHAPTER X END OF THE PROJECT GUTENBERG EBOOK, WAR AND PEACE\nafter";
    assert_eq!(
        chapterize(book),
        vec![
            "CHAPTER 1",
            "CHAPTER X END OF THE PROJECT GUTENBERG EBOOK, WAR AND PEACE after"
        ]
    );
}

#[test]
fn the_chapter_mark_may_stand_anywhere_in_its_line() {
    let book = "intro\n  *** CHAPTER IV ***\ntext";
    assert_eq!(chapterize(book), vec!["  *** CHAPTER IV *** text"]);
}

#[test]
fn the_chapter_mark_needs_its_space() {
    assert_eq!(is_chapter_start("CHAPTER"), false);
    assert_eq!(is_chapter_start("CHAPTERS 1"), false);
    assert_eq!(is_chapter_start("THE CHAPTER "), true);
}

#[test]
fn chapter_lines_are_joined_by_one_space_each() {
    let book = "CHAPTER 1\n\n indented\r\nlast ";
    assert_eq!(chapterize(book), vec!["CHAPTER 1   indented last "]);
}

#[test]
fn as_many_chapters_as_marked_lines_before_the_end() {
    let book = "x\nCHAPTER 1\na\nCHAPTER 2\nCHAPTER 3\nb\nc\nEND OF THE PROJECT GUTENBERG EBOOK, WAR AND PEACE\n";
    let chapters = chapterize(book);
    assert_eq!(chapters.len(), 3);
    assert!(chapters[0].starts_with("CHAPTER 1"));
    assert!(chapters[1].starts_with("CHAPTER 2"));
    assert!(chapters[2].starts_with("CHAPTER 3"));
    assert_eq!(chapters[1], "CHAPTER 2");
}

#[test]
fn a_carriage_return_without_line_feed_stays_in_its_line() {
    let book = "CHAPTER 1\rx\nmiddle\r\r\nlast\r";
    assert_eq!(chapterize(book), vec!["CHAPTER 1\rx middle\r last\r"]);
}

#[test]
fn an_end_mark_inside_a_longer_line_stops_the_scan() {
    let book = "CHAPTER 1\nbody\n*** END OF THE PROJECT GUTENBERG EBOOK, WAR AND PEACE, vol. 1\nmore";
    assert_eq!(chapterize(book), vec!["CHAPTER 1 body"]);
    assert!(is_book_end("xEND OF THE PROJECT GUTENBERG EBOOK, WAR AND PEACEx"));
    assert!(!is_book_end("END OF THE PROJECT GUTENBERG EBOOK, WAR AND PEAC"));
    assert!(!is_book_end(""));
}
