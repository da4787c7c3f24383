//! Cutting a book into chapters.

use crate::lines::{line_at, lines_of};
use crate::positions::{lemma_marked, lemma_marked_prefix, marked};
use crate::text::{append_range, chars_of, contains, contains_text, range_contains, string_of};
use vstd::prelude::*;

verus! {

/// A line that holds this text begins a chapter.
pub const CHAPTER_MARK: &'static str = "CHAPTER ";

/// A line that holds this text, and begins no chapter, ends the book.
pub const BOOK_END_MARK: &'static str = "END OF THE PROJECT GUTENBERG EBOOK, WAR AND PEACE";

/// Whether `line` begins a chapter.
pub open spec fn starts_chapter(line: Seq<char>) -> bool {
    contains_text(line, CHAPTER_MARK@)
}

/// Whether `line` holds the mark of the book's end.
pub open spec fn ends_book(line: Seq<char>) -> bool {
    contains_text(line, BOOK_END_MARK@)
}

/// Whether the scan of the book stops at `line`. A line that begins a
/// chapter never stops it.
pub open spec fn stops_scan(line: Seq<char>) -> bool {
    !starts_chapter(line) && ends_book(line)
}

/// The number of lines before the first one at which the scan stops.
pub open spec fn first_stop(lines: Seq<Seq<char>>) -> nat
    decreases lines.len(),
{
    if lines.len() == 0 || stops_scan(lines[0]) {
        0
    } else {
        1 + first_stop(lines.drop_first())
    }
}

/// The lines of each chapter among `lines`: a line that begins a chapter
/// opens a new one, any other line joins the chapter that is open, and the
/// lines before the first chapter belong to none.
pub open spec fn chapter_lines(lines: Seq<Seq<char>>) -> Seq<Seq<Seq<char>>>
    decreases lines.len(),
{
    if lines.len() == 0 {
        Seq::empty()
    } else {
        let before = chapter_lines(lines.drop_last());
        let line = lines.last();
        if starts_chapter(line) {
            before.push(seq![line])
        } else if before.len() > 0 {
            before.update(before.len() - 1, before.last().push(line))
        } else {
            before
        }
    }
}

/// `lines` joined by single spaces.
pub open spec fn joined(lines: Seq<Seq<char>>) -> Seq<char>
    decreases lines.len(),
{
    if lines.len() == 0 {
        Seq::empty()
    } else if lines.len() == 1 {
        lines[0]
    } else {
        joined(lines.drop_last()) + seq![' '] + lines.last()
    }
}

/// The lines of `book` that are read: those before the first line at which
/// the scan stops.
pub open spec fn scanned_lines(book: Seq<char>) -> Seq<Seq<char>> {
    let lines = lines_of(book);
    lines.take(first_stop(lines) as int)
}

/// The chapters of `book`, in the order in which they begin: the lines that
/// are read, grouped into chapters, and each chapter's lines joined by
/// single spaces.
pub open spec fn chapters_of(book: Seq<char>) -> Seq<Seq<char>> {
    chapter_lines(scanned_lines(book)).map_values(|chapter: Seq<Seq<char>>| joined(chapter))
}

/// The indices of the lines among `lines` that begin a chapter, ascending.
pub open spec fn chapter_starts(lines: Seq<Seq<char>>) -> Seq<int> {
    marked(lines.map_values(|line: Seq<char>| starts_chapter(line)))
}

/// `n` is `first_stop(lines)` exactly when the scan stops at none of the
/// first `n` lines and stops at the next one, if there is one.
pub proof fn lemma_first_stop_is(lines: Seq<Seq<char>>, n: int)
    requires
        0 <= n <= lines.len(),
        forall|j: int| 0 <= j < n ==> !stops_scan(#[trigger] lines[j]),
        n == lines.len() || stops_scan(lines[n]),
    ensures
        first_stop(lines) == n,
    decreases lines.len(),
{
    if n > 0 {
        let rest = lines.drop_first();
        assert forall|j: int| 0 <= j < n - 1 implies !stops_scan(#[trigger] rest[j]) by {
            assert(rest[j] == lines[j + 1]);
        }
        lemma_first_stop_is(rest, n - 1);
    }
}

/// `first_stop` is an index of `lines` or their number; the scan stops at
/// none of the lines before it, and stops at the line at it, if there is one.
pub proof fn lemma_first_stop(lines: Seq<Seq<char>>)
    ensures
        first_stop(lines) <= lines.len(),
        forall|j: int| 0 <= j < first_stop(lines) ==> !stops_scan(#[trigger] lines[j]),
        first_stop(lines) < lines.len() ==> stops_scan(lines[first_stop(lines) as int]),
    decreases lines.len(),
{
    if lines.len() > 0 && !stops_scan(lines[0]) {
        let rest = lines.drop_first();
        lemma_first_stop(rest);
        assert forall|j: int| 0 <= j < first_stop(lines) implies !stops_scan(
            #[trigger] lines[j],
        ) by {
            if j > 0 {
                assert(lines[j] == rest[j - 1]);
            }
        }
        if first_stop(lines) < lines.len() {
            assert(lines[first_stop(lines) as int] == rest[first_stop(rest) as int]);
        }
    }
}

/// Lines joined by spaces begin with the first of them.
pub proof fn lemma_joined_begins(lines: Seq<Seq<char>>)
    requires
        lines.len() > 0,
    ensures
        lines[0].is_prefix_of(joined(lines)),
    decreases lines.len(),
{
    if lines.len() > 1 {
        lemma_joined_begins(lines.drop_last());
        assert(lines.drop_last()[0] == lines[0]);
    }
}

/// There is one chapter for each line that begins one, in the same order,
/// and that line is the chapter's first.
pub proof fn lemma_chapter_lines_match_starts(lines: Seq<Seq<char>>)
    ensures
        chapter_lines(lines).len() == chapter_starts(lines).len(),
        forall|i: int|
            0 <= i < chapter_lines(lines).len() ==> (#[trigger] chapter_lines(lines)[i]).len() > 0
                && 0 <= chapter_starts(lines)[i] < lines.len() && chapter_lines(lines)[i][0]
                == lines[chapter_starts(lines)[i]],
    decreases lines.len(),
{
    let begins = |line: Seq<char>| starts_chapter(line);
    if lines.len() > 0 {
        let earlier = lines.drop_last();
        let before = chapter_lines(earlier);
        let now = chapter_lines(lines);
        let line = lines.last();
        lemma_chapter_lines_match_starts(earlier);
        lemma_marked(earlier.map_values(begins));
        assert(lines.map_values(begins).drop_last() =~= earlier.map_values(begins));
        assert forall|i: int| 0 <= i < now.len() implies (#[trigger] now[i]).len() > 0 && 0
            <= chapter_starts(lines)[i] < lines.len() && now[i][0] == lines[chapter_starts(
            lines,
        )[i]] by {
            if i < before.len() {
                assert(earlier[chapter_starts(earlier)[i]] == lines[chapter_starts(earlier)[i]]);
                assert(now[i][0] == before[i][0]);
            }
        }
    }
}

/// A book has one chapter for each line that begins a chapter among the
/// lines that are read. The chapters stand in the order of those lines, and
/// each chapter begins with the line that opened it.
pub proof fn lemma_chapter_for_each_start(book: Seq<char>)
    ensures
        chapters_of(book).len() == chapter_starts(scanned_lines(book)).len(),
        forall|i: int|
            #![trigger chapters_of(book)[i]]
            #![trigger chapter_starts(scanned_lines(book))[i]]
            0 <= i < chapters_of(book).len() ==> {
                let at = chapter_starts(scanned_lines(book))[i];
                &&& 0 <= at < scanned_lines(book).len()
                &&& starts_chapter(scanned_lines(book)[at])
                &&& scanned_lines(book)[at].is_prefix_of(chapters_of(book)[i])
            },
        forall|i: int, j: int|
            0 <= i < j < chapters_of(book).len() ==> (#[trigger] chapter_starts(
                scanned_lines(book),
            )[i]) < (#[trigger] chapter_starts(scanned_lines(book))[j]),
{
    let lines = scanned_lines(book);
    let flags = lines.map_values(|line: Seq<char>| starts_chapter(line));
    lemma_chapter_lines_match_starts(lines);
    lemma_marked(flags);
    assert forall|i: int|
        #![trigger chapters_of(book)[i]]
        #![trigger chapter_starts(lines)[i]]
        0 <= i < chapters_of(book).len() implies ({
        let at = chapter_starts(lines)[i];
        &&& 0 <= at < lines.len()
        &&& starts_chapter(lines[at])
        &&& lines[at].is_prefix_of(chapters_of(book)[i])
    }) by {
        assert(flags[chapter_starts(lines)[i]]);
        lemma_joined_begins(chapter_lines(lines)[i]);
    }
}

/// Where no line from the one at which the scan stops onward begins a
/// chapter, the book has one chapter for each line that begins one, in the
/// order of those lines, and each chapter begins with the line that opened
/// it.
pub proof fn lemma_chapter_for_each_mark(book: Seq<char>)
    requires
        forall|j: int|
            first_stop(lines_of(book)) <= j < lines_of(book).len() ==> !starts_chapter(
                #[trigger] lines_of(book)[j],
            ),
    ensures
        chapters_of(book).len() == chapter_starts(lines_of(book)).len(),
        forall|i: int|
            #![trigger chapters_of(book)[i]]
            #![trigger chapter_starts(lines_of(book))[i]]
            0 <= i < chapters_of(book).len() ==> {
                let at = chapter_starts(lines_of(book))[i];
                &&& 0 <= at < lines_of(book).len()
                &&& starts_chapter(lines_of(book)[at])
                &&& lines_of(book)[at].is_prefix_of(chapters_of(book)[i])
            },
{
    let lines = lines_of(book);
    let begins = |line: Seq<char>| starts_chapter(line);
    let flags = lines.map_values(begins);
    let n = first_stop(lines) as int;
    lemma_first_stop(lines);
    assert forall|k: int| n <= k < flags.len() implies !#[trigger] flags[k] by {
        assert(!starts_chapter(lines[k]));
    }
    lemma_marked_prefix(flags, n);
    assert(flags.take(n) =~= scanned_lines(book).map_values(begins));
    assert(chapter_starts(lines) == chapter_starts(scanned_lines(book)));
    lemma_chapter_for_each_start(book);
    assert forall|i: int|
        #![trigger chapters_of(book)[i]]
        #![trigger chapter_starts(lines)[i]]
        0 <= i < chapters_of(book).len() implies ({
        let at = chapter_starts(lines)[i];
        &&& 0 <= at < lines.len()
        &&& starts_chapter(lines[at])
        &&& lines[at].is_prefix_of(chapters_of(book)[i])
    }) by {
        let at = chapter_starts(scanned_lines(book))[i];
        assert(scanned_lines(book)[at] == lines[at]);
    }
}

/// A book in which no line begins a chapter has no chapters.
pub proof fn lemma_no_marks_no_chapters(book: Seq<char>)
    requires
        forall|j: int|
            0 <= j < lines_of(book).len() ==> !starts_chapter(#[trigger] lines_of(book)[j]),
    ensures
        chapters_of(book) == Seq::<Seq<char>>::empty(),
{
    let lines = lines_of(book);
    lemma_first_stop(lines);
    lemma_chapter_for_each_mark(book);
    let flags = lines.map_values(|line: Seq<char>| starts_chapter(line));
    lemma_marked(flags);
    if marked(flags).len() > 0 {
        assert(flags[marked(flags)[0]]);
    }
    assert(chapters_of(book) =~= Seq::<Seq<char>>::empty());
}

/// Whether `line` marks the start of a chapter.
pub fn is_chapter_start(line: &str) -> (b: bool)
    ensures
        b == starts_chapter(line@),
{
    contains(line, CHAPTER_MARK)
}

/// Whether `line` holds the mark of the book's end.
pub fn is_book_end(line: &str) -> (b: bool)
    ensures
        b == ends_book(line@),
{
    contains(line, BOOK_END_MARK)
}

/// Cuts `book` into its chapters.
///
/// The book is read line by line. A line that begins a chapter opens a new
/// chapter and is its first line. Otherwise a line with the mark of the
/// book's end stops the reading, and belongs to no chapter. Any other line
/// joins the open chapter; before the first chapter it is dropped. Each
/// chapter comes out as its lines joined by single spaces.
pub fn chapterize(book: &str) -> (chapters: Vec<String>)
    ensures
        chapters.deep_view() == chapters_of(book@),
{
    let chars = chars_of(book);
    let chapter_mark = chars_of(CHAPTER_MARK);
    let end_mark = chars_of(BOOK_END_MARK);
    let mut chapters: Vec<String> = Vec::new();
    let mut pos: usize = 0;
    let mut scanning = true;
    let ghost lines = lines_of(chars@);
    let ghost mut seen: Seq<Seq<char>> = Seq::empty();
    proof {
        assert(chars@.skip(0) =~= chars@);
        assert(seen + lines_of(chars@.skip(0)) =~= lines);
        assert(chapters.deep_view() =~= chapter_lines(seen).map_values(
            |chapter: Seq<Seq<char>>| joined(chapter),
        ));
    }
    while scanning && pos < chars.len()
        invariant
            pos <= chars.len(),
            chars@ == book@,
            chapter_mark@ == CHAPTER_MARK@,
            end_mark@ == BOOK_END_MARK@,
            lines == lines_of(chars@),
            seen.len() <= lines.len(),
            seen == lines.take(seen.len() as int),
            forall|j: int| 0 <= j < seen.len() ==> !stops_scan(#[trigger] lines[j]),
            scanning ==> lines == seen + lines_of(chars@.skip(pos as int)),
            !scanning ==> seen.len() < lines.len() && stops_scan(lines[seen.len() as int]),
            chapters.deep_view() == chapter_lines(seen).map_values(
                |chapter: Seq<Seq<char>>| joined(chapter),
            ),
        decreases (if scanning { 1int } else { 0int }), chars.len() - pos,
    {
        let (end, next) = line_at(&chars, pos);
        let ghost line = chars@.subrange(pos as int, end as int);
        let ghost groups = chapter_lines(seen);
        let ghost texts = chapters.deep_view();
        proof {
            assert(lines[seen.len() as int] == line);
            assert(seen.push(line).drop_last() =~= seen);
            lemma_chapter_lines_match_starts(seen);
        }
        if range_contains(&chars, pos, end, &chapter_mark) {
            chapters.push(string_of(&chars, pos, end));
            proof {
                seen = seen.push(line);
                assert(chapters.deep_view() =~= texts.push(line));
                assert(chapter_lines(seen) =~= groups.push(seq![line]));
                assert(chapters.deep_view() =~= chapter_lines(seen).map_values(
                    |chapter: Seq<Seq<char>>| joined(chapter),
                ));
            }
            pos = next;
        } else if range_contains(&chars, pos, end, &end_mark) {
            scanning = false;
        } else {
            proof {
                assert(texts.len() == groups.len());
                if texts.len() > 0 {
                    assert(texts.last() == chapters@.last()@);
                    assert(texts.last() == joined(groups.last()));
                }
            }
            match chapters.pop() {
                Some(mut text) => {
                    text.push(' ');
                    append_range(&mut text, &chars, pos, end);
                    chapters.push(text);
                    proof {
                        let open = groups.last();
                        assert(open.push(line).drop_last() =~= open);
                        assert(joined(open.push(line)) == joined(open) + seq![' '] + line);
                        assert(text@ =~= joined(open) + seq![' '] + line);
                        seen = seen.push(line);
                        assert(chapter_lines(seen) =~= groups.update(
                            groups.len() - 1,
                            open.push(line),
                        ));
                        assert(chapters.deep_view() =~= texts.update(texts.len() - 1, text@));
                        assert(chapters.deep_view() =~= chapter_lines(seen).map_values(
                            |chapter: Seq<Seq<char>>| joined(chapter),
                        ));
                    }
                },
                None => {
                    proof {
                        seen = seen.push(line);
                        assert(chapter_lines(seen) =~= groups);
                    }
                },
            }
            pos = next;
        }
        proof {
            if scanning {
                assert(lines =~= seen + lines_of(chars@.skip(pos as int)));
                assert(seen =~= lines.take(seen.len() as int));
            }
        }
    }
    proof {
        if scanning {
            assert(lines_of(chars@.skip(pos as int)) =~= Seq::<Seq<char>>::empty());
            assert(lines =~= seen);
        }
        lemma_first_stop_is(lines, seen.len() as int);
    }
    chapters
}

} // verus!
