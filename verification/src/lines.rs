//! Cutting a text into lines.

use crate::text::{chars_of, leading, scan_forward, trim_range, trimmed, CharClass};
use vstd::prelude::*;

verus! {

/// `line` without one carriage return at its end, if it ends in one.
pub open spec fn without_carriage_return(line: Seq<char>) -> Seq<char> {
    if line.len() > 0 && line.last() == '\r' {
        line.drop_last()
    } else {
        line
    }
}

/// The lines of `text`.
///
/// A line ends at a line feed, or at a carriage return directly followed by
/// a line feed; neither belongs to the line. What follows the last line feed
/// is a line of its own unless it is empty, and is kept as it is.
pub open spec fn lines_of(text: Seq<char>) -> Seq<Seq<char>>
    decreases text.len(),
{
    let n = leading(text, CharClass::LineBody) as int;
    if text.len() == 0 {
        Seq::empty()
    } else if n >= text.len() {
        seq![text]
    } else {
        seq![without_carriage_return(text.take(n))] + lines_of(text.skip(n + 1))
    }
}

/// The lines of `text`, each without the white space around it.
pub open spec fn trimmed_lines_of(text: Seq<char>) -> Seq<Seq<char>> {
    lines_of(text).map_values(|line: Seq<char>| trimmed(line, CharClass::Space))
}

/// Finds the line that begins at `pos`: `chars[pos..r.0]` is the line, and
/// the next one, if any, begins at `r.1`.
pub fn line_at(chars: &Vec<char>, pos: usize) -> (r: (usize, usize))
    requires
        pos < chars.len(),
    ensures
        pos <= r.0 <= r.1 <= chars.len(),
        pos < r.1,
        lines_of(chars@.skip(pos as int)) == seq![chars@.subrange(pos as int, r.0 as int)]
            + lines_of(chars@.skip(r.1 as int)),
{
    let len = chars.len();
    let feed = scan_forward(chars, pos, len, CharClass::LineBody);
    let ghost rest = chars@.skip(pos as int);
    assert(rest =~= chars@.subrange(pos as int, len as int));
    if feed == len {
        assert(lines_of(chars@.skip(len as int)) =~= Seq::<Seq<char>>::empty());
        assert(rest =~= chars@.subrange(pos as int, len as int));
        assert(seq![rest] + Seq::<Seq<char>>::empty() =~= seq![rest]);
        (len, len)
    } else {
        let end = if feed > pos && chars[feed - 1] == '\r' {
            feed - 1
        } else {
            feed
        };
        proof {
            let n = feed - pos;
            assert(rest.take(n) =~= chars@.subrange(pos as int, feed as int));
            assert(without_carriage_return(rest.take(n)) =~= chars@.subrange(
                pos as int,
                end as int,
            ));
            assert(rest.skip(n + 1) =~= chars@.skip(feed + 1));
        }
        (end, feed + 1)
    }
}

/// The lines of `string`, each without the white space around it.
pub fn to_trimmed_lines<'a>(string: &'a str) -> (lines: Vec<&'a str>)
    ensures
        lines.deep_view() == trimmed_lines_of(string@),
{
    let chars = chars_of(string);
    let mut lines: Vec<&'a str> = Vec::new();
    let mut pos: usize = 0;
    assert(chars@.skip(0) =~= chars@);
    assert(lines.deep_view() + trimmed_lines_of(chars@) =~= trimmed_lines_of(chars@));
    while pos < chars.len()
        invariant
            pos <= chars.len(),
            chars@ == string@,
            trimmed_lines_of(chars@) == lines.deep_view() + trimmed_lines_of(
                chars@.skip(pos as int),
            ),
        decreases chars.len() - pos,
    {
        let (end, next) = line_at(&chars, pos);
        let (from, to) = trim_range(&chars, pos, end, CharClass::Space);
        let line = string.substring_char(from, to);
        let ghost before = lines.deep_view();
        lines.push(line);
        proof {
            let raw = chars@.subrange(pos as int, end as int);
            let later = lines_of(chars@.skip(next as int));
            assert(lines.deep_view() =~= before.push(trimmed(raw, CharClass::Space)));
            assert(trimmed_lines_of(chars@.skip(pos as int)) =~= seq![
                trimmed(raw, CharClass::Space),
            ] + trimmed_lines_of(chars@.skip(next as int)));
        }
        pos = next;
    }
    assert(trimmed_lines_of(chars@.skip(pos as int)) =~= Seq::<Seq<char>>::empty());
    lines
}

} // verus!
