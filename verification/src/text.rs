//! Character-level building blocks shared by the other modules.
//!
//! Text is modelled as `Seq<char>`. The executable functions work on a
//! `Vec<char>` with explicit index ranges, so that a whole book is decoded
//! once and every later step is a linear scan.

use vstd::prelude::*;

verus! {

/// Whether `c` has the Unicode property `White_Space`.
pub uninterp spec fn white_space(c: char) -> bool;

/// Whether `c` has the Unicode property `Alphabetic`.
pub uninterp spec fn alphabetic(c: char) -> bool;

/// `char::is_whitespace` answers whether the character has the property
/// `White_Space`; the answer depends on the character alone.
pub assume_specification[ char::is_whitespace ](c: char) -> (b: bool)
    ensures
        b == white_space(c),
;

/// `char::is_alphabetic` answers whether the character has the property
/// `Alphabetic`; the answer depends on the character alone.
pub assume_specification[ char::is_alphabetic ](c: char) -> (b: bool)
    ensures
        b == alphabetic(c),
;

/// `String::push` appends one character to the end of the string.
pub assume_specification[ String::push ](s: &mut String, ch: char)
    ensures
        final(s)@ == old(s)@.push(ch),
;

/// The classes of characters by which text is cut and trimmed.
#[derive(Clone, Copy, Debug)]
pub enum CharClass {
    /// Characters with the property `White_Space`.
    Space,
    /// Characters without the property `White_Space`.
    NonSpace,
    /// Characters without the property `Alphabetic`.
    NonLetter,
    /// Every character but the line feed.
    LineBody,
}

impl CharClass {
    /// Whether `c` belongs to the class.
    pub open spec fn holds(self, c: char) -> bool {
        match self {
            CharClass::Space => white_space(c),
            CharClass::NonSpace => !white_space(c),
            CharClass::NonLetter => !alphabetic(c),
            CharClass::LineBody => c != '\n',
        }
    }

    /// Decides membership of `c` in the class.
    pub fn test(self, c: char) -> (b: bool)
        ensures
            b == self.holds(c),
    {
        match self {
            CharClass::Space => c.is_whitespace(),
            CharClass::NonSpace => !c.is_whitespace(),
            CharClass::NonLetter => !c.is_alphabetic(),
            CharClass::LineBody => c != '\n',
        }
    }
}

/// Length of the longest prefix of `s` made of characters of `class`.
pub open spec fn leading(s: Seq<char>, class: CharClass) -> nat
    decreases s.len(),
{
    if s.len() > 0 && class.holds(s[0]) {
        1 + leading(s.drop_first(), class)
    } else {
        0
    }
}

/// Length of the longest suffix of `s` made of characters of `class`.
pub open spec fn trailing(s: Seq<char>, class: CharClass) -> nat
    decreases s.len(),
{
    if s.len() > 0 && class.holds(s.last()) {
        1 + trailing(s.drop_last(), class)
    } else {
        0
    }
}

/// `s` without its longest prefix and, of what is left, its longest suffix
/// of characters of `class`.
pub open spec fn trimmed(s: Seq<char>, class: CharClass) -> Seq<char> {
    let rest = s.skip(leading(s, class) as int);
    rest.take(rest.len() - trailing(rest, class))
}

/// Whether `needle` stands in `hay` at index `at`.
pub open spec fn occurs_at(hay: Seq<char>, needle: Seq<char>, at: int) -> bool {
    0 <= at && at + needle.len() <= hay.len() && hay.subrange(at, at + needle.len()) == needle
}

/// Whether `needle` stands somewhere in `hay` as a contiguous run.
pub open spec fn contains_text(hay: Seq<char>, needle: Seq<char>) -> bool {
    exists|at: int| occurs_at(hay, needle, at)
}

/// `n` is the length of the longest prefix of class `class` exactly when the
/// first `n` characters are in the class and the next one, if any, is not.
pub proof fn lemma_leading_is(s: Seq<char>, class: CharClass, n: int)
    requires
        0 <= n <= s.len(),
        forall|j: int| 0 <= j < n ==> class.holds(#[trigger] s[j]),
        n == s.len() || !class.holds(s[n]),
    ensures
        leading(s, class) == n,
    decreases s.len(),
{
    if n > 0 {
        let rest = s.drop_first();
        assert forall|j: int| 0 <= j < n - 1 implies class.holds(#[trigger] rest[j]) by {
            assert(rest[j] == s[j + 1]);
        }
        lemma_leading_is(rest, class, n - 1);
    }
}

/// `n` is the length of the longest suffix of class `class` exactly when the
/// last `n` characters are in the class and the one before them, if any, is
/// not.
pub proof fn lemma_trailing_is(s: Seq<char>, class: CharClass, n: int)
    requires
        0 <= n <= s.len(),
        forall|j: int| s.len() - n <= j < s.len() ==> class.holds(#[trigger] s[j]),
        n == s.len() || !class.holds(s[s.len() - n - 1]),
    ensures
        trailing(s, class) == n,
    decreases s.len(),
{
    if n > 0 {
        let rest = s.drop_last();
        assert forall|j: int| rest.len() - (n - 1) <= j < rest.len() implies class.holds(
            #[trigger] rest[j],
        ) by {
            assert(rest[j] == s[j]);
        }
        lemma_trailing_is(rest, class, n - 1);
    }
}

/// The bounds that `leading` stays within, and what lies at them.
pub proof fn lemma_leading_bounds(s: Seq<char>, class: CharClass)
    ensures
        leading(s, class) <= s.len(),
        forall|j: int| 0 <= j < leading(s, class) ==> class.holds(#[trigger] s[j]),
        leading(s, class) < s.len() ==> !class.holds(s[leading(s, class) as int]),
    decreases s.len(),
{
    if s.len() > 0 && class.holds(s[0]) {
        let rest = s.drop_first();
        lemma_leading_bounds(rest, class);
        assert forall|j: int| 0 <= j < leading(s, class) implies class.holds(#[trigger] s[j]) by {
            if j > 0 {
                assert(s[j] == rest[j - 1]);
            }
        }
        if leading(s, class) < s.len() {
            assert(s[leading(s, class) as int] == rest[leading(rest, class) as int]);
        }
    }
}

/// The bounds that `trailing` stays within, and what lies at them.
pub proof fn lemma_trailing_bounds(s: Seq<char>, class: CharClass)
    ensures
        trailing(s, class) <= s.len(),
        forall|j: int| s.len() - trailing(s, class) <= j < s.len() ==> class.holds(#[trigger] s[j]),
        trailing(s, class) < s.len() ==> !class.holds(s[s.len() - trailing(s, class) - 1]),
    decreases s.len(),
{
    if s.len() > 0 && class.holds(s.last()) {
        let rest = s.drop_last();
        lemma_trailing_bounds(rest, class);
        assert forall|j: int| s.len() - trailing(s, class) <= j < s.len() implies class.holds(
            #[trigger] s[j],
        ) by {
            if j < s.len() - 1 {
                assert(s[j] == rest[j]);
            }
        }
        if trailing(s, class) < s.len() {
            assert(s[s.len() - trailing(s, class) - 1] == rest[rest.len() - trailing(rest, class)
                - 1]);
        }
    }
}

/// What is left of a text after trimming is a run of the text, and where it
/// is not empty it neither begins nor ends with a character of the class.
pub proof fn lemma_trimmed_ends(s: Seq<char>, class: CharClass)
    ensures
        leading(s, class) + trimmed(s, class).len() <= s.len(),
        trimmed(s, class) == s.subrange(
            leading(s, class) as int,
            (leading(s, class) + trimmed(s, class).len()) as int,
        ),
        trimmed(s, class).len() > 0 ==> !class.holds(trimmed(s, class)[0]) && !class.holds(
            trimmed(s, class).last(),
        ),
{
    let rest = s.skip(leading(s, class) as int);
    lemma_leading_bounds(s, class);
    lemma_trailing_bounds(rest, class);
    assert(trimmed(s, class) =~= s.subrange(
        leading(s, class) as int,
        (leading(s, class) + trimmed(s, class).len()) as int,
    ));
    if trimmed(s, class).len() > 0 {
        assert(trimmed(s, class)[0] == rest[0]);
        assert(rest[0] == s[leading(s, class) as int]);
        assert(trimmed(s, class).last() == rest[rest.len() - trailing(rest, class) - 1]);
    }
}

/// The characters of `s`, in order.
pub fn chars_of(s: &str) -> (v: Vec<char>)
    ensures
        v@ == s@,
{
    let mut v: Vec<char> = Vec::new();
    for c in it: s.chars()
        invariant
            v@ == it.seq().take(it.index()),
    {
        v.push(c);
    }
    v
}

/// Appends the characters `chars[from..to]` to `s`.
pub fn append_range(s: &mut String, chars: &Vec<char>, from: usize, to: usize)
    requires
        from <= to <= chars.len(),
    ensures
        final(s)@ == old(s)@ + chars@.subrange(from as int, to as int),
{
    let mut i: usize = from;
    while i < to
        invariant
            from <= i <= to <= chars.len(),
            s@ == old(s)@ + chars@.subrange(from as int, i as int),
        decreases to - i,
    {
        s.push(chars[i]);
        i += 1;
    }
}

/// The string made of the characters `chars[from..to]`.
pub fn string_of(chars: &Vec<char>, from: usize, to: usize) -> (s: String)
    requires
        from <= to <= chars.len(),
    ensures
        s@ == chars@.subrange(from as int, to as int),
{
    let mut s = String::new();
    append_range(&mut s, chars, from, to);
    s
}

/// The first index in `from..to` whose character is not of `class`, or `to`
/// where all of them are.
pub fn scan_forward(chars: &Vec<char>, from: usize, to: usize, class: CharClass) -> (r: usize)
    requires
        from <= to <= chars.len(),
    ensures
        from <= r <= to,
        r == from + leading(chars@.subrange(from as int, to as int), class),
{
    let ghost range = chars@.subrange(from as int, to as int);
    let mut i: usize = from;
    while i < to && class.test(chars[i])
        invariant
            from <= i <= to <= chars.len(),
            range == chars@.subrange(from as int, to as int),
            forall|j: int| 0 <= j < i - from ==> class.holds(#[trigger] range[j]),
        decreases to - i,
    {
        i += 1;
    }
    proof {
        lemma_leading_is(range, class, i - from);
    }
    i
}

/// The end of the shortest prefix of `from..to` after which only characters
/// of `class` follow: `to` less the length of the longest such suffix.
pub fn scan_backward(chars: &Vec<char>, from: usize, to: usize, class: CharClass) -> (r: usize)
    requires
        from <= to <= chars.len(),
    ensures
        from <= r <= to,
        r == to - trailing(chars@.subrange(from as int, to as int), class),
{
    let ghost range = chars@.subrange(from as int, to as int);
    let mut i: usize = to;
    while i > from && class.test(chars[i - 1])
        invariant
            from <= i <= to <= chars.len(),
            range == chars@.subrange(from as int, to as int),
            forall|j: int| i - from <= j < to - from ==> class.holds(#[trigger] range[j]),
        decreases i - from,
    {
        i -= 1;
    }
    proof {
        lemma_trailing_is(range, class, to - i);
    }
    i
}

/// The bounds of `chars[from..to]` once trimmed of characters of `class` on
/// both sides.
pub fn trim_range(chars: &Vec<char>, from: usize, to: usize, class: CharClass) -> (r: (
    usize,
    usize,
))
    requires
        from <= to <= chars.len(),
    ensures
        from <= r.0 <= r.1 <= to,
        chars@.subrange(r.0 as int, r.1 as int) == trimmed(
            chars@.subrange(from as int, to as int),
            class,
        ),
{
    let start = scan_forward(chars, from, to, class);
    let end = scan_backward(chars, start, to, class);
    proof {
        let range = chars@.subrange(from as int, to as int);
        let rest = range.skip(leading(range, class) as int);
        assert(rest =~= chars@.subrange(start as int, to as int));
        assert(rest.take(rest.len() - trailing(rest, class)) =~= chars@.subrange(
            start as int,
            end as int,
        ));
    }
    (start, end)
}

/// Whether `needle` stands at index `at` of `chars[from..to]`.
fn range_matches_at(chars: &Vec<char>, from: usize, to: usize, needle: &Vec<char>, at: usize) -> (b:
    bool)
    requires
        from <= to <= chars.len(),
        from + at + needle.len() <= to,
    ensures
        b == occurs_at(chars@.subrange(from as int, to as int), needle@, at as int),
{
    let ghost range = chars@.subrange(from as int, to as int);
    let ghost window = range.subrange(at as int, at + needle.len());
    let m = needle.len();
    let mut j: usize = 0;
    while j < m
        invariant
            j <= m == needle.len(),
            from <= to <= chars.len(),
            from + at + m <= to,
            range == chars@.subrange(from as int, to as int),
            window == range.subrange(at as int, at + m),
            forall|k: int| 0 <= k < j ==> window[k] == needle@[k],
        decreases m - j,
    {
        if chars[from + at + j] != needle[j] {
            assert(window[j as int] != needle@[j as int]);
            return false;
        }
        j += 1;
    }
    assert(window =~= needle@);
    true
}

/// Whether `needle` stands somewhere in `chars[from..to]`.
pub fn range_contains(chars: &Vec<char>, from: usize, to: usize, needle: &Vec<char>) -> (b: bool)
    requires
        from <= to <= chars.len(),
    ensures
        b == contains_text(chars@.subrange(from as int, to as int), needle@),
{
    let ghost range = chars@.subrange(from as int, to as int);
    let n = to - from;
    let m = needle.len();
    if m > n {
        return false;
    }
    let last = n - m;
    let mut at: usize = 0;
    loop
        invariant
            at <= last == n - m,
            n == to - from,
            m == needle.len(),
            from <= to <= chars.len(),
            range == chars@.subrange(from as int, to as int),
            forall|k: int| 0 <= k < at ==> !occurs_at(range, needle@, k),
        decreases last - at,
    {
        if range_matches_at(chars, from, to, needle, at) {
            return true;
        }
        if at == last {
            return false;
        }
        at += 1;
    }
}

/// Whether `hay` contains `needle` as a contiguous run of characters.
pub fn contains(hay: &str, needle: &str) -> (b: bool)
    ensures
        b == contains_text(hay@, needle@),
{
    let chars = chars_of(hay);
    let wanted = chars_of(needle);
    assert(chars@.subrange(0, chars@.len() as int) =~= hay@);
    range_contains(&chars, 0, chars.len(), &wanted)
}

/// Whether two strings hold the same characters.
pub fn same_text(a: &str, b: &str) -> (r: bool)
    ensures
        r == (a@ == b@),
{
    let x = a.as_bytes();
    let y = b.as_bytes();
    proof {
        vstd::utf8::encode_utf8_decode_utf8(a@);
        vstd::utf8::encode_utf8_decode_utf8(b@);
    }
    if x.len() != y.len() {
        return false;
    }
    let mut i: usize = 0;
    while i < x.len()
        invariant
            i <= x.len() == y.len(),
            a@ == b@ ==> x@ == y@,
            forall|k: int| 0 <= k < i ==> x@[k] == y@[k],
        decreases x.len() - i,
    {
        if x[i] != y[i] {
            return false;
        }
        i += 1;
    }
    assert(x@ =~= y@);
    true
}

} // verus!
