//! The verdict on a chapter, and the line that reports it.

use vstd::prelude::*;
use vstd::string::StringExecFns;

verus! {

/// To which vocabulary a chapter is closer.
#[derive(Clone, Copy, Debug, PartialEq, Eq, Structural)]
pub enum Verdict {
    /// The peace terms are the denser.
    PeaceRelated,
    /// The war terms are the denser.
    WarRelated,
    /// Neither density is greater than the other.
    Equal,
}

/// What is said of a chapter that is closer to the peace terms.
pub const PEACE_TEXT: &'static str = "Peace related!";

/// What is said of a chapter that is closer to the war terms.
pub const WAR_TEXT: &'static str = "War related!";

/// What is said of a chapter that is closer to neither.
pub const EQUAL_TEXT: &'static str = "Equal density!";

/// What every report line begins with.
pub const REPORT_HEAD: &'static str = "CHAPTER ";

/// What stands between the chapter's number and the verdict's text.
pub const REPORT_COLON: &'static str = ": ";

/// The verdict that follows from comparing the two densities: the peace
/// density is asked first, then the war density; where neither is greater
/// than the other, and so also where the two cannot be compared, the verdict
/// is `Equal`.
pub open spec fn verdict_of(peace_is_greater: bool, war_is_greater: bool) -> Verdict {
    if peace_is_greater {
        Verdict::PeaceRelated
    } else if war_is_greater {
        Verdict::WarRelated
    } else {
        Verdict::Equal
    }
}

/// The character of the decimal digit `digit`.
pub open spec fn digit_char(digit: int) -> char {
    if digit == 0 {
        '0'
    } else if digit == 1 {
        '1'
    } else if digit == 2 {
        '2'
    } else if digit == 3 {
        '3'
    } else if digit == 4 {
        '4'
    } else if digit == 5 {
        '5'
    } else if digit == 6 {
        '6'
    } else if digit == 7 {
        '7'
    } else if digit == 8 {
        '8'
    } else {
        '9'
    }
}

/// `n` written in decimal digits, without leading zeros.
pub open spec fn decimal(n: nat) -> Seq<char>
    decreases n,
{
    if n < 10 {
        seq![digit_char(n as int)]
    } else {
        decimal(n / 10).push(digit_char((n % 10) as int))
    }
}

/// The line that reports `verdict` on the chapter with the number `index`.
pub open spec fn report_of(index: nat, verdict: Verdict) -> Seq<char> {
    REPORT_HEAD@ + decimal(index) + REPORT_COLON@ + verdict.text()
}

impl Verdict {
    /// The text in which the verdict is reported.
    pub open spec fn text(self) -> Seq<char> {
        match self {
            Verdict::PeaceRelated => PEACE_TEXT@,
            Verdict::WarRelated => WAR_TEXT@,
            Verdict::Equal => EQUAL_TEXT@,
        }
    }

    /// The text in which the verdict is reported.
    pub fn message(self) -> (text: &'static str)
        ensures
            text@ == self.text(),
    {
        match self {
            Verdict::PeaceRelated => PEACE_TEXT,
            Verdict::WarRelated => WAR_TEXT,
            Verdict::Equal => EQUAL_TEXT,
        }
    }
}

/// Gives the verdict on a chapter from the comparison of its two densities:
/// whether the peace density is greater than the war density, and whether
/// the war density is greater than the peace density.
pub fn classify(peace_is_greater: bool, war_is_greater: bool) -> (verdict: Verdict)
    ensures
        verdict == verdict_of(peace_is_greater, war_is_greater),
{
    if peace_is_greater {
        Verdict::PeaceRelated
    } else if war_is_greater {
        Verdict::WarRelated
    } else {
        Verdict::Equal
    }
}

/// The character of the decimal digit `digit`.
fn digit_of(digit: usize) -> (c: char)
    requires
        digit < 10,
    ensures
        c == digit_char(digit as int),
{
    if digit == 0 {
        '0'
    } else if digit == 1 {
        '1'
    } else if digit == 2 {
        '2'
    } else if digit == 3 {
        '3'
    } else if digit == 4 {
        '4'
    } else if digit == 5 {
        '5'
    } else if digit == 6 {
        '6'
    } else if digit == 7 {
        '7'
    } else if digit == 8 {
        '8'
    } else {
        '9'
    }
}

/// Appends `n` in decimal digits to `line`.
fn push_decimal(line: &mut String, n: usize)
    ensures
        final(line)@ == old(line)@ + decimal(n as nat),
    decreases n,
{
    if n >= 10 {
        push_decimal(line, n / 10);
    }
    line.push(digit_of(n % 10));
}

/// The line that reports `verdict` on the chapter with the number `index`:
/// `CHAPTER `, the number, a colon and a space, and the verdict's text.
pub fn report_line(index: usize, verdict: Verdict) -> (line: String)
    ensures
        line@ == report_of(index as nat, verdict),
{
    let mut line = String::new();
    line.append(REPORT_HEAD);
    push_decimal(&mut line, index);
    line.append(REPORT_COLON);
    line.append(verdict.message());
    line
}

} // verus!
