//! The inclusive line range `"start-end"`: parsing, validation and the exact
//! error messages that a failed parse reports.

use vstd::prelude::*;
use crate::text::{
    find_char, parses_as_usize, usize_value, parse_usize_str, find_char_from,
    lemma_find_char_bounds,
};

verus! {

/// A validated inclusive range of source-line numbers.
#[derive(Clone, Copy, Debug)]
pub struct LineRange {
    pub start: usize,
    pub end: usize,
}

/// Which bound of a range a message refers to.
#[derive(Clone, Copy, Debug, PartialEq, Eq, Structural)]
pub enum BoundKind {
    Start,
    End,
}

/// Why a range string was rejected.
#[derive(Debug)]
pub enum RangeError {
    /// The string did not split into exactly two parts on `-`.
    MalformedRange { raw: String },
    /// One part was not a parseable non-negative integer; the start is
    /// checked before the end.
    InvalidBound { which: BoundKind, text: String },
    /// Both bounds parsed but the start exceeds the end.
    InvertedRange { start: usize, end: usize },
}

/// A range string is well-shaped when splitting on `-` yields exactly two
/// parts, i.e. the string holds exactly one dash.
pub open spec fn well_dashed(s: Seq<char>) -> bool {
    match find_char(s, '-') {
        None => false,
        Some(i) => find_char(s.skip(i + 1), '-') is None,
    }
}

/// Position of the single dash of a well-shaped range string.
pub open spec fn dash_pos(s: Seq<char>) -> int {
    find_char(s, '-')->0
}

/// The text before the dash.
pub open spec fn start_text(s: Seq<char>) -> Seq<char> {
    s.take(dash_pos(s))
}

/// The text after the dash.
pub open spec fn end_text(s: Seq<char>) -> Seq<char> {
    s.skip(dash_pos(s) + 1)
}

impl LineRange {
    /// The constructor's invariant: the range is not inverted.
    pub open spec fn wf(&self) -> bool {
        self.start <= self.end
    }

    /// Parses `"<start>-<end>"` into a validated inclusive range.
    ///
    /// Succeeds exactly when the string splits into two parts on `-`, both
    /// parts parse as non-negative integers that fit in `usize`, and the
    /// start does not exceed the end; each failure reports which rule broke.
    pub fn parse(range_str: &str) -> (r: Result<LineRange, RangeError>)
        ensures
            ({
                let s = range_str@;
                match r {
                    Ok(lr) => {
                        &&& well_dashed(s)
                        &&& parses_as_usize(start_text(s))
                        &&& parses_as_usize(end_text(s))
                        &&& lr.start == usize_value(start_text(s))
                        &&& lr.end == usize_value(end_text(s))
                        &&& lr.wf()
                    },
                    Err(RangeError::MalformedRange { raw }) => {
                        &&& !well_dashed(s)
                        &&& raw@ == s
                    },
                    Err(RangeError::InvalidBound { which, text }) => {
                        &&& well_dashed(s)
                        &&& match which {
                            BoundKind::Start => {
                                &&& !parses_as_usize(start_text(s))
                                &&& text@ == start_text(s)
                            },
                            BoundKind::End => {
                                &&& parses_as_usize(start_text(s))
                                &&& !parses_as_usize(end_text(s))
                                &&& text@ == end_text(s)
                            },
                        }
                    },
                    Err(RangeError::InvertedRange { start, end }) => {
                        &&& well_dashed(s)
                        &&& parses_as_usize(start_text(s))
                        &&& parses_as_usize(end_text(s))
                        &&& start == usize_value(start_text(s))
                        &&& end == usize_value(end_text(s))
                        &&& start > end
                    },
                }
            }),
    {
        let n = range_str.unicode_len();
        proof {
            assert(range_str@.skip(0) =~= range_str@);
        }
        let dash = find_char_from(range_str, '-', 0);
        let i = match dash {
            None => {
                return Err(RangeError::MalformedRange { raw: range_str.to_owned() });
            },
            Some(i) => i,
        };
        if find_char_from(range_str, '-', i + 1).is_some() {
            return Err(RangeError::MalformedRange { raw: range_str.to_owned() });
        }
        proof {
            lemma_find_char_bounds(range_str@, '-');
            assert(start_text(range_str@) =~= range_str@.subrange(0, i as int));
            assert(end_text(range_str@) =~= range_str@.subrange(i + 1, n as int));
        }
        let start_part = range_str.substring_char(0, i);
        let end_part = range_str.substring_char(i + 1, n);
        let start = match parse_usize_str(start_part) {
            None => {
                return Err(
                    RangeError::InvalidBound { which: BoundKind::Start, text: start_part.to_owned() },
                );
            },
            Some(v) => v,
        };
        let end = match parse_usize_str(end_part) {
            None => {
                return Err(
                    RangeError::InvalidBound { which: BoundKind::End, text: end_part.to_owned() },
                );
            },
            Some(v) => v,
        };
        if start > end {
            Err(RangeError::InvertedRange { start, end })
        } else {
            Ok(LineRange { start, end })
        }
    }

    /// Whether `line` lies within the inclusive range.
    pub fn contains(&self, line: usize) -> (r: bool)
        ensures
            r == (self.start <= line <= self.end),
    {
        line >= self.start && line <= self.end
    }
}

/// The character for a single decimal digit.
pub open spec fn digit_char(d: nat) -> char {
    if d == 0 {
        '0'
    } else if d == 1 {
        '1'
    } else if d == 2 {
        '2'
    } else if d == 3 {
        '3'
    } else if d == 4 {
        '4'
    } else if d == 5 {
        '5'
    } else if d == 6 {
        '6'
    } else if d == 7 {
        '7'
    } else if d == 8 {
        '8'
    } else {
        '9'
    }
}

/// The decimal numeral of `n`, most significant digit first, no leading zeros.
pub open spec fn dec_digits(n: nat) -> Seq<char>
    decreases n,
{
    if n < 10 {
        seq![digit_char(n)]
    } else {
        dec_digits(n / 10).push(digit_char(n % 10))
    }
}

fn digit_str(d: usize) -> (r: &'static str)
    requires
        d < 10,
    ensures
        r@ == seq![digit_char(d as nat)],
{
    proof {
        reveal_strlit("0");
        reveal_strlit("1");
        reveal_strlit("2");
        reveal_strlit("3");
        reveal_strlit("4");
        reveal_strlit("5");
        reveal_strlit("6");
        reveal_strlit("7");
        reveal_strlit("8");
        reveal_strlit("9");
        assert("0"@ =~= seq!['0']);
        assert("1"@ =~= seq!['1']);
        assert("2"@ =~= seq!['2']);
        assert("3"@ =~= seq!['3']);
        assert("4"@ =~= seq!['4']);
        assert("5"@ =~= seq!['5']);
        assert("6"@ =~= seq!['6']);
        assert("7"@ =~= seq!['7']);
        assert("8"@ =~= seq!['8']);
        assert("9"@ =~= seq!['9']);
    }
    if d == 0 {
        "0"
    } else if d == 1 {
        "1"
    } else if d == 2 {
        "2"
    } else if d == 3 {
        "3"
    } else if d == 4 {
        "4"
    } else if d == 5 {
        "5"
    } else if d == 6 {
        "6"
    } else if d == 7 {
        "7"
    } else if d == 8 {
        "8"
    } else {
        "9"
    }
}

/// Renders `n` as its decimal numeral.
pub fn usize_to_string(n: usize) -> (r: String)
    ensures
        r@ == dec_digits(n as nat),
    decreases n,
{
    if n < 10 {
        digit_str(n).to_owned()
    } else {
        let mut s = usize_to_string(n / 10);
        s.append(digit_str(n % 10));
        proof {
            assert(dec_digits((n / 10) as nat) + seq![digit_char((n % 10) as nat)] =~= dec_digits(
                (n / 10) as nat,
            ).push(digit_char((n % 10) as nat)));
        }
        s
    }
}

impl RangeError {
    /// The exact diagnostic text of this error, without the `Error: ` prefix.
    pub open spec fn spec_message(&self) -> Seq<char> {
        match self {
            RangeError::MalformedRange { raw } => "Invalid line range format: "@ + raw@
                + ". Expected format: start-end"@,
            RangeError::InvalidBound { which, text } => (match which {
                BoundKind::Start => "Invalid start line number: "@,
                BoundKind::End => "Invalid end line number: "@,
            }) + text@,
            RangeError::InvertedRange { start, end } => "Start line ("@ + dec_digits(*start as nat)
                + ") cannot be greater than end line ("@ + dec_digits(*end as nat) + ")"@,
        }
    }

    /// Renders the diagnostic text of this error.
    pub fn message(&self) -> (r: String)
        ensures
            r@ == self.spec_message(),
    {
        match self {
            RangeError::MalformedRange { raw } => {
                let mut m = "Invalid line range format: ".to_owned();
                m.append(raw.as_str());
                m.append(". Expected format: start-end");
                m
            },
            RangeError::InvalidBound { which, text } => {
                let mut m = match which {
                    BoundKind::Start => "Invalid start line number: ".to_owned(),
                    BoundKind::End => "Invalid end line number: ".to_owned(),
                };
                m.append(text.as_str());
                m
            },
            RangeError::InvertedRange { start, end } => {
                let mut m = "Start line (".to_owned();
                let start_digits = usize_to_string(*start);
                m.append(start_digits.as_str());
                m.append(") cannot be greater than end line (");
                let end_digits = usize_to_string(*end);
                m.append(end_digits.as_str());
                m.append(")");
                m
            },
        }
    }
}

} // verus!
