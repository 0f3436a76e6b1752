//! Line classification: deciding whether a line of text carries a parseable
//! source-line locator, and extracting the line number when it does.

use vstd::prelude::*;
use crate::text::{
    colon_field, colon_field_str, find_char_from, has_two_colons, parse_usize_str,
    parses_as_usize, second_token, second_token_str, trim, trim_str, usize_value,
};

verus! {

/// Whether the trimmed line opens with the compiler-pointer token `-->`.
pub open spec fn starts_with_arrow(t: Seq<char>) -> bool {
    t.len() >= 3 && t[0] == '-' && t[1] == '-' && t[2] == '>'
}

/// Rule one, on an already-trimmed line: a `-->` pointer line whose second
/// whitespace-delimited token is a `file:line[:col]` locator with a numeric
/// line field.
pub open spec fn pointer_line_number(t: Seq<char>) -> Option<nat> {
    if starts_with_arrow(t) {
        match second_token(t) {
            None => None,
            Some(tok) => match colon_field(tok) {
                None => None,
                Some(f) => if parses_as_usize(f) {
                    Some(usize_value(f))
                } else {
                    None
                },
            },
        }
    } else {
        None
    }
}

/// Rule two, on an already-trimmed line: splitting on `:` yields at least
/// three parts and the second part, trimmed, is a numeric line field.
pub open spec fn generic_line_number(t: Seq<char>) -> Option<nat> {
    if has_two_colons(t) {
        match colon_field(t) {
            None => None,
            Some(f) => if parses_as_usize(trim(f)) {
                Some(usize_value(trim(f)))
            } else {
                None
            },
        }
    } else {
        None
    }
}

/// The source-line number a line of text refers to, if it is
/// location-bearing: the pointer rule is tried first, then the generic
/// colon-split rule; a line matching neither is plain.
pub open spec fn line_number_of(line: Seq<char>) -> Option<nat> {
    let t = trim(line);
    match pointer_line_number(t) {
        Some(n) => Some(n),
        None => generic_line_number(t),
    }
}

/// A location-bearing view of one line: the source line it refers to.
#[derive(Clone, Copy, Debug)]
pub struct LinterError {
    pub line: usize,
}

impl LinterError {
    /// Classifies one line of text, returning its source-line number when
    /// either locator rule matches and `None` when the line is plain.
    pub fn parse(line: &str) -> (r: Option<LinterError>)
        ensures
            match r {
                Some(le) => line_number_of(line@) == Some(le.line as nat),
                None => line_number_of(line@) is None,
            },
    {
        let t = trim_str(line);
        let n = t.unicode_len();
        if n >= 3 && t.get_char(0) == '-' && t.get_char(1) == '-' && t.get_char(2) == '>' {
            if let Some(tok) = second_token_str(t) {
                if let Some(f) = colon_field_str(tok) {
                    if let Some(v) = parse_usize_str(f) {
                        return Some(LinterError { line: v });
                    }
                }
            }
        }
        match find_char_from(t, ':', 0) {
            None => {
                proof {
                    assert(t@.skip(0) =~= t@);
                }
                None
            },
            Some(i) => {
                match find_char_from(t, ':', i + 1) {
                    None => {
                        proof {
                            assert(t@.skip(0) =~= t@);
                        }
                        None
                    },
                    Some(j) => {
                        proof {
                            assert(t@.skip(0) =~= t@);
                            assert(t@.skip(i + 1).take(j - (i + 1)) =~= t@.subrange(i + 1, j as int));
                        }
                        let f = t.substring_char(i + 1, j);
                        let ft = trim_str(f);
                        match parse_usize_str(ft) {
                            None => None,
                            Some(v) => Some(LinterError { line: v }),
                        }
                    },
                }
            },
        }
    }
}

} // verus!
