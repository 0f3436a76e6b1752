//! The stream filter: breaking the input into lines, keeping or dropping
//! each against an optional range, and rejoining the survivors.

use vstd::prelude::*;
use crate::classify::{line_number_of, LinterError};
use crate::range::LineRange;
use crate::text::{find_char, find_char_from};

verus! {

/// A single trailing carriage return is removed, as `str::lines` removes it
/// from a `\r\n` line ending.
pub open spec fn strip_cr(s: Seq<char>) -> Seq<char> {
    if s.len() > 0 && s.last() == '\r' {
        s.drop_last()
    } else {
        s
    }
}

/// The lines of `s`, as `str::lines` yields them: pieces split at `\n`, a
/// `\r` before the `\n` removed, and no empty piece after a final `\n`.
pub open spec fn lines_of(s: Seq<char>) -> Seq<Seq<char>>
    decreases s.len(),
    via lines_of_termination
{
    if s.len() == 0 {
        Seq::empty()
    } else {
        match find_char(s, '\n') {
            None => seq![s],
            Some(i) => seq![strip_cr(s.take(i))] + lines_of(s.skip(i + 1)),
        }
    }
}

#[via_fn]
proof fn lines_of_termination(s: Seq<char>) {
    crate::text::lemma_find_char_bounds(s, '\n');
}

/// The inclusion decision for one line: a location-bearing line survives an
/// absent range always and a present range exactly when its number lies
/// within; a plain line survives only an absent range.
pub open spec fn keeps(range: Option<LineRange>, line: Seq<char>) -> bool {
    match line_number_of(line) {
        Some(n) => match range {
            Some(r) => r.start <= n <= r.end,
            None => true,
        },
        None => range is None,
    }
}

/// The lines that survive filtering, in input order.
pub open spec fn kept_lines(lines: Seq<Seq<char>>, range: Option<LineRange>) -> Seq<Seq<char>>
    decreases lines.len(),
{
    if lines.len() == 0 {
        Seq::empty()
    } else {
        let rest = kept_lines(lines.drop_last(), range);
        if keeps(range, lines.last()) {
            rest.push(lines.last())
        } else {
            rest
        }
    }
}

/// Lines rejoined with `\n` between them, as `[&str]::join` rejoins them.
pub open spec fn join_lines(lines: Seq<Seq<char>>) -> Seq<char>
    decreases lines.len(),
{
    if lines.len() == 0 {
        Seq::empty()
    } else if lines.len() == 1 {
        lines[0]
    } else {
        join_lines(lines.drop_last()) + seq!['\n'] + lines.last()
    }
}

/// What the whole filter returns on a given input and optional range.
pub open spec fn spec_filter(s: Seq<char>, range: Option<LineRange>) -> Seq<char> {
    join_lines(kept_lines(lines_of(s), range))
}

/// Filters the input text: each line is classified, kept or dropped against
/// the optional range, and the kept lines are rejoined with `\n`.
pub fn filter_errors(input: &str, line_range: Option<LineRange>) -> (r: String)
    ensures
        r@ == spec_filter(input@, line_range),
{
    let n = input.unicode_len();
    let mut result = String::new();
    let mut any_kept = false;
    let mut pos: usize = 0;
    let ghost mut done: Seq<Seq<char>> = Seq::empty();
    proof {
        assert(input@.skip(0) =~= input@);
        assert(lines_of(input@) =~= done + lines_of(input@.skip(0)));
    }
    while pos < n
        invariant
            0 <= pos <= n,
            n == input@.len(),
            lines_of(input@) == done + lines_of(input@.skip(pos as int)),
            result@ == join_lines(kept_lines(done, line_range)),
            any_kept == (kept_lines(done, line_range).len() != 0),
        decreases n - pos,
    {
        let ghost rem = input@.skip(pos as int);
        let (piece, next_pos): (&str, usize) = match find_char_from(input, '\n', pos) {
            Some(i) => {
                proof {
                    assert(rem.take(i - pos) =~= input@.subrange(pos as int, i as int));
                    assert(rem.skip(i - pos + 1) =~= input@.skip(i + 1));
                }
                if i > pos && input.get_char(i - 1) == '\r' {
                    proof {
                        assert(strip_cr(rem.take(i - pos)) =~= input@.subrange(
                            pos as int,
                            i - 1,
                        ));
                    }
                    (input.substring_char(pos, i - 1), i + 1)
                } else {
                    proof {
                        assert(strip_cr(rem.take(i - pos)) =~= input@.subrange(
                            pos as int,
                            i as int,
                        ));
                    }
                    (input.substring_char(pos, i), i + 1)
                }
            },
            None => {
                proof {
                    assert(rem =~= input@.subrange(pos as int, n as int));
                }
                (input.substring_char(pos, n), n)
            },
        };
        proof {
            assert(lines_of(rem) =~= seq![piece@] + lines_of(input@.skip(next_pos as int)));
            assert(done + lines_of(rem) =~= (done + seq![piece@]) + lines_of(
                input@.skip(next_pos as int),
            ));
        }
        let keep = match LinterError::parse(piece) {
            Some(err) => match line_range {
                Some(r) => r.contains(err.line),
                None => true,
            },
            None => line_range.is_none(),
        };
        let ghost done1 = done + seq![piece@];
        proof {
            assert(keep == keeps(line_range, piece@));
            assert(done1.drop_last() =~= done);
            assert(done1.last() == piece@);
        }
        if keep {
            if any_kept {
                result.append("\n");
                proof {
                    reveal_strlit("\n");
                    assert("\n"@ =~= seq!['\n']);
                }
            }
            result.append(piece);
            proof {
                let ks = kept_lines(done, line_range);
                assert(kept_lines(done1, line_range) == ks.push(piece@));
                if ks.len() == 0 {
                    assert(join_lines(ks.push(piece@)) == piece@);
                    assert(result@ =~= Seq::<char>::empty() + piece@);
                } else {
                    assert(ks.push(piece@).drop_last() =~= ks);
                    assert(join_lines(ks.push(piece@)) == join_lines(ks) + seq!['\n'] + piece@);
                }
            }
            any_kept = true;
        } else {
            proof {
                assert(kept_lines(done1, line_range) == kept_lines(done, line_range));
            }
        }
        proof {
            done = done1;
        }
        pos = next_pos;
    }
    proof {
        assert(input@.skip(n as int) =~= Seq::<char>::empty());
        assert(lines_of(input@.skip(n as int)) =~= Seq::<Seq<char>>::empty());
        assert(done + lines_of(input@.skip(n as int)) =~= done);
    }
    result
}

} // verus!
