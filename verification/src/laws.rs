//! Library-wide laws, each proved once and for all inputs: how well-formed
//! range strings parse, and how the filter treats each class of line.

use vstd::prelude::*;
use crate::classify::line_number_of;
use crate::filter::{join_lines, keeps, kept_lines, lines_of, spec_filter, strip_cr};
use crate::range::{end_text, start_text, well_dashed, LineRange};
use crate::text::{
    all_digits, find_char, is_ascii_digit, lemma_find_char_bounds, lemma_find_char_found,
    lemma_find_char_none, parses_as_usize, str_to_nat, usize_value,
};

verus! {

/// A well-formed range string built from two digit numerals parses to exactly
/// that pair of values: the string `a ++ "-" ++ b` splits on its single dash
/// into `a` and `b`, and each bound's value is its decimal value. Together
/// with `LineRange::parse`'s contract this forces success with exactly the
/// pair `(a, b)` when `a`'s value does not exceed `b`'s, and the
/// inverted-range error carrying both values otherwise.
pub proof fn lemma_parse_of_numeral_pair(a: Seq<char>, b: Seq<char>)
    requires
        a.len() > 0,
        all_digits(a),
        str_to_nat(a) <= usize::MAX,
        b.len() > 0,
        all_digits(b),
        str_to_nat(b) <= usize::MAX,
    ensures
        well_dashed(a + seq!['-'] + b),
        start_text(a + seq!['-'] + b) == a,
        end_text(a + seq!['-'] + b) == b,
        parses_as_usize(a) && usize_value(a) == str_to_nat(a),
        parses_as_usize(b) && usize_value(b) == str_to_nat(b),
{
    let s = a + seq!['-'] + b;
    assert(forall|c: char| is_ascii_digit(c) ==> c != '-' && c != '+');
    assert(s[a.len() as int] == '-');
    assert(forall|j: int| 0 <= j < a.len() ==> s[j] == a[j] && s[j] != '-');
    lemma_find_char_found(s, '-', a.len() as int);
    assert(s.skip(a.len() + 1 as int) =~= b);
    lemma_find_char_none(b, '-');
    assert(s.take(a.len() as int) =~= a);
}

/// Every line survives an absent range, so `kept_lines` is the identity.
pub proof fn lemma_kept_lines_no_range(lines: Seq<Seq<char>>)
    ensures
        kept_lines(lines, None) == lines,
    decreases lines.len(),
{
    if lines.len() > 0 {
        lemma_kept_lines_no_range(lines.drop_last());
        assert(kept_lines(lines, None) =~= lines);
    } else {
        assert(kept_lines(lines, None) =~= lines);
    }
}

/// A non-empty text breaks into at least one line.
proof fn lemma_lines_of_nonempty(s: Seq<char>)
    requires
        s.len() > 0,
    ensures
        lines_of(s).len() > 0,
{
    lemma_find_char_bounds(s, '\n');
}

/// Joining a first line onto further joined lines puts one separator between.
proof fn lemma_join_cons(x: Seq<char>, ys: Seq<Seq<char>>)
    ensures
        join_lines(seq![x] + ys) == if ys.len() == 0 {
            x
        } else {
            x + seq!['\n'] + join_lines(ys)
        },
    decreases ys.len(),
{
    let all = seq![x] + ys;
    if ys.len() == 0 {
        assert(all =~= seq![x]);
        assert(join_lines(all) == x);
    } else if ys.len() == 1 {
        assert(all.len() == 2);
        assert(all.drop_last() =~= seq![x]);
        assert(all.last() == ys[0]);
        assert(join_lines(all) == join_lines(all.drop_last()) + seq!['\n'] + all.last());
        assert(join_lines(seq![x]) == x);
        assert(join_lines(ys) == ys[0]);
    } else {
        lemma_join_cons(x, ys.drop_last());
        assert(all.drop_last() =~= seq![x] + ys.drop_last());
        assert(all.last() == ys.last());
        assert(join_lines(all) == join_lines(all.drop_last()) + seq!['\n'] + all.last());
        assert(join_lines(all.drop_last()) == x + seq!['\n'] + join_lines(ys.drop_last()));
        assert(join_lines(ys) == join_lines(ys.drop_last()) + seq!['\n'] + ys.last());
        assert((x + seq!['\n'] + join_lines(ys.drop_last())) + seq!['\n'] + ys.last() =~= x
            + seq!['\n'] + (join_lines(ys.drop_last()) + seq!['\n'] + ys.last()));
    }
}

/// Splitting a text into lines and rejoining them is the identity, for texts
/// in line-joined form: no trailing newline and no carriage return before a
/// newline.
proof fn lemma_join_lines_of(s: Seq<char>)
    requires
        s.len() > 0 ==> s[s.len() - 1] != '\n',
        forall|i: int| 0 < i < s.len() && #[trigger] s[i] == '\n' ==> s[i - 1] != '\r',
    ensures
        join_lines(lines_of(s)) == s,
    decreases s.len(),
{
    if s.len() == 0 {
        assert(join_lines(lines_of(s)) =~= s);
    } else {
        lemma_find_char_bounds(s, '\n');
        match find_char(s, '\n') {
            None => {
                assert(lines_of(s) == seq![s]);
            },
            Some(i) => {
                let piece = s.take(i);
                let rest = s.skip(i + 1);
                assert(s[i] == '\n');
                assert(i + 1 < s.len());
                assert(strip_cr(piece) == piece) by {
                    if i > 0 {
                        assert(piece[i - 1] == s[i - 1]);
                        assert(s[i - 1] != '\r');
                    }
                }
                assert(rest[rest.len() - 1] == s[s.len() - 1]);
                assert forall|k: int|
                    0 < k < rest.len() && #[trigger] rest[k] == '\n' implies rest[k - 1]
                    != '\r' by {
                    assert(rest[k] == s[k + i + 1]);
                    assert(rest[k - 1] == s[k + i]);
                }
                lemma_join_lines_of(rest);
                lemma_lines_of_nonempty(rest);
                lemma_join_cons(piece, lines_of(rest));
                assert(piece + seq!['\n'] + rest =~= s);
            },
        }
    }
}

/// With no range supplied the filter is the identity: every line, located or
/// plain, is kept, and the kept lines rejoin to the input. Holds for inputs
/// in line-joined form: no trailing newline and no carriage return before a
/// newline, since line splitting erases those.
pub proof fn lemma_filter_no_range_identity(s: Seq<char>)
    requires
        s.len() > 0 ==> s[s.len() - 1] != '\n',
        forall|i: int| 0 < i < s.len() && #[trigger] s[i] == '\n' ==> s[i - 1] != '\r',
    ensures
        spec_filter(s, None) == s,
{
    lemma_kept_lines_no_range(lines_of(s));
    lemma_join_lines_of(s);
}

/// A location-bearing line with number `n` survives an active range exactly
/// when `n` lies within the range's inclusive bounds.
pub proof fn lemma_located_line_kept_iff(line: Seq<char>, n: nat, range: LineRange)
    requires
        line_number_of(line) == Some(n),
    ensures
        keeps(Some(range), line) == (range.start <= n <= range.end),
{
}

/// A plain line survives exactly when no range is active.
pub proof fn lemma_plain_line_kept_iff(line: Seq<char>, range: Option<LineRange>)
    requires
        line_number_of(line) is None,
    ensures
        keeps(range, line) == (range is None),
{
}

} // verus!
