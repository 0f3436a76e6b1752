//! Character-level and sequence-level building blocks: whitespace and digit
//! classification, decimal parsing, searching, trimming and tokenising, with
//! the spec functions that the library's contracts are written over.

use vstd::prelude::*;

verus! {

// ---------------------------------------------------------------------------
// Character classes
// ---------------------------------------------------------------------------

/// The Unicode `White_Space` characters, as `char::is_whitespace` accepts them.
pub open spec fn is_space(c: char) -> bool {
    let u = c as u32;
    ||| u == 0x09
    ||| u == 0x0A
    ||| u == 0x0B
    ||| u == 0x0C
    ||| u == 0x0D
    ||| u == 0x20
    ||| u == 0x85
    ||| u == 0xA0
    ||| u == 0x1680
    ||| (0x2000 <= u && u <= 0x200A)
    ||| u == 0x2028
    ||| u == 0x2029
    ||| u == 0x202F
    ||| u == 0x205F
    ||| u == 0x3000
}

pub open spec fn is_ascii_digit(c: char) -> bool {
    0x30 <= c as u32 && c as u32 <= 0x39
}

pub open spec fn digit_val(c: char) -> nat {
    (c as u32 - 0x30) as nat
}

pub fn is_space_char(c: char) -> (r: bool)
    ensures
        r == is_space(c),
{
    let u = c as u32;
    u == 0x09 || u == 0x0A || u == 0x0B || u == 0x0C || u == 0x0D || u == 0x20 || u == 0x85
        || u == 0xA0 || u == 0x1680 || (0x2000 <= u && u <= 0x200A) || u == 0x2028 || u == 0x2029
        || u == 0x202F || u == 0x205F || u == 0x3000
}

// ---------------------------------------------------------------------------
// Decimal numerals
// ---------------------------------------------------------------------------

/// Value of a sequence of decimal digits, most significant first.
pub open spec fn str_to_nat(s: Seq<char>) -> nat
    decreases s.len(),
{
    if s.len() == 0 {
        0
    } else {
        str_to_nat(s.drop_last()) * 10 + digit_val(s.last())
    }
}

pub open spec fn all_digits(s: Seq<char>) -> bool {
    forall|i: int| 0 <= i < s.len() ==> is_ascii_digit(#[trigger] s[i])
}

/// The digit portion of a numeral: everything after an optional leading `+`.
pub open spec fn digits_of(s: Seq<char>) -> Seq<char> {
    if s.len() > 0 && s[0] == '+' {
        s.drop_first()
    } else {
        s
    }
}

/// Exactly the strings `usize::from_str` accepts: an optional `+`, then at
/// least one digit, with a value that fits in `usize`.
pub open spec fn parses_as_usize(s: Seq<char>) -> bool {
    &&& digits_of(s).len() > 0
    &&& all_digits(digits_of(s))
    &&& str_to_nat(digits_of(s)) <= usize::MAX
}

pub open spec fn usize_value(s: Seq<char>) -> nat {
    str_to_nat(digits_of(s))
}

/// Extending a digit string cannot shrink its value.
proof fn lemma_str_to_nat_prefix(s: Seq<char>, k: int)
    requires
        0 <= k <= s.len(),
    ensures
        str_to_nat(s.take(k)) <= str_to_nat(s),
    decreases s.len() - k,
{
    if k < s.len() {
        lemma_str_to_nat_prefix(s, k + 1);
        assert(s.take(k + 1).drop_last() =~= s.take(k));
        assert(str_to_nat(s.take(k + 1)) == str_to_nat(s.take(k)) * 10 + digit_val(s.take(k + 1).last()));
        assert(s.take(s.len() as int) =~= s);
    } else {
        assert(s.take(k) =~= s);
    }
}

/// Mirrors `str::parse::<usize>`: `Some` exactly on well-formed numerals whose
/// value fits, and then the decimal value itself.
pub fn parse_usize_str(s: &str) -> (r: Option<usize>)
    ensures
        r is Some <==> parses_as_usize(s@),
        r matches Some(v) ==> v == usize_value(s@),
{
    let n = s.unicode_len();
    if n == 0 {
        return None;
    }
    let off: usize = if s.get_char(0) == '+' {
        1
    } else {
        0
    };
    proof {
        assert(digits_of(s@) =~= s@.subrange(off as int, n as int));
    }
    if off == n {
        return None;
    }
    let mut acc: usize = 0;
    let mut i: usize = off;
    while i < n
        invariant
            off <= i <= n,
            n == s@.len(),
            digits_of(s@) =~= s@.subrange(off as int, n as int),
            all_digits(s@.subrange(off as int, i as int)),
            acc == str_to_nat(s@.subrange(off as int, i as int)),
        decreases n - i,
    {
        let c = s.get_char(i);
        let u = c as u32;
        if u < 0x30 || u > 0x39 {
            proof {
                assert(digits_of(s@)[i - off] == s@[i as int]);
            }
            return None;
        }
        let d = (u - 0x30) as usize;
        let ghost prefix = s@.subrange(off as int, i as int);
        let ghost prefix1 = s@.subrange(off as int, i + 1);
        proof {
            assert(prefix1.drop_last() =~= prefix);
            assert(prefix1.last() == s@[i as int]);
        }
        if acc > (usize::MAX - d) / 10 {
            proof {
                assert(acc * 10 + d > usize::MAX) by (nonlinear_arith)
                    requires
                        acc > (usize::MAX - d) / 10,
                        d <= 9,
                ;
                if parses_as_usize(s@) {
                    lemma_str_to_nat_prefix(digits_of(s@), i + 1 - off);
                    assert(digits_of(s@).take(i + 1 - off) =~= prefix1);
                }
            }
            return None;
        }
        proof {
            assert(acc * 10 + d <= usize::MAX) by (nonlinear_arith)
                requires
                    acc <= (usize::MAX - d) / 10,
                    d <= 9,
            ;
        }
        acc = acc * 10 + d;
        i = i + 1;
    }
    proof {
        assert(s@.subrange(off as int, n as int) =~= digits_of(s@));
    }
    Some(acc)
}

// ---------------------------------------------------------------------------
// Searching
// ---------------------------------------------------------------------------

/// Index of the first occurrence of `c` in `s`, if any.
pub open spec fn find_char(s: Seq<char>, c: char) -> Option<int>
    decreases s.len(),
{
    if s.len() == 0 {
        None
    } else if s[0] == c {
        Some(0)
    } else {
        match find_char(s.drop_first(), c) {
            None => None,
            Some(i) => Some(i + 1),
        }
    }
}

pub proof fn lemma_find_char_found(s: Seq<char>, c: char, i: int)
    requires
        0 <= i < s.len(),
        s[i] == c,
        forall|j: int| 0 <= j < i ==> s[j] != c,
    ensures
        find_char(s, c) == Some(i),
    decreases i,
{
    if i > 0 {
        lemma_find_char_found(s.drop_first(), c, i - 1);
    }
}

pub proof fn lemma_find_char_none(s: Seq<char>, c: char)
    requires
        forall|j: int| 0 <= j < s.len() ==> s[j] != c,
    ensures
        find_char(s, c) is None,
    decreases s.len(),
{
    if s.len() > 0 {
        lemma_find_char_none(s.drop_first(), c);
    }
}

pub broadcast proof fn lemma_find_char_bounds(s: Seq<char>, c: char)
    ensures
        #[trigger] find_char(s, c) matches Some(i) ==> 0 <= i < s.len() && s[i] == c && (forall|j: int|
            0 <= j < i ==> s[j] != c),
    decreases s.len(),
{
    if s.len() > 0 && s[0] != c {
        lemma_find_char_bounds(s.drop_first(), c);
        match find_char(s.drop_first(), c) {
            Some(i0) => {
                assert(s.drop_first()[i0] == s[i0 + 1]);
                assert(forall|j: int| 1 <= j < i0 + 1 ==> s[j] == s.drop_first()[j - 1]);
            },
            None => {},
        }
    }
}

/// First occurrence of `c` in `s` at or after index `from`.
pub fn find_char_from(s: &str, c: char, from: usize) -> (r: Option<usize>)
    requires
        from <= s@.len(),
    ensures
        match r {
            Some(i) => {
                &&& from <= i < s@.len()
                &&& find_char(s@.skip(from as int), c) == Some(i - from)
            },
            None => find_char(s@.skip(from as int), c) is None,
        },
{
    let n = s.unicode_len();
    let mut i: usize = from;
    while i < n
        invariant
            from <= i <= n,
            n == s@.len(),
            forall|j: int| from <= j < i ==> s@[j] != c,
        decreases n - i,
    {
        if s.get_char(i) == c {
            proof {
                let t = s@.skip(from as int);
                assert(t[i - from] == s@[i as int]);
                assert(forall|j: int| 0 <= j < i - from ==> t[j] == s@[j + from] && t[j] != c);
                lemma_find_char_found(t, c, i - from);
            }
            return Some(i);
        }
        i = i + 1;
    }
    proof {
        let t = s@.skip(from as int);
        assert(forall|j: int| 0 <= j < t.len() ==> t[j] == s@[j + from] && t[j] != c);
        lemma_find_char_none(t, c);
    }
    None
}

// ---------------------------------------------------------------------------
// Trimming and tokens
// ---------------------------------------------------------------------------

pub open spec fn trim_start(s: Seq<char>) -> Seq<char>
    decreases s.len(),
{
    if s.len() > 0 && is_space(s[0]) {
        trim_start(s.drop_first())
    } else {
        s
    }
}

pub open spec fn trim_end(s: Seq<char>) -> Seq<char>
    decreases s.len(),
{
    if s.len() > 0 && is_space(s.last()) {
        trim_end(s.drop_last())
    } else {
        s
    }
}

/// What `str::trim` leaves: the input without leading and trailing whitespace.
pub open spec fn trim(s: Seq<char>) -> Seq<char> {
    trim_end(trim_start(s))
}

pub proof fn lemma_trim_start_skip(s: Seq<char>, i: int)
    requires
        0 <= i <= s.len(),
        forall|j: int| 0 <= j < i ==> is_space(s[j]),
        i < s.len() ==> !is_space(s[i]),
    ensures
        trim_start(s) == s.skip(i),
    decreases i,
{
    if i > 0 {
        lemma_trim_start_skip(s.drop_first(), i - 1);
        assert(s.drop_first().skip(i - 1) =~= s.skip(i));
    } else {
        assert(s.skip(0) =~= s);
    }
}

pub proof fn lemma_trim_end_take(s: Seq<char>, b: int)
    requires
        0 <= b <= s.len(),
        forall|j: int| b <= j < s.len() ==> is_space(s[j]),
        b > 0 ==> !is_space(s[b - 1]),
    ensures
        trim_end(s) == s.take(b),
    decreases s.len() - b,
{
    if b < s.len() {
        lemma_trim_end_take(s.drop_last(), b);
        assert(s.drop_last().take(b) =~= s.take(b));
    } else {
        assert(s.take(b) =~= s);
    }
}

/// Index of the first whitespace character at or after `from`, or the length.
pub fn scan_token(s: &str, from: usize) -> (r: usize)
    requires
        from <= s@.len(),
    ensures
        from <= r <= s@.len(),
        forall|j: int| from <= j < r ==> !is_space(s@[j]),
        r < s@.len() ==> is_space(s@[r as int]),
{
    let n = s.unicode_len();
    let mut i: usize = from;
    while i < n
        invariant
            from <= i <= n,
            n == s@.len(),
            forall|j: int| from <= j < i ==> !is_space(s@[j]),
        decreases n - i,
    {
        if is_space_char(s.get_char(i)) {
            return i;
        }
        i = i + 1;
    }
    i
}

/// Index of the first non-whitespace character at or after `from`, or the length.
pub fn scan_spaces(s: &str, from: usize) -> (r: usize)
    requires
        from <= s@.len(),
    ensures
        from <= r <= s@.len(),
        forall|j: int| from <= j < r ==> is_space(s@[j]),
        r < s@.len() ==> !is_space(s@[r as int]),
{
    let n = s.unicode_len();
    let mut i: usize = from;
    while i < n
        invariant
            from <= i <= n,
            n == s@.len(),
            forall|j: int| from <= j < i ==> is_space(s@[j]),
        decreases n - i,
    {
        if !is_space_char(s.get_char(i)) {
            return i;
        }
        i = i + 1;
    }
    i
}

/// Mirrors `str::trim`.
pub fn trim_str<'a>(s: &'a str) -> (r: &'a str)
    ensures
        r@ == trim(s@),
{
    let n = s.unicode_len();
    let a = scan_spaces(s, 0);
    proof {
        lemma_trim_start_skip(s@, a as int);
    }
    let mut b: usize = n;
    while b > a && is_space_char(s.get_char(b - 1))
        invariant
            a <= b <= n,
            n == s@.len(),
            forall|j: int| b <= j < n ==> is_space(s@[j]),
        decreases b,
    {
        b = b - 1;
    }
    proof {
        let t = s@.skip(a as int);
        assert(forall|j: int| b - a <= j < t.len() ==> t[j] == s@[j + a] && is_space(t[j]));
        if b > a {
            assert(t[b - a - 1] == s@[b - 1]);
        }
        lemma_trim_end_take(t, b - a);
        assert(t.take(b - a) =~= s@.subrange(a as int, b as int));
    }
    s.substring_char(a, b)
}

// ---------------------------------------------------------------------------
// Whitespace-delimited tokens
// ---------------------------------------------------------------------------

/// Length of the whitespace-free run at the front of `s`.
pub open spec fn token_len(s: Seq<char>) -> int
    decreases s.len(),
{
    if s.len() == 0 || is_space(s[0]) {
        0
    } else {
        1 + token_len(s.drop_first())
    }
}

pub proof fn lemma_token_len_at(s: Seq<char>, k: int)
    requires
        0 <= k <= s.len(),
        forall|j: int| 0 <= j < k ==> !is_space(s[j]),
        k < s.len() ==> is_space(s[k]),
    ensures
        token_len(s) == k,
    decreases k,
{
    if k > 0 {
        lemma_token_len_at(s.drop_first(), k - 1);
    }
}

/// The second whitespace-delimited token of `s`, as `split_whitespace` yields
/// it, or `None` when `s` holds fewer than two tokens.
pub open spec fn second_token(s: Seq<char>) -> Option<Seq<char>> {
    let t = trim_start(s);
    if t.len() == 0 {
        None
    } else {
        let rest = trim_start(t.skip(token_len(t)));
        if rest.len() == 0 {
            None
        } else {
            Some(rest.take(token_len(rest)))
        }
    }
}

pub fn second_token_str<'a>(s: &'a str) -> (r: Option<&'a str>)
    ensures
        match r {
            Some(tok) => second_token(s@) == Some(tok@),
            None => second_token(s@) is None,
        },
{
    let n = s.unicode_len();
    let a = scan_spaces(s, 0);
    proof {
        lemma_trim_start_skip(s@, a as int);
    }
    if a == n {
        proof {
            assert(s@.skip(a as int).len() == 0);
        }
        return None;
    }
    let ghost t = s@.skip(a as int);
    let e1 = scan_token(s, a);
    proof {
        assert(forall|j: int| 0 <= j < e1 - a ==> t[j] == s@[j + a] && !is_space(t[j]));
        if e1 < n {
            assert(t[e1 - a] == s@[e1 as int]);
        }
        lemma_token_len_at(t, e1 - a);
        assert(t.skip(e1 - a) =~= s@.skip(e1 as int));
    }
    let a2 = scan_spaces(s, e1);
    proof {
        lemma_trim_start_skip(s@.skip(e1 as int), a2 - e1);
        assert(s@.skip(e1 as int).skip(a2 - e1) =~= s@.skip(a2 as int));
    }
    if a2 == n {
        proof {
            assert(s@.skip(a2 as int).len() == 0);
        }
        return None;
    }
    let ghost rest = s@.skip(a2 as int);
    let e2 = scan_token(s, a2);
    proof {
        assert(forall|j: int| 0 <= j < e2 - a2 ==> rest[j] == s@[j + a2] && !is_space(rest[j]));
        if e2 < n {
            assert(rest[e2 - a2] == s@[e2 as int]);
        }
        lemma_token_len_at(rest, e2 - a2);
        assert(rest.take(e2 - a2) =~= s@.subrange(a2 as int, e2 as int));
    }
    Some(s.substring_char(a2, e2))
}

// ---------------------------------------------------------------------------
// Colon-delimited fields
// ---------------------------------------------------------------------------

/// The second colon-separated part of `s`: the text between the first `:` and
/// the next `:` or the end. `None` when `s` holds no colon.
pub open spec fn colon_field(s: Seq<char>) -> Option<Seq<char>> {
    match find_char(s, ':') {
        None => None,
        Some(i) => {
            let rest = s.skip(i + 1);
            match find_char(rest, ':') {
                None => Some(rest),
                Some(j) => Some(rest.take(j)),
            }
        },
    }
}

/// Whether splitting `s` on `:` yields at least three parts.
pub open spec fn has_two_colons(s: Seq<char>) -> bool {
    match find_char(s, ':') {
        None => false,
        Some(i) => find_char(s.skip(i + 1), ':') is Some,
    }
}

#[verifier::rlimit(50)]
pub fn colon_field_str<'a>(s: &'a str) -> (r: Option<&'a str>)
    ensures
        match r {
            Some(f) => colon_field(s@) == Some(f@),
            None => colon_field(s@) is None,
        },
{
    let n = s.unicode_len();
    proof {
        assert(s@.skip(0) =~= s@);
    }
    match find_char_from(s, ':', 0) {
        None => None,
        Some(i) => {
            let ghost rest = s@.skip(i + 1);
            match find_char_from(s, ':', i + 1) {
                None => {
                    proof {
                        assert(rest =~= s@.subrange(i + 1, n as int));
                    }
                    Some(s.substring_char(i + 1, n))
                },
                Some(j) => {
                    proof {
                        assert(rest.take(j - (i + 1)) =~= s@.subrange(i + 1, j as int));
                    }
                    Some(s.substring_char(i + 1, j))
                },
            }
        },
    }
}

} // verus!
