//! Reading a coordinate pair out of text.
//!
//! The accepted shape is two unsigned integers separated by one space,
//! optionally wrapped in parentheses and/or surrounded by trailing or
//! leading whitespace inside the wrapping: the wrapping characters
//! (parentheses and newlines) are stripped from both ends first, ASCII
//! whitespace second. Anything else is rejected: a token count other than
//! two with `IndexError`, a malformed or oversized number with
//! `FormatError`.

use crate::position::{Position, PositionError};
use vstd::prelude::*;
use vstd::string::{StrSliceExecFns, StringExecFns};

verus! {

/// Characters stripped by the first trimming pass.
pub open spec fn is_wrap_char(c: char) -> bool {
    c == '(' || c == ')' || c == '\n'
}

/// ASCII whitespace, stripped by the second trimming pass.
pub open spec fn is_blank_char(c: char) -> bool {
    c == ' ' || (9 <= c as int && c as int <= 13)
}

/// A decimal digit.
pub open spec fn is_digit(c: char) -> bool {
    48 <= c as int && c as int <= 57
}

/// The numeric value of a digit character.
pub open spec fn digit_val(c: char) -> int {
    c as int - 48
}

/// Every character is a decimal digit.
pub open spec fn all_digits(s: Seq<char>) -> bool {
    forall|i: int| 0 <= i < s.len() ==> is_digit(#[trigger] s[i])
}

/// The value of a digit string, most significant first.
pub open spec fn digits_value(s: Seq<char>) -> int
    decreases s.len(),
{
    if s.len() == 0 {
        0
    } else {
        digits_value(s.subrange(0, s.len() - 1)) * 10 + digit_val(s[s.len() - 1])
    }
}

/// The string with its leading wrapping characters removed.
pub open spec fn trim_start_wrap(s: Seq<char>) -> Seq<char>
    decreases s.len(),
{
    if s.len() > 0 && is_wrap_char(s[0]) {
        trim_start_wrap(s.subrange(1, s.len() as int))
    } else {
        s
    }
}

/// The string with its trailing wrapping characters removed.
pub open spec fn trim_end_wrap(s: Seq<char>) -> Seq<char>
    decreases s.len(),
{
    if s.len() > 0 && is_wrap_char(s[s.len() - 1]) {
        trim_end_wrap(s.subrange(0, s.len() - 1))
    } else {
        s
    }
}

/// The string with its leading ASCII whitespace removed.
pub open spec fn trim_start_blank(s: Seq<char>) -> Seq<char>
    decreases s.len(),
{
    if s.len() > 0 && is_blank_char(s[0]) {
        trim_start_blank(s.subrange(1, s.len() as int))
    } else {
        s
    }
}

/// The string with its trailing ASCII whitespace removed.
pub open spec fn trim_end_blank(s: Seq<char>) -> Seq<char>
    decreases s.len(),
{
    if s.len() > 0 && is_blank_char(s[s.len() - 1]) {
        trim_end_blank(s.subrange(0, s.len() - 1))
    } else {
        s
    }
}

/// Both trimming passes: wrapping characters from both ends first, ASCII
/// whitespace second.
pub open spec fn trimmed(s: Seq<char>) -> Seq<char> {
    trim_end_blank(trim_start_blank(trim_end_wrap(trim_start_wrap(s))))
}

/// Number of occurrences of `c`.
pub open spec fn count_char(s: Seq<char>, c: char) -> int
    decreases s.len(),
{
    if s.len() == 0 {
        0
    } else {
        count_char(s.subrange(0, s.len() - 1), c) + if s[s.len() - 1] == c {
            1int
        } else {
            0int
        }
    }
}

/// The number a token denotes, if it is one: an optional leading plus sign,
/// then at least one decimal digit, with a value that fits the coordinate
/// type.
pub open spec fn spec_parse_u8(s: Seq<char>) -> Option<u8> {
    let t = if s.len() > 0 && s[0] == '+' {
        s.subrange(1, s.len() as int)
    } else {
        s
    };
    if t.len() > 0 && all_digits(t) && digits_value(t) <= 255 {
        Some(digits_value(t) as u8)
    } else {
        None
    }
}

/// What parsing a coordinate line yields: after trimming, the text must
/// split at exactly one space into two number tokens.
pub open spec fn spec_parse_position(s: Seq<char>) -> Result<Position, PositionError> {
    let t = trimmed(s);
    if count_char(t, ' ') != 1 {
        Err(PositionError::IndexError)
    } else {
        let i = choose|i: int| 0 <= i < t.len() && t[i] == ' ';
        match (spec_parse_u8(t.subrange(0, i)), spec_parse_u8(t.subrange(i + 1, t.len() as int))) {
            (Some(x), Some(y)) => Ok(Position { x, y }),
            _ => Err(PositionError::FormatError),
        }
    }
}

/// Occurrence counts never go negative.
proof fn lemma_count_nonneg(s: Seq<char>, c: char)
    ensures
        count_char(s, c) >= 0,
    decreases s.len(),
{
    if s.len() > 0 {
        lemma_count_nonneg(s.subrange(0, s.len() - 1), c);
    }
}

/// An occurrence makes the count at least one.
proof fn lemma_count_at_least_one(s: Seq<char>, c: char, i: int)
    requires
        0 <= i < s.len(),
        s[i] == c,
    ensures
        count_char(s, c) >= 1,
    decreases s.len(),
{
    lemma_count_nonneg(s.subrange(0, s.len() - 1), c);
    if i < s.len() - 1 {
        assert(s.subrange(0, s.len() - 1)[i] == c);
        lemma_count_at_least_one(s.subrange(0, s.len() - 1), c, i);
    }
}

/// Two distinct occurrences make the count at least two.
proof fn lemma_count_at_least_two(s: Seq<char>, c: char, i: int, j: int)
    requires
        0 <= i < j < s.len(),
        s[i] == c,
        s[j] == c,
    ensures
        count_char(s, c) >= 2,
    decreases s.len(),
{
    if j == s.len() - 1 {
        assert(s.subrange(0, s.len() - 1)[i] == c);
        lemma_count_at_least_one(s.subrange(0, s.len() - 1), c, i);
    } else {
        assert(s.subrange(0, s.len() - 1)[i] == c);
        assert(s.subrange(0, s.len() - 1)[j] == c);
        lemma_count_at_least_two(s.subrange(0, s.len() - 1), c, i, j);
    }
}

/// With at most one occurrence, any two occurrences are the same one.
proof fn lemma_count_unique(s: Seq<char>, c: char, i: int, j: int)
    requires
        count_char(s, c) <= 1,
        0 <= i < s.len(),
        0 <= j < s.len(),
        s[i] == c,
        s[j] == c,
    ensures
        i == j,
{
    if i < j {
        lemma_count_at_least_two(s, c, i, j);
    } else if j < i {
        lemma_count_at_least_two(s, c, j, i);
    }
}

/// A digit string's value is not negative.
proof fn lemma_digits_nonneg(s: Seq<char>)
    requires
        all_digits(s),
    ensures
        digits_value(s) >= 0,
    decreases s.len(),
{
    if s.len() > 0 {
        assert(all_digits(s.subrange(0, s.len() - 1)));
        lemma_digits_nonneg(s.subrange(0, s.len() - 1));
    }
}

/// Extending a digit string never lowers its value.
proof fn lemma_digits_prefix_le(s: Seq<char>, m: int)
    requires
        all_digits(s),
        0 <= m <= s.len(),
    ensures
        digits_value(s.subrange(0, m)) <= digits_value(s),
    decreases s.len() - m,
{
    if m == s.len() {
        assert(s.subrange(0, m) =~= s);
    } else {
        let shorter = s.subrange(0, s.len() - 1);
        assert(all_digits(shorter));
        assert(shorter.subrange(0, m) =~= s.subrange(0, m));
        lemma_digits_prefix_le(shorter, m);
        lemma_digits_nonneg(shorter);
    }
}

/// Decide `is_wrap_char`.
fn is_wrap_exec(c: char) -> (r: bool)
    ensures
        r == is_wrap_char(c),
{
    c == '(' || c == ')' || c == '\n'
}

/// Decide `is_blank_char`.
fn is_blank_exec(c: char) -> (r: bool)
    ensures
        r == is_blank_char(c),
{
    let u = c as u32;
    c == ' ' || (9 <= u && u <= 13)
}

/// Parse the token at `s[lo..hi]` (in characters) as a number.
fn parse_u8_range(s: &str, lo: usize, hi: usize) -> (r: Option<u8>)
    requires
        lo <= hi <= s@.len(),
    ensures
        r == spec_parse_u8(s@.subrange(lo as int, hi as int)),
{
    let ghost tok = s@.subrange(lo as int, hi as int);
    let mut i = lo;
    if i < hi && s.get_char(i) == '+' {
        i = i + 1;
    }
    let ghost t = if tok.len() > 0 && tok[0] == '+' {
        tok.subrange(1, tok.len() as int)
    } else {
        tok
    };
    proof {
        assert(t =~= s@.subrange(i as int, hi as int));
    }
    if i == hi {
        return None;
    }
    let mut acc: u32 = 0;
    let mut k = i;
    while k < hi
        invariant
            lo <= i <= hi <= s@.len(),
            i <= k <= hi,
            acc <= 255,
            tok == s@.subrange(lo as int, hi as int),
            t == (if tok.len() > 0 && tok[0] == '+' {
                tok.subrange(1, tok.len() as int)
            } else {
                tok
            }),
            t =~= s@.subrange(i as int, hi as int),
            all_digits(s@.subrange(i as int, k as int)),
            acc as int == digits_value(s@.subrange(i as int, k as int)),
        decreases hi - k,
    {
        let c = s.get_char(k);
        let u = c as u32;
        if u < 48 || u > 57 {
            proof {
                assert(t[k - i] == c);
                assert(!is_digit(c));
                assert(!all_digits(t));
                assert(spec_parse_u8(tok) is None);
            }
            return None;
        }
        let d = u - 48;
        proof {
            let prev = s@.subrange(i as int, k as int);
            let next = s@.subrange(i as int, k as int + 1);
            assert(next.subrange(0, next.len() - 1) =~= prev);
            assert(next[next.len() - 1] == c);
        }
        if acc * 10 + d > 255 {
            proof {
                let next = s@.subrange(i as int, k as int + 1);
                assert(digits_value(next) == acc * 10 + d);
                if all_digits(t) {
                    assert(t.subrange(0, k - i + 1) =~= next);
                    lemma_digits_prefix_le(t, k - i + 1);
                    assert(digits_value(t) > 255);
                }
                assert(spec_parse_u8(tok) is None);
            }
            return None;
        }
        acc = acc * 10 + d;
        k = k + 1;
    }
    proof {
        assert(t =~= s@.subrange(i as int, hi as int));
        assert(all_digits(t));
    }
    Some(acc as u8)
}

impl Position {
    /// Read a coordinate pair out of one line of text.
    #[verifier::rlimit(50)]
    pub fn parse(s: &str) -> (r: Result<Position, PositionError>)
        ensures
            r == spec_parse_position(s@),
    {
        let n = s.unicode_len();
        let mut lo: usize = 0;
        let mut hi: usize = n;
        proof {
            assert(s@.subrange(0, n as int) =~= s@);
        }
        // Strip wrapping characters from the front.
        while lo < hi && is_wrap_exec(s.get_char(lo))
            invariant
                lo <= hi <= n,
                n == s@.len(),
                hi == n,
                trim_start_wrap(s@) == trim_start_wrap(s@.subrange(lo as int, n as int)),
            decreases hi - lo,
        {
            proof {
                let sub = s@.subrange(lo as int, n as int);
                assert(sub.subrange(1, sub.len() as int) =~= s@.subrange(lo as int + 1, n as int));
            }
            lo = lo + 1;
        }
        proof {
            assert(trim_start_wrap(s@) == s@.subrange(lo as int, n as int));
        }
        let ghost lo_w = lo as int;
        // Strip wrapping characters from the back.
        while hi > lo && is_wrap_exec(s.get_char(hi - 1))
            invariant
                lo <= hi <= n,
                n == s@.len(),
                lo as int == lo_w,
                trim_end_wrap(s@.subrange(lo_w, n as int)) == trim_end_wrap(
                    s@.subrange(lo_w, hi as int),
                ),
            decreases hi,
        {
            proof {
                let sub = s@.subrange(lo_w, hi as int);
                assert(sub.subrange(0, sub.len() - 1) =~= s@.subrange(lo_w, hi as int - 1));
            }
            hi = hi - 1;
        }
        let ghost w = s@.subrange(lo as int, hi as int);
        proof {
            assert(w == trim_end_wrap(trim_start_wrap(s@)));
        }
        let ghost hi_w = hi as int;
        // Strip whitespace from the front.
        while lo < hi && is_blank_exec(s.get_char(lo))
            invariant
                lo <= hi <= n,
                n == s@.len(),
                hi as int == hi_w,
                trim_start_blank(w) == trim_start_blank(s@.subrange(lo as int, hi as int)),
            decreases hi - lo,
        {
            proof {
                let sub = s@.subrange(lo as int, hi as int);
                assert(sub.subrange(1, sub.len() as int) =~= s@.subrange(
                    lo as int + 1,
                    hi as int,
                ));
            }
            lo = lo + 1;
        }
        proof {
            assert(trim_start_blank(w) == s@.subrange(lo as int, hi as int));
        }
        let ghost lo_b = lo as int;
        // Strip whitespace from the back.
        while hi > lo && is_blank_exec(s.get_char(hi - 1))
            invariant
                lo <= hi <= n,
                n == s@.len(),
                lo as int == lo_b,
                trim_end_blank(trim_start_blank(w)) == trim_end_blank(
                    s@.subrange(lo_b, hi as int),
                ),
            decreases hi,
        {
            proof {
                let sub = s@.subrange(lo_b, hi as int);
                assert(sub.subrange(0, sub.len() - 1) =~= s@.subrange(lo_b, hi as int - 1));
            }
            hi = hi - 1;
        }
        let ghost t = s@.subrange(lo as int, hi as int);
        proof {
            assert(t == trimmed(s@));
        }
        // Find the single separating space, if there is one.
        let mut cnt: usize = 0;
        let mut split: usize = 0;
        let mut k: usize = lo;
        while k < hi
            invariant
                lo <= k <= hi <= n,
                n == s@.len(),
                cnt <= k,
                cnt as int == count_char(s@.subrange(lo as int, k as int), ' '),
                cnt >= 1 ==> lo <= split < k && s@[split as int] == ' ',
            decreases hi - k,
        {
            let c = s.get_char(k);
            proof {
                let prev = s@.subrange(lo as int, k as int);
                let next = s@.subrange(lo as int, k as int + 1);
                assert(next.subrange(0, next.len() - 1) =~= prev);
                assert(next[next.len() - 1] == c);
            }
            if c == ' ' {
                if cnt == 0 {
                    split = k;
                }
                cnt = cnt + 1;
            }
            k = k + 1;
        }
        if cnt != 1 {
            return Err(PositionError::IndexError);
        }
        proof {
            assert(t[split - lo] == s@[split as int]);
            let i = choose|i: int| 0 <= i < t.len() && t[i] == ' ';
            lemma_count_unique(t, ' ', i, split - lo);
        }
        let xr = parse_u8_range(s, lo, split);
        let yr = parse_u8_range(s, split + 1, hi);
        proof {
            assert(t.subrange(0, split - lo) =~= s@.subrange(lo as int, split as int));
            assert(t.subrange(split - lo + 1, t.len() as int) =~= s@.subrange(
                split as int + 1,
                hi as int,
            ));
        }
        match (xr, yr) {
            (Some(x), Some(y)) => Ok(Position { x, y }),
            _ => Err(PositionError::FormatError),
        }
    }
}

impl core::str::FromStr for Position {
    type Err = PositionError;

    fn from_str(s: &str) -> Result<Position, PositionError> {
        Position::parse(s)
    }
}

/// The digit character for a value in `[0, 9]`.
pub open spec fn digit_char(d: int) -> char {
    (48 + d) as char
}

/// The decimal text of a non-negative value, most significant digit first.
pub open spec fn dec_chars(v: int) -> Seq<char>
    decreases v,
{
    if v < 10 {
        seq![digit_char(v)]
    } else {
        dec_chars(v / 10).push(digit_char(v % 10))
    }
}

/// The canonical text of a position: both coordinates in decimal, separated
/// by one space.
pub open spec fn format_chars(p: Position) -> Seq<char> {
    dec_chars(p.x as int) + seq![' '] + dec_chars(p.y as int)
}

/// Decimal text is non-empty, all digits, and denotes the value it was
/// rendered from.
proof fn lemma_dec_chars(v: int)
    requires
        0 <= v,
    ensures
        dec_chars(v).len() >= 1,
        all_digits(dec_chars(v)),
        digits_value(dec_chars(v)) == v,
    decreases v,
{
    if v < 10 {
        let one = seq![digit_char(v)];
        assert(is_digit(digit_char(v)));
        assert(one.subrange(0, 0) =~= Seq::<char>::empty());
        assert(digits_value(one.subrange(0, 0)) == 0);
        assert(digits_value(one) == v);
    } else {
        lemma_dec_chars(v / 10);
        let u = dec_chars(v / 10);
        let c = digit_char(v % 10);
        assert(0 <= v % 10 <= 9);
        assert(is_digit(c));
        let w = u.push(c);
        assert(w.subrange(0, w.len() - 1) =~= u);
        assert(all_digits(w)) by {
            assert forall|i: int| 0 <= i < w.len() implies is_digit(#[trigger] w[i]) by {
                if i < u.len() {
                    assert(w[i] == u[i]);
                } else {
                    assert(w[i] == c);
                }
            };
        }
        assert(digits_value(w) == digits_value(u) * 10 + digit_val(c));
        assert(v / 10 * 10 + v % 10 == v);
    }
}

/// Stripping a run of wrapping characters in front of a string that does
/// not start with one.
proof fn lemma_trim_start_wrap_skip(w: Seq<char>, r: Seq<char>)
    requires
        forall|i: int| 0 <= i < w.len() ==> is_wrap_char(#[trigger] w[i]),
        r.len() > 0 ==> !is_wrap_char(r[0]),
    ensures
        trim_start_wrap(w + r) == r,
    decreases w.len(),
{
    if w.len() == 0 {
        assert(w + r =~= r);
    } else {
        let rest = w.subrange(1, w.len() as int);
        assert((w + r)[0] == w[0]);
        assert((w + r).subrange(1, (w + r).len() as int) =~= rest + r);
        lemma_trim_start_wrap_skip(rest, r);
    }
}

/// Stripping a run of wrapping characters behind a string that does not
/// end with one.
proof fn lemma_trim_end_wrap_skip(r: Seq<char>, w: Seq<char>)
    requires
        forall|i: int| 0 <= i < w.len() ==> is_wrap_char(#[trigger] w[i]),
        r.len() > 0 ==> !is_wrap_char(r[r.len() - 1]),
    ensures
        trim_end_wrap(r + w) == r,
    decreases w.len(),
{
    if w.len() == 0 {
        assert(r + w =~= r);
    } else {
        let rest = w.subrange(0, w.len() - 1);
        assert((r + w)[(r + w).len() - 1] == w[w.len() - 1]);
        assert((r + w).subrange(0, (r + w).len() - 1) =~= r + rest);
        lemma_trim_end_wrap_skip(r, rest);
    }
}

/// Stripping a run of whitespace in front of a string that does not start
/// with whitespace.
proof fn lemma_trim_start_blank_skip(w: Seq<char>, r: Seq<char>)
    requires
        forall|i: int| 0 <= i < w.len() ==> is_blank_char(#[trigger] w[i]),
        r.len() > 0 ==> !is_blank_char(r[0]),
    ensures
        trim_start_blank(w + r) == r,
    decreases w.len(),
{
    if w.len() == 0 {
        assert(w + r =~= r);
    } else {
        let rest = w.subrange(1, w.len() as int);
        assert((w + r)[0] == w[0]);
        assert((w + r).subrange(1, (w + r).len() as int) =~= rest + r);
        lemma_trim_start_blank_skip(rest, r);
    }
}

/// Stripping a run of whitespace behind a string that does not end with
/// whitespace.
proof fn lemma_trim_end_blank_skip(r: Seq<char>, w: Seq<char>)
    requires
        forall|i: int| 0 <= i < w.len() ==> is_blank_char(#[trigger] w[i]),
        r.len() > 0 ==> !is_blank_char(r[r.len() - 1]),
    ensures
        trim_end_blank(r + w) == r,
    decreases w.len(),
{
    if w.len() == 0 {
        assert(r + w =~= r);
    } else {
        let rest = w.subrange(0, w.len() - 1);
        assert((r + w)[(r + w).len() - 1] == w[w.len() - 1]);
        assert((r + w).subrange(0, (r + w).len() - 1) =~= r + rest);
        lemma_trim_end_blank_skip(r, rest);
    }
}

/// Occurrence counts add up over concatenation.
proof fn lemma_count_concat(a: Seq<char>, b: Seq<char>, c: char)
    ensures
        count_char(a + b, c) == count_char(a, c) + count_char(b, c),
    decreases b.len(),
{
    if b.len() == 0 {
        assert(a + b =~= a);
    } else {
        let rest = b.subrange(0, b.len() - 1);
        assert((a + b).subrange(0, (a + b).len() - 1) =~= a + rest);
        assert((a + b)[(a + b).len() - 1] == b[b.len() - 1]);
        lemma_count_concat(a, rest, c);
    }
}

/// A string without the character has count zero.
proof fn lemma_count_none(s: Seq<char>, c: char)
    requires
        forall|i: int| 0 <= i < s.len() ==> s[i] != c,
    ensures
        count_char(s, c) == 0,
    decreases s.len(),
{
    if s.len() > 0 {
        let rest = s.subrange(0, s.len() - 1);
        assert(forall|i: int| 0 <= i < rest.len() ==> rest[i] != c);
        lemma_count_none(rest, c);
    }
}

/// Round trip: for every valid position, its canonical text — optionally
/// wrapped in parenthesis or newline characters and padded with plain
/// whitespace inside the wrapping — parses back to the position itself.
pub proof fn lemma_parse_format_round_trip(
    p: Position,
    w1: Seq<char>,
    sp1: Seq<char>,
    sp2: Seq<char>,
    w2: Seq<char>,
)
    requires
        p.valid(),
        forall|i: int| 0 <= i < w1.len() ==> is_wrap_char(#[trigger] w1[i]),
        forall|i: int| 0 <= i < w2.len() ==> is_wrap_char(#[trigger] w2[i]),
        forall|i: int|
            0 <= i < sp1.len() ==> is_blank_char(#[trigger] sp1[i]) && !is_wrap_char(sp1[i]),
        forall|i: int|
            0 <= i < sp2.len() ==> is_blank_char(#[trigger] sp2[i]) && !is_wrap_char(sp2[i]),
    ensures
        spec_parse_position(w1 + sp1 + format_chars(p) + sp2 + w2) == Ok::<Position, PositionError>(p),
{
    lemma_dec_chars(p.x as int);
    lemma_dec_chars(p.y as int);
    let dx = dec_chars(p.x as int);
    let dy = dec_chars(p.y as int);
    let core = format_chars(p);
    assert(core == dx + seq![' '] + dy);
    assert(core[0] == dx[0]);
    assert(is_digit(dx[0]));
    assert(core[core.len() - 1] == dy[dy.len() - 1]);
    assert(is_digit(dy[dy.len() - 1]));
    let s = w1 + sp1 + core + sp2 + w2;
    // Wrapping characters are stripped from the front ...
    let r1 = sp1 + (core + sp2 + w2);
    assert(s =~= w1 + r1);
    assert(r1.len() > 0 ==> !is_wrap_char(r1[0])) by {
        if sp1.len() > 0 {
            assert(r1[0] == sp1[0]);
        } else {
            assert(r1[0] == core[0]);
        }
    }
    lemma_trim_start_wrap_skip(w1, r1);
    assert(trim_start_wrap(s) == r1);
    // ... and from the back.
    let r2 = sp1 + core + sp2;
    assert(r1 =~= r2 + w2);
    assert(r2.len() > 0 ==> !is_wrap_char(r2[r2.len() - 1])) by {
        if sp2.len() > 0 {
            assert(r2[r2.len() - 1] == sp2[sp2.len() - 1]);
        } else {
            assert(r2[r2.len() - 1] == core[core.len() - 1]);
        }
    }
    lemma_trim_end_wrap_skip(r2, w2);
    assert(trim_end_wrap(trim_start_wrap(s)) == r2);
    // Whitespace is stripped from the front ...
    let r3 = core + sp2;
    assert(r2 =~= sp1 + r3);
    assert(r3[0] == core[0]);
    lemma_trim_start_blank_skip(sp1, r3);
    assert(trim_start_blank(r2) == r3);
    // ... and from the back.
    assert(r3[r3.len() - 1] == (if sp2.len() > 0 {
        sp2[sp2.len() - 1]
    } else {
        core[core.len() - 1]
    }));
    lemma_trim_end_blank_skip(core, sp2);
    assert(trimmed(s) == core);
    // The trimmed text splits at exactly one space.
    assert forall|i: int| 0 <= i < dx.len() implies dx[i] != ' ' by {
        assert(is_digit(dx[i]));
    };
    assert forall|i: int| 0 <= i < dy.len() implies dy[i] != ' ' by {
        assert(is_digit(dy[i]));
    };
    lemma_count_none(dx, ' ');
    lemma_count_none(dy, ' ');
    assert(seq![' '].subrange(0, 0) =~= Seq::<char>::empty());
    assert(count_char(Seq::<char>::empty(), ' ') == 0);
    assert(count_char(seq![' '], ' ') == 1);
    lemma_count_concat(dx, seq![' '], ' ');
    lemma_count_concat(dx + seq![' '], dy, ' ');
    assert(count_char(core, ' ') == 1);
    // The split point is the space after the first coordinate.
    let i = choose|i: int| 0 <= i < core.len() && core[i] == ' ';
    assert(core[dx.len() as int] == ' ');
    lemma_count_unique(core, ' ', i, dx.len() as int);
    // Both tokens denote the coordinates they were rendered from.
    assert(core.subrange(0, i) =~= dx);
    assert(core.subrange(i + 1, core.len() as int) =~= dy);
    assert(dx[0] != '+');
    assert(dy[0] != '+');
    assert(spec_parse_u8(dx) == Some(p.x));
    assert(spec_parse_u8(dy) == Some(p.y));
    assert(spec_parse_position(s) == Ok::<Position, PositionError>(Position { x: p.x, y: p.y }));
}

/// Round trip without decorations: the canonical text of a valid position
/// parses back to the position.
pub proof fn lemma_parse_canonical(p: Position)
    requires
        p.valid(),
    ensures
        spec_parse_position(format_chars(p)) == Ok::<Position, PositionError>(p),
{
    let e = Seq::<char>::empty();
    lemma_parse_format_round_trip(p, e, e, e, e);
    assert(e + e + format_chars(p) + e + e =~= format_chars(p));
}

/// The digit character of a small value, decided.
fn digit_char_exec(d: u8) -> (c: char)
    requires
        d < 10,
    ensures
        c == digit_char(d as int),
{
    (48 + d) as char
}

impl Position {
    /// The canonical text of this position: both coordinates in decimal,
    /// separated by one space.
    pub fn to_text(&self) -> (r: String)
        ensures
            r@ == format_chars(*self),
    {
        let mut out = dec_string(self.x);
        let sp = crate::entity::char_to_string(' ');
        out.append(sp.as_str());
        let ys = dec_string(self.y);
        out.append(ys.as_str());
        proof {
            assert(out@ =~= format_chars(*self));
        }
        out
    }
}

/// The decimal text of a coordinate value.
fn dec_string(v: u8) -> (r: String)
    ensures
        r@ == dec_chars(v as int),
{
    let mut out = String::new();
    let t = v / 10;
    if t >= 10 {
        let c = crate::entity::char_to_string(digit_char_exec(t / 10));
        out.append(c.as_str());
    }
    if v >= 10 {
        let c = crate::entity::char_to_string(digit_char_exec(t % 10));
        out.append(c.as_str());
    }
    let c = crate::entity::char_to_string(digit_char_exec(v % 10));
    out.append(c.as_str());
    proof {
        if v < 10 {
            assert(out@ =~= dec_chars(v as int));
        } else if v < 100 {
            assert(dec_chars(v as int) == dec_chars(t as int).push(digit_char(v as int % 10)));
            assert(out@ =~= dec_chars(v as int));
        } else {
            assert(dec_chars(v as int) == dec_chars(t as int).push(digit_char(v as int % 10)));
            assert(dec_chars(t as int) == dec_chars(t as int / 10).push(digit_char(t as int % 10)));
            assert(out@ =~= dec_chars(v as int));
        }
    }
    out
}


} // verus!
