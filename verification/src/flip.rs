//! The external perceptual backend's text contract: its captured standard
//! output must contain `Mean: <decimal>`; the similarity score is one minus
//! that mean.
//!
//! The grammar is fixed: the first occurrence of the marker `Mean: ` that is
//! followed by at least one digit or dot begins a match; the capture is the
//! longest run of digits and dots from there; the capture is a decimal
//! number when it holds at least one digit and at most one dot. The decimal
//! is read in micro-units (fractional digits beyond the sixth are dropped),
//! and a mean beyond `MEAN_CAP_MICROS` saturates there, so a score is never
//! computed from an unrepresentable mean. The tool's own documentation gives
//! no upper bound for the mean, so the score may go negative: a negative
//! score simply reads as "very different", and no record category depends on
//! anything but `score < 1`.

use vstd::prelude::*;
use crate::Score;
use crate::SCORE_ONE;
use crate::ImDirDiffError;
use vstd::string::StrSliceExecFns;
use vstd::string::StringExecFns;

verus! {

/// The largest mean, in micro-units, that the parser reports; larger
/// decimals saturate here.
pub const MEAN_CAP_MICROS: i64 = 1_000_000_000_000_000_000;

/// `c` is an ASCII digit.
pub open spec fn is_digit(c: char) -> bool {
    '0' as u32 <= c as u32 && c as u32 <= '9' as u32
}

/// `c` may appear in a capture: a digit or a dot.
pub open spec fn is_dd(c: char) -> bool {
    c == '.' || is_digit(c)
}

/// The numeric value of a digit.
pub open spec fn digit_val(c: char) -> int {
    c as u32 - '0' as u32
}

/// The marker that announces the mean on the tool's standard output.
pub open spec fn marker() -> Seq<char> {
    seq!['M', 'e', 'a', 'n', ':', ' ']
}

/// A match of the pattern begins at `p`: the marker, then at least one
/// digit or dot.
pub open spec fn match_at(s: Seq<char>, p: int) -> bool {
    &&& 0 <= p
    &&& p + marker().len() < s.len()
    &&& s.subrange(p, p + marker().len() as int) == marker()
    &&& is_dd(s[p + marker().len()])
}

/// `p` is the leftmost match of the pattern.
pub open spec fn is_first_match(s: Seq<char>, p: int) -> bool {
    &&& match_at(s, p)
    &&& forall|q: int| 0 <= q < p ==> !match_at(s, q)
}

/// Some match of the pattern exists in `s`.
pub open spec fn has_match(s: Seq<char>) -> bool {
    exists|p: int| match_at(s, p)
}

/// The position of the leftmost match (meaningful only when `has_match(s)`).
pub open spec fn match_pos(s: Seq<char>) -> int {
    choose|p: int| is_first_match(s, p)
}

/// Where the capture of the leftmost match begins.
pub open spec fn capture_start(s: Seq<char>) -> int {
    match_pos(s) + marker().len()
}

/// `j` is where the capture ends: the first position at or after the
/// capture's start that does not hold a digit or dot.
pub open spec fn is_capture_end(s: Seq<char>, j: int) -> bool {
    &&& capture_start(s) < j <= s.len()
    &&& forall|k: int| capture_start(s) <= k < j ==> is_dd(s[k])
    &&& (j == s.len() || !is_dd(s[j]))
}

/// Where the capture of the leftmost match ends (meaningful only when
/// `has_match(s)`).
pub open spec fn capture_end(s: Seq<char>) -> int {
    choose|j: int| is_capture_end(s, j)
}

/// The capture of the leftmost match: the longest run of digits and dots
/// after the marker.
pub open spec fn spec_capture(s: Seq<char>) -> Seq<char> {
    s.subrange(capture_start(s), capture_end(s))
}

pub proof fn lemma_first_match_unique(s: Seq<char>, p: int)
    requires
        is_first_match(s, p),
    ensures
        has_match(s),
        match_pos(s) == p,
{
    assert(match_at(s, p));
    let k = match_pos(s);
    assert(is_first_match(s, k));
    if k < p {
        assert(!match_at(s, k));
        assert(false);
    } else if p < k {
        assert(!match_at(s, p));
        assert(false);
    }
}

pub proof fn lemma_capture_end_unique(s: Seq<char>, j: int)
    requires
        is_capture_end(s, j),
    ensures
        capture_end(s) == j,
{
    let k = capture_end(s);
    assert(is_capture_end(s, k));
    if k < j {
        assert(is_dd(s[k]));
        assert(false);
    } else if j < k {
        assert(is_dd(s[j]));
        assert(false);
    }
}

/// Whether the character is a digit or a dot.
pub fn is_dd_char(c: char) -> (r: bool)
    ensures
        r == is_dd(c),
{
    let u: u32 = c as u32;
    c == '.' || (48 <= u && u <= 57)
}

/// Whether a match of the pattern begins at `p` (see `match_at`).
fn match_at_pos(s: &str, p: usize, len: usize) -> (r: bool)
    requires
        len == s@.len(),
        p <= len,
    ensures
        r == match_at(s@, p as int),
{
    if len - p <= 6 {
        assert(!match_at(s@, p as int));
        return false;
    }
    let m: bool = s.get_char(p) == 'M' && s.get_char(p + 1) == 'e' && s.get_char(p + 2) == 'a'
        && s.get_char(p + 3) == 'n' && s.get_char(p + 4) == ':' && s.get_char(p + 5) == ' ';
    if !m {
        assert(s@.subrange(p as int, p + 6) != marker()) by {
            if s@.subrange(p as int, p + 6) == marker() {
                assert(s@.subrange(p as int, p + 6)[0] == s@[p as int]);
                assert(s@.subrange(p as int, p + 6)[1] == s@[p + 1]);
                assert(s@.subrange(p as int, p + 6)[2] == s@[p + 2]);
                assert(s@.subrange(p as int, p + 6)[3] == s@[p + 3]);
                assert(s@.subrange(p as int, p + 6)[4] == s@[p + 4]);
                assert(s@.subrange(p as int, p + 6)[5] == s@[p + 5]);
            }
        }
        return false;
    }
    let dd: bool = is_dd_char(s.get_char(p + 6));
    if dd {
        assert(s@.subrange(p as int, p + 6) =~= marker());
    }
    dd
}

/// Finds the leftmost match of the pattern and the bounds of its capture.
pub fn find_mean_capture(s: &str) -> (r: Option<(usize, usize)>)
    ensures
        match r {
            Some(bounds) => {
                &&& has_match(s@)
                &&& capture_start(s@) == bounds.0 as int
                &&& capture_end(s@) == bounds.1 as int
                &&& bounds.0 < bounds.1 <= s@.len()
                &&& forall|k: int| bounds.0 <= k < bounds.1 ==> is_dd(s@[k])
            },
            None => !has_match(s@),
        },
{
    let len: usize = s.unicode_len();
    let mut p: usize = 0;
    while p < len
        invariant
            len == s@.len(),
            0 <= p <= len,
            forall|q: int| 0 <= q < p ==> !match_at(s@, q),
        decreases len - p,
    {
        if match_at_pos(s, p, len) {
            proof {
                lemma_first_match_unique(s@, p as int);
            }
            let cs: usize = p + 6;
            let mut j: usize = cs + 1;
            assert(is_dd(s@[cs as int]));
            while j < len && is_dd_char(s.get_char(j))
                invariant
                    len == s@.len(),
                    capture_start(s@) == cs as int,
                    cs < j <= len,
                    forall|k: int| cs <= k < j ==> is_dd(s@[k]),
                decreases len - j,
            {
                j = j + 1;
            }
            proof {
                lemma_capture_end_unique(s@, j as int);
            }
            return Some((cs, j));
        }
        p = p + 1;
    }
    assert forall|q: int| !match_at(s@, q) by {
        if 0 <= q < len {
            assert(!match_at(s@, q));
        }
    }
    None
}

/// The capture holds no second dot.
pub open spec fn at_most_one_dot(c: Seq<char>) -> bool {
    forall|i: int, j: int| 0 <= i < j < c.len() ==> !(c[i] == '.' && c[j] == '.')
}

/// The capture holds at least one digit.
pub open spec fn has_digit(c: Seq<char>) -> bool {
    exists|i: int| 0 <= i < c.len() && is_digit(c[i])
}

/// The capture reads as a decimal number: at least one digit, at most one
/// dot.
pub open spec fn valid_decimal(c: Seq<char>) -> bool {
    at_most_one_dot(c) && has_digit(c)
}

/// The capture holds a dot.
pub open spec fn has_dot(c: Seq<char>) -> bool {
    exists|i: int| 0 <= i < c.len() && c[i] == '.'
}

/// The position of the capture's dot (meaningful only when it has exactly
/// one).
pub open spec fn dot_pos(c: Seq<char>) -> int {
    choose|i: int| 0 <= i < c.len() && c[i] == '.'
}

/// The digits before the dot, or the whole capture without a dot.
pub open spec fn int_digits(c: Seq<char>) -> Seq<char> {
    if has_dot(c) {
        c.subrange(0, dot_pos(c))
    } else {
        c
    }
}

/// The digits after the dot, or nothing without a dot.
pub open spec fn frac_digits(c: Seq<char>) -> Seq<char> {
    if has_dot(c) {
        c.subrange(dot_pos(c) + 1, c.len() as int)
    } else {
        Seq::empty()
    }
}

/// Ten to the `n`th power.
pub open spec fn pow10(n: nat) -> int
    decreases n,
{
    if n == 0 {
        1
    } else {
        10 * pow10((n - 1) as nat)
    }
}

/// The value of a run of digits, most significant first.
pub open spec fn int_value(s: Seq<char>) -> int
    decreases s.len(),
{
    if s.len() == 0 {
        0
    } else {
        int_value(s.drop_last()) * 10 + digit_val(s.last())
    }
}

/// The first six fractional digits read in micro-units; shorter runs are
/// scaled up, longer runs are cut.
pub open spec fn frac_micros(f: Seq<char>) -> int {
    if f.len() >= 6 {
        int_value(f.subrange(0, 6))
    } else {
        int_value(f) * pow10((6 - f.len()) as nat)
    }
}

/// The capture's decimal value in micro-units, fractional digits beyond the
/// sixth dropped.
pub open spec fn value_micros(c: Seq<char>) -> int {
    int_value(int_digits(c)) * 1_000_000 + frac_micros(frac_digits(c))
}

/// The mean that the parser reports for a valid capture: its value,
/// saturated at `MEAN_CAP_MICROS`.
pub open spec fn clamped_micros(c: Seq<char>) -> int {
    if value_micros(c) >= MEAN_CAP_MICROS {
        MEAN_CAP_MICROS as int
    } else {
        value_micros(c)
    }
}

/// What the whole text parses to: the mean in micro-units when the text
/// holds a match whose capture is a decimal number, nothing otherwise.
pub open spec fn spec_flip_mean(s: Seq<char>) -> Option<int> {
    if has_match(s) && valid_decimal(spec_capture(s)) {
        Some(clamped_micros(spec_capture(s)))
    } else {
        None
    }
}

proof fn lemma_int_value_upper(s: Seq<char>)
    requires
        forall|i: int| 0 <= i < s.len() ==> is_digit(s[i]),
    ensures
        0 <= int_value(s) < pow10(s.len()),
    decreases s.len(),
{
    reveal_with_fuel(pow10, 2);
    if s.len() > 0 {
        assert(forall|i: int|
            0 <= i < s.drop_last().len() ==> is_digit(#[trigger] s.drop_last()[i]));
        lemma_int_value_upper(s.drop_last());
        assert(is_digit(s.last()));
        assert(digit_val(s.last()) <= 9);
    }
}

proof fn lemma_int_value_lower(s: Seq<char>)
    requires
        s.len() > 0,
        forall|i: int| 0 <= i < s.len() ==> is_digit(s[i]),
        digit_val(s[0]) >= 1,
    ensures
        int_value(s) >= pow10((s.len() - 1) as nat),
    decreases s.len(),
{
    reveal_with_fuel(pow10, 2);
    if s.len() == 1 {
        assert(s.last() == s[0]);
        assert(s.drop_last().len() == 0);
        assert(int_value(s.drop_last()) == 0);
        assert(int_value(s) == int_value(s.drop_last()) * 10 + digit_val(s.last()));
    } else {
        assert(s.drop_last()[0] == s[0]);
        assert(int_value(s) == int_value(s.drop_last()) * 10 + digit_val(s.last()));
        assert(forall|i: int|
            0 <= i < s.drop_last().len() ==> is_digit(#[trigger] s.drop_last()[i]));
        lemma_int_value_lower(s.drop_last());
        assert(is_digit(s.last()));
        assert(digit_val(s.last()) >= 0);
    }
}

proof fn lemma_int_value_strip_zero(s: Seq<char>)
    requires
        s.len() > 0,
        digit_val(s[0]) == 0,
    ensures
        int_value(s) == int_value(s.subrange(1, s.len() as int)),
    decreases s.len(),
{
    let t = s.subrange(1, s.len() as int);
    if s.len() == 1 {
        assert(t.len() == 0);
        assert(s.drop_last().len() == 0);
        assert(s.last() == s[0]);
        assert(int_value(s) == int_value(s.drop_last()) * 10 + digit_val(s.last()));
    } else {
        assert(digit_val(s.drop_last()[0]) == 0);
        lemma_int_value_strip_zero(s.drop_last());
        assert(t.drop_last() =~= s.drop_last().subrange(1, s.drop_last().len() as int));
        assert(t.last() == s.last());
        assert(int_value(s) == int_value(s.drop_last()) * 10 + digit_val(s.last()));
        assert(int_value(t) == int_value(t.drop_last()) * 10 + digit_val(t.last()));
    }
}

proof fn lemma_dot_pos(c: Seq<char>, i: int)
    requires
        at_most_one_dot(c),
        0 <= i < c.len(),
        c[i] == '.',
    ensures
        has_dot(c),
        dot_pos(c) == i,
{
    assert(has_dot(c));
    let k = dot_pos(c);
    assert(0 <= k < c.len() && c[k] == '.');
    if k < i {
        assert(!(c[k] == '.' && c[i] == '.'));
        assert(false);
    } else if i < k {
        assert(!(c[i] == '.' && c[k] == '.'));
        assert(false);
    }
}

/// Ten to a small power.
fn pow10_small(n: usize) -> (r: u64)
    requires
        n <= 6,
    ensures
        r as int == pow10(n as nat),
{
    proof {
        reveal_with_fuel(pow10, 8);
    }
    if n == 0 {
        1
    } else if n == 1 {
        10
    } else if n == 2 {
        100
    } else if n == 3 {
        1_000
    } else if n == 4 {
        10_000
    } else if n == 5 {
        100_000
    } else {
        1_000_000
    }
}

proof fn lemma_pow10_mono(a: nat, b: nat)
    requires
        a <= b,
    ensures
        pow10(a) <= pow10(b),
        pow10(a) >= 1,
    decreases b,
{
    reveal_with_fuel(pow10, 2);
    if b > 0 {
        if a == b {
            lemma_pow10_mono((a - 1) as nat, (b - 1) as nat);
        } else {
            lemma_pow10_mono(a, (b - 1) as nat);
        }
    }
}

/// Reads the capture `s[from..to]` as a decimal number in micro-units,
/// saturated at `MEAN_CAP_MICROS`.
pub(crate) fn parse_decimal_micros(s: &str, from: usize, to: usize) -> (r: Option<i64>)
    requires
        from < to <= s@.len(),
        forall|k: int| from <= k < to ==> is_dd(s@[k]),
    ensures
        ({
            let c = s@.subrange(from as int, to as int);
            match r {
                Some(v) => valid_decimal(c) && v as int == clamped_micros(c),
                None => !valid_decimal(c),
            }
        }),
{
    let ghost c = s@.subrange(from as int, to as int);
    let mut k: usize = from;
    let mut first_dot: usize = to;
    let mut twodots: bool = false;
    let mut seen_digit: bool = false;
    while k < to
        invariant
            from <= k <= to <= s@.len(),
            c == s@.subrange(from as int, to as int),
            forall|t: int| from <= t < to ==> is_dd(s@[t]),
            first_dot == to || (from <= first_dot < k && s@[first_dot as int] == '.' && forall|
                t: int,
            |
                from <= t < first_dot ==> s@[t] != '.'),
            first_dot == to ==> forall|t: int| from <= t < k ==> s@[t] != '.',
            twodots <==> exists|i: int, j: int|
                from <= i < j < k && s@[i] == '.' && s@[j] == '.',
            seen_digit <==> exists|t: int| from <= t < k && is_digit(s@[t]),
        decreases to - k,
    {
        let ch: char = s.get_char(k);
        if ch == '.' {
            if first_dot == to {
                first_dot = k;
            } else {
                assert(s@[first_dot as int] == '.' && s@[k as int] == '.');
                twodots = true;
            }
        } else {
            assert(is_digit(s@[k as int]));
            seen_digit = true;
        }
        k = k + 1;
    }
    if twodots || !seen_digit {
        proof {
            if twodots {
                let (i, j): (int, int) = choose|i: int, j: int|
                    from <= i < j < to && s@[i] == '.' && s@[j] == '.';
                assert(c[i - from] == '.' && c[j - from] == '.');
                assert(!at_most_one_dot(c));
            } else {
                assert forall|i: int| 0 <= i < c.len() implies !is_digit(c[i]) by {
                    assert(c[i] == s@[from + i]);
                }
                assert(!has_digit(c));
            }
        }
        return None;
    }
    proof {
        assert(at_most_one_dot(c)) by {
            assert forall|i: int, j: int|
                0 <= i < j < c.len() implies !(c[i] == '.' && c[j] == '.') by {
                assert(c[i] == s@[from + i] && c[j] == s@[from + j]);
            }
        }
        assert(has_digit(c)) by {
            let t = choose|t: int| from <= t < to && is_digit(s@[t]);
            assert(c[t - from] == s@[t]);
        }
    }
    let dp: usize = first_dot;
    proof {
        if dp < to {
            assert(c[dp - from] == s@[dp as int]);
            lemma_dot_pos(c, dp - from);
        } else {
            assert forall|i: int| 0 <= i < c.len() implies c[i] != '.' by {
                assert(c[i] == s@[from + i]);
            }
            assert(!has_dot(c));
        }
        assert(int_digits(c) =~= s@.subrange(from as int, dp as int));
        if dp < to {
            assert(frac_digits(c) =~= s@.subrange(dp + 1, to as int));
        } else {
            assert(frac_digits(c) =~= Seq::<char>::empty());
        }
        assert forall|t: int| from <= t < dp implies is_digit(s@[t]) by {
            if dp < to {
                assert(s@[t] != '.');
            } else {
                assert(s@[t] != '.');
            }
            assert(is_dd(s@[t]));
        }
        assert forall|t: int| dp + 1 <= t < to implies is_digit(s@[t]) by {
            if dp < to {
                assert(c[t - from] == s@[t]);
                assert(!(c[dp - from] == '.' && c[t - from] == '.'));
            }
            assert(is_dd(s@[t]));
        }
    }
    let mut z: usize = from;
    while z < dp && s.get_char(z) as u32 == 48
        invariant
            from <= z <= dp <= to <= s@.len(),
            forall|t: int| from <= t < dp ==> is_digit(s@[t]),
            int_value(s@.subrange(from as int, dp as int)) == int_value(
                s@.subrange(z as int, dp as int),
            ),
        decreases dp - z,
    {
        proof {
            let d = s@.subrange(z as int, dp as int);
            assert(d[0] == s@[z as int]);
            assert(digit_val(d[0]) == 0);
            lemma_int_value_strip_zero(d);
            assert(d.subrange(1, d.len() as int) =~= s@.subrange(z + 1, dp as int));
        }
        z = z + 1;
    }
    proof {
        reveal_with_fuel(pow10, 14);
        assert(pow10(12) == 1_000_000_000_000);
    }
    if dp - z > 12 {
        proof {
            let d2 = s@.subrange(z as int, dp as int);
            assert(d2[0] == s@[z as int]);
            assert(is_digit(d2[0]));
            assert(s@[z as int] as u32 != 48);
            assert(digit_val(d2[0]) >= 1);
            assert(forall|t: int| 0 <= t < d2.len() ==> is_digit(#[trigger] d2[t]));
            lemma_int_value_lower(d2);
            lemma_pow10_mono(12, (d2.len() - 1) as nat);
            assert(int_value(d2) >= 1_000_000_000_000);
            let f = frac_digits(c);
            assert(forall|t: int| 0 <= t < f.len() ==> is_digit(#[trigger] f[t]));
            assert(frac_micros(f) >= 0) by {
                if f.len() >= 6 {
                    assert(forall|t: int|
                        0 <= t < f.subrange(0, 6).len() ==> is_digit(
                            #[trigger] f.subrange(0, 6)[t],
                        ));
                    lemma_int_value_upper(f.subrange(0, 6));
                } else {
                    lemma_int_value_upper(f);
                    lemma_pow10_mono(0, (6 - f.len()) as nat);
                    assert(int_value(f) * pow10((6 - f.len()) as nat) >= 0) by (nonlinear_arith)
                        requires
                            int_value(f) >= 0,
                            pow10((6 - f.len()) as nat) >= 1,
                    ;
                }
            }
            assert(value_micros(c) >= 1_000_000_000_000 * 1_000_000);
        }
        return Some(MEAN_CAP_MICROS);
    }
    let mut acc: u64 = 0;
    let mut k2: usize = z;
    while k2 < dp
        invariant
            from <= z <= k2 <= dp <= to <= s@.len(),
            dp - z <= 12,
            forall|t: int| from <= t < dp ==> is_digit(s@[t]),
            acc as int == int_value(s@.subrange(z as int, k2 as int)),
            acc < 1_000_000_000_000,
        decreases dp - k2,
    {
        let u: u32 = s.get_char(k2) as u32;
        assert(is_digit(s@[k2 as int]));
        assert(48 <= u && u <= 57);
        proof {
            let pre = s@.subrange(z as int, k2 as int);
            let post = s@.subrange(z as int, k2 + 1);
            assert(post.drop_last() =~= pre);
            assert(post.last() == s@[k2 as int]);
            assert(int_value(post) == int_value(pre) * 10 + digit_val(s@[k2 as int]));
            assert(forall|t: int| 0 <= t < post.len() ==> is_digit(#[trigger] post[t]));
            lemma_int_value_upper(post);
            lemma_pow10_mono(post.len(), 12);
            reveal_with_fuel(pow10, 14);
            assert(pow10(12) == 1_000_000_000_000);
        }
        acc = acc * 10 + ((u - 48) as u64);
        k2 = k2 + 1;
    }
    let fstart: usize = if dp < to {
        dp + 1
    } else {
        to
    };
    let flen: usize = to - fstart;
    let fcount: usize = if flen > 6 {
        6
    } else {
        flen
    };
    let mut fac: u64 = 0;
    let mut k3: usize = 0;
    while k3 < fcount
        invariant
            from < fstart <= fstart + fcount <= to <= s@.len(),
            fcount <= 6,
            0 <= k3 <= fcount,
            forall|t: int| fstart <= t < to ==> is_digit(s@[t]),
            fac as int == int_value(s@.subrange(fstart as int, fstart + k3)),
            fac < 1_000_000,
        decreases fcount - k3,
    {
        let u: u32 = s.get_char(fstart + k3) as u32;
        assert(is_digit(s@[fstart + k3]));
        assert(48 <= u && u <= 57);
        proof {
            let pre = s@.subrange(fstart as int, fstart + k3);
            let post = s@.subrange(fstart as int, fstart + k3 + 1);
            assert(post.drop_last() =~= pre);
            assert(post.last() == s@[fstart + k3]);
            assert(int_value(post) == int_value(pre) * 10 + digit_val(s@[fstart + k3]));
            assert(forall|t: int| 0 <= t < post.len() ==> is_digit(#[trigger] post[t]));
            lemma_int_value_upper(post);
            lemma_pow10_mono(post.len(), 6);
            reveal_with_fuel(pow10, 8);
            assert(pow10(6) == 1_000_000);
        }
        fac = fac * 10 + ((u - 48) as u64);
        k3 = k3 + 1;
    }
    let mult: u64 = pow10_small(6 - fcount);
    proof {
        reveal_with_fuel(pow10, 8);
        assert(pow10(6) == 1_000_000);
        lemma_pow10_mono((6 - fcount) as nat, 6);
        let fd = s@.subrange(fstart as int, fstart + fcount);
        assert(forall|t: int| 0 <= t < fd.len() ==> is_digit(#[trigger] fd[t]));
        lemma_int_value_upper(fd);
        assert(pow10(fcount as nat) * pow10((6 - fcount) as nat) == pow10(6)) by {
            lemma_pow10_add(fcount as nat, (6 - fcount) as nat);
        }
    }
    assert(fac * mult < 1_000_000) by (nonlinear_arith)
        requires
            fac as int == int_value(s@.subrange(fstart as int, fstart + fcount)),
            int_value(s@.subrange(fstart as int, fstart + fcount)) < pow10(fcount as nat),
            mult as int == pow10((6 - fcount) as nat),
            pow10(fcount as nat) * pow10((6 - fcount) as nat) == 1_000_000,
            mult >= 1,
            fac >= 0,
    {
    }
    let fmic: u64 = fac * mult;
    let mean: i64 = (acc as i64) * 1_000_000 + (fmic as i64);
    proof {
        let f = frac_digits(c);
        assert(frac_micros(f) == fmic as int) by {
            if dp < to {
                assert(f =~= s@.subrange(fstart as int, to as int));
                if f.len() >= 6 {
                    assert(fcount == 6);
                    assert(f.subrange(0, 6) =~= s@.subrange(fstart as int, fstart + 6));
                    assert(fmic == fac * 1);
                } else {
                    assert(fcount == flen);
                    assert(f =~= s@.subrange(fstart as int, fstart + fcount));
                }
            } else {
                assert(f.len() == 0);
                assert(fcount == 0);
                assert(int_value(s@.subrange(fstart as int, fstart as int)) == 0);
                assert(fac == 0);
                assert(int_value(f) == 0);
                assert(int_value(f) * pow10(6) == 0) by (nonlinear_arith)
                    requires
                        int_value(f) == 0,
                ;
            }
        }
        assert(int_value(int_digits(c)) == acc as int);
        assert(value_micros(c) == acc as int * 1_000_000 + fmic as int);
        assert(value_micros(c) < MEAN_CAP_MICROS as int);
    }
    Some(mean)
}

proof fn lemma_pow10_add(a: nat, b: nat)
    ensures
        pow10(a) * pow10(b) == pow10((a + b) as nat),
    decreases a,
{
    reveal_with_fuel(pow10, 2);
    if a == 0 {
        assert(pow10(0) * pow10(b) == pow10(b));
    } else {
        lemma_pow10_add((a - 1) as nat, b);
        assert(pow10(a) == 10 * pow10((a - 1) as nat));
        assert(pow10((a + b) as nat) == 10 * pow10((a + b - 1) as nat));
        assert(pow10(a) * pow10(b) == 10 * (pow10((a - 1) as nat) * pow10(b)))
            by (nonlinear_arith)
            requires
                pow10(a) == 10 * pow10((a - 1) as nat),
        ;
    }
}

/// The arguments of one external-tool invocation, in their fixed
/// flag-tagged order: the reference image, the test image, the directory
/// the tool writes its diff image into, and the output base name derived
/// from the file's stem.
pub fn flip_args(cfg: &crate::Config, path_a: &String, path_b: &String, rel: &String) -> (r: Vec<
    String,
>)
    ensures
        r.deep_view().len() == 8,
        r.deep_view()[0] == "-r"@,
        r.deep_view()[1] == crate::paths::spec_join(path_a@, rel@),
        r.deep_view()[2] == "-t"@,
        r.deep_view()[3] == crate::paths::spec_join(path_b@, rel@),
        r.deep_view()[4] == "-d"@,
        r.deep_view()[5] == crate::paths::spec_join(
            crate::paths::spec_join(cfg.report_root@, "diff"@),
            crate::paths::spec_parent(rel@),
        ),
        r.deep_view()[6] == "-b"@,
        r.deep_view()[7] == crate::paths::spec_stem(rel@),
{
    let mut out: Vec<String> = Vec::new();
    let diff_word: String = String::from_str("diff");
    let diff_root: String = crate::paths::join_path(&cfg.report_root, &diff_word);
    let parent: String = crate::paths::parent_path(rel);
    out.push(String::from_str("-r"));
    out.push(crate::paths::join_path(path_a, rel));
    out.push(String::from_str("-t"));
    out.push(crate::paths::join_path(path_b, rel));
    out.push(String::from_str("-d"));
    out.push(crate::paths::join_path(&diff_root, &parent));
    out.push(String::from_str("-b"));
    out.push(crate::paths::file_stem(rel));
    out
}

/// Turns the external tool's captured standard output into a similarity
/// score: the first `Mean: <decimal>` is read and the score is one minus
/// that mean. Text without such a match, or with a capture that is not a
/// decimal number, is a parse error.
pub fn flip_score_from_stdout(stdout: &str) -> (r: Result<Score, ImDirDiffError>)
    ensures
        match r {
            Ok(sc) => spec_flip_mean(stdout@) is Some && sc.micros as int == SCORE_ONE
                - spec_flip_mean(stdout@)->Some_0,
            Err(e) => spec_flip_mean(stdout@) is None && e is FlipOutputParseError,
        },
{
    match find_mean_capture(stdout) {
        None => Err(ImDirDiffError::FlipOutputParseError),
        Some((cs, ce)) => {
            match parse_decimal_micros(stdout, cs, ce) {
                None => Err(ImDirDiffError::FlipOutputParseError),
                Some(mean) => {
                    assert(0 <= mean <= MEAN_CAP_MICROS) by {
                        let c = stdout@.subrange(cs as int, ce as int);
                        assert(c =~= spec_capture(stdout@));
                        lemma_value_micros_nonneg(c);
                    }
                    let micros: i64 = SCORE_ONE - mean;
                    proof {
                        let c = stdout@.subrange(cs as int, ce as int);
                        assert(c =~= spec_capture(stdout@));
                    }
                    Ok(Score { micros })
                },
            }
        },
    }
}

proof fn lemma_value_micros_nonneg(c: Seq<char>)
    requires
        valid_decimal(c),
        forall|k: int| 0 <= k < c.len() ==> is_dd(c[k]),
    ensures
        value_micros(c) >= 0,
        clamped_micros(c) >= 0,
{
    let d = int_digits(c);
    let f = frac_digits(c);
    assert(forall|t: int| 0 <= t < d.len() ==> is_digit(#[trigger] d[t])) by {
        assert forall|t: int| 0 <= t < d.len() implies is_digit(d[t]) by {
            if has_dot(c) {
                assert(d[t] == c[t]);
                assert(!(c[t] == '.' && c[dot_pos(c)] == '.') || t == dot_pos(c));
                assert(c[t] != '.');
            } else {
                assert(d[t] == c[t]);
                assert(c[t] != '.');
            }
            assert(is_dd(c[t]));
        }
    }
    assert(forall|t: int| 0 <= t < f.len() ==> is_digit(#[trigger] f[t])) by {
        assert forall|t: int| 0 <= t < f.len() implies is_digit(f[t]) by {
            if has_dot(c) {
                assert(f[t] == c[dot_pos(c) + 1 + t]);
                assert(!(c[dot_pos(c)] == '.' && c[dot_pos(c) + 1 + t] == '.'));
                assert(c[dot_pos(c) + 1 + t] != '.');
                assert(is_dd(c[dot_pos(c) + 1 + t]));
            }
        }
    }
    lemma_int_value_upper(d);
    assert(frac_micros(f) >= 0) by {
        if f.len() >= 6 {
            assert(forall|t: int|
                0 <= t < f.subrange(0, 6).len() ==> is_digit(#[trigger] f.subrange(0, 6)[t]));
            lemma_int_value_upper(f.subrange(0, 6));
        } else {
            lemma_int_value_upper(f);
            lemma_pow10_mono(0, (6 - f.len()) as nat);
            assert(int_value(f) * pow10((6 - f.len()) as nat) >= 0) by (nonlinear_arith)
                requires
                    int_value(f) >= 0,
                    pow10((6 - f.len()) as nat) >= 1,
            ;
        }
    }
    assert(int_value(d) * 1_000_000 >= 0);
}

} // verus!
