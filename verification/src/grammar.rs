//! The time-expression grammar: recognizers for rounding specs,
//! relative offsets, times of day, and date-times.
//!
//! Each recognizer either matches the whole input and returns a
//! structured value, or returns `None`: a parse never partially
//! succeeds.  The language each one accepts is pinned down by a
//! deterministic specification function (`spec_rounding`,
//! `spec_offset`, `spec_time`, `spec_datetime`) that the executable
//! recognizer provably matches.

use vstd::prelude::*;

use crate::util::ROUND_LIMIT;
use crate::util::Rounding;

verus! {

/// Offsets clamp to this magnitude, far beyond the representable
/// instant range, so that applying one still reports overflow.
pub const OFFSET_LIMIT: i64 = 1000000000000000000;

/// ASCII decimal digit.
pub open spec fn is_digit(c: char) -> bool {
    48 <= c as int <= 57
}

/// Numeric value of a digit character.
pub open spec fn digit_val(c: char) -> int {
    c as int - 48
}

/// First index at or after `i` that does not hold a digit.
pub open spec fn scan_digits(s: Seq<char>, i: int) -> int
    decreases s.len() - i,
{
    if 0 <= i < s.len() && is_digit(s[i]) {
        scan_digits(s, i + 1)
    } else {
        i
    }
}

/// First index at or after `i` that does not hold a space.
pub open spec fn scan_spaces(s: Seq<char>, i: int) -> int
    decreases s.len() - i,
{
    if 0 <= i < s.len() && s[i] == ' ' {
        scan_spaces(s, i + 1)
    } else {
        i
    }
}

/// Value of the digit run `s[i .. j)`, most significant first.
pub open spec fn digits_value(s: Seq<char>, i: int, j: int) -> int
    decreases j - i,
{
    if j <= i {
        0
    } else {
        digits_value(s, i, j - 1) * 10 + digit_val(s[j - 1])
    }
}

/// Ten to the `k`.
pub open spec fn pow10(k: nat) -> int
    decreases k,
{
    if k == 0 {
        1
    } else {
        10 * pow10((k - 1) as nat)
    }
}

pub proof fn lemma_scan_digits_props(s: Seq<char>, i: int)
    requires
        0 <= i <= s.len(),
    ensures
        i <= scan_digits(s, i) <= s.len(),
        forall|k: int| i <= k < scan_digits(s, i) ==> is_digit(s[k]),
        scan_digits(s, i) < s.len() ==> !is_digit(s[scan_digits(s, i)]),
    decreases s.len() - i,
{
    if i < s.len() && is_digit(s[i]) {
        lemma_scan_digits_props(s, i + 1);
    }
}

pub proof fn lemma_scan_spaces_props(s: Seq<char>, i: int)
    requires
        0 <= i <= s.len(),
    ensures
        i <= scan_spaces(s, i) <= s.len(),
    decreases s.len() - i,
{
    if i < s.len() && s[i] == ' ' {
        lemma_scan_spaces_props(s, i + 1);
    }
}

pub proof fn lemma_pow10_le(a: nat, b: nat)
    requires
        a <= b,
    ensures
        0 < pow10(a) <= pow10(b),
    decreases b,
{
    if a < b {
        lemma_pow10_le(a, (b - 1) as nat);
    } else if b > 0 {
        lemma_pow10_le((b - 1) as nat, (b - 1) as nat);
    }
}

pub proof fn lemma_pow10_values()
    ensures
        pow10(15) == 1000000000000000,
        pow10(9) == 1000000000,
        pow10(4) == 10000,
        pow10(2) == 100,
{
    reveal_with_fuel(pow10, 17);
}

/// Digit runs are bounded by the power of ten of their length.
pub proof fn lemma_digits_value_bound(s: Seq<char>, i: int, j: int)
    requires
        i <= j,
        forall|k: int| i <= k < j ==> is_digit(#[trigger] s[k]),
    ensures
        0 <= digits_value(s, i, j) < pow10((j - i) as nat),
    decreases j - i,
{
    if j > i {
        lemma_digits_value_bound(s, i, j - 1);
    }
}

/// First non-digit position, executably.
fn scan_digits_from(s: &str, from: usize) -> (j: usize)
    requires
        from <= s@.len(),
    ensures
        j == scan_digits(s@, from as int),
        from <= j <= s@.len(),
{
    let n = s.unicode_len();
    let mut i = from;
    loop
        invariant
            from <= i <= n == s@.len(),
            scan_digits(s@, from as int) == scan_digits(s@, i as int),
        ensures
            i == scan_digits(s@, from as int),
        decreases n - i,
    {
        if i >= n {
            break ;
        }
        let c = s.get_char(i);
        let d = c as u32;
        if !(48 <= d && d <= 57) {
            break ;
        }
        i = i + 1;
    }
    i
}

/// First non-space position, executably.
fn scan_spaces_from(s: &str, from: usize) -> (j: usize)
    requires
        from <= s@.len(),
    ensures
        j == scan_spaces(s@, from as int),
        from <= j <= s@.len(),
{
    let n = s.unicode_len();
    let mut i = from;
    loop
        invariant
            from <= i <= n == s@.len(),
            scan_spaces(s@, from as int) == scan_spaces(s@, i as int),
        ensures
            i == scan_spaces(s@, from as int),
        decreases n - i,
    {
        if i >= n {
            break ;
        }
        let c = s.get_char(i);
        if c != ' ' {
            break ;
        }
        i = i + 1;
    }
    i
}

/// Value of a digit run of at most fifteen digits.
fn digits_to_i64(s: &str, from: usize, to: usize) -> (v: i64)
    requires
        from <= to <= s@.len(),
        to - from <= 15,
        forall|k: int| from <= k < to ==> is_digit(#[trigger] s@[k]),
    ensures
        v == digits_value(s@, from as int, to as int),
        0 <= v < pow10((to - from) as nat),
{
    proof {
        lemma_pow10_values();
        lemma_digits_value_bound(s@, from as int, to as int);
    }
    let mut i = from;
    let mut acc: i64 = 0;
    while i < to
        invariant
            from <= i <= to <= s@.len(),
            to - from <= 15,
            forall|k: int| from <= k < to ==> is_digit(#[trigger] s@[k]),
            acc == digits_value(s@, from as int, i as int),
            0 <= acc < pow10((i - from) as nat),
            pow10(15) == 1000000000000000,
        decreases to - i,
    {
        let c = s.get_char(i);
        let d = (c as u32) - 48;
        proof {
            lemma_pow10_le((i - from) as nat, 15);
            lemma_pow10_le((i + 1 - from) as nat, 15);
        }
        acc = acc * 10 + (d as i64);
        i = i + 1;
    }
    acc
}

/// Ten to the `k`, executably, for small `k`.
fn pow10_i64(k: usize) -> (r: i64)
    requires
        k <= 9,
    ensures
        r == pow10(k as nat),
{
    proof {
        reveal_with_fuel(pow10, 11);
    }
    if k == 0 {
        1
    } else if k == 1 {
        10
    } else if k == 2 {
        100
    } else if k == 3 {
        1000
    } else if k == 4 {
        10000
    } else if k == 5 {
        100000
    } else if k == 6 {
        1000000
    } else if k == 7 {
        10000000
    } else if k == 8 {
        100000000
    } else {
        1000000000
    }
}

/// An unsigned decimal number at position `i`: its whole part, its
/// fraction as nanoseconds (the first nine fraction digits; any
/// further digits are accepted and ignored), and the position after
/// it.  The whole part must have one to fifteen digits.
pub open spec fn spec_number(s: Seq<char>, i: int) -> Option<(int, int, int)> {
    let j = scan_digits(s, i);
    if j == i || j - i > 15 {
        None
    } else {
        let whole = digits_value(s, i, j);
        if j < s.len() && s[j] == '.' {
            let k = scan_digits(s, j + 1);
            let m = if k - (j + 1) > 9 {
                9
            } else {
                k - (j + 1)
            };
            let frac = digits_value(s, j + 1, j + 1 + m) * pow10((9 - m) as nat);
            Some((whole, frac, k))
        } else {
            Some((whole, 0, j))
        }
    }
}

/// Parse an unsigned decimal number at `from`.
fn parse_number(s: &str, from: usize) -> (r: Option<(i64, i64, usize)>)
    requires
        from <= s@.len(),
    ensures
        match r {
            Some((w, f, e)) => {
                &&& spec_number(s@, from as int) == Some((w as int, f as int, e as int))
                &&& from < e <= s@.len()
                &&& 0 <= w < 1000000000000000
                &&& 0 <= f < 1000000000
            },
            None => spec_number(s@, from as int) is None,
        },
{
    proof {
        lemma_pow10_values();
        lemma_scan_digits_props(s@, from as int);
    }
    let j = scan_digits_from(s, from);
    if j == from || j - from > 15 {
        return None;
    }
    let whole = digits_to_i64(s, from, j);
    proof {
        lemma_pow10_le((j - from) as nat, 15);
    }
    let n = s.unicode_len();
    if j < n && s.get_char(j) == '.' {
        proof {
            lemma_scan_digits_props(s@, j + 1);
        }
        let k = scan_digits_from(s, j + 1);
        let m = if k - (j + 1) > 9 {
            9
        } else {
            k - (j + 1)
        };
        let fd = digits_to_i64(s, j + 1, j + 1 + m);
        let p = pow10_i64(9 - m);
        proof {
            lemma_pow10_le((9 - m) as nat, 9);
            lemma_pow10_values();
            assert(fd * p < pow10(m as nat) * pow10((9 - m) as nat)) by (nonlinear_arith)
                requires
                    0 <= fd < pow10(m as nat),
                    p == pow10((9 - m) as nat),
                    p > 0,
            ;
            assert(pow10(m as nat) * pow10((9 - m) as nat) == pow10(9)) by {
                lemma_pow10_mul(m as nat, (9 - m) as nat);
            }
            assert(fd * p >= 0) by (nonlinear_arith)
                requires
                    fd >= 0,
                    p > 0,
            ;
        }
        let frac = fd * p;
        Some((whole, frac, k))
    } else {
        Some((whole, 0, j))
    }
}

/// Powers of ten multiply by adding exponents.
pub proof fn lemma_pow10_mul(a: nat, b: nat)
    ensures
        pow10(a) * pow10(b) == pow10(a + b),
    decreases a,
{
    if a == 0 {
        assert(pow10(0) * pow10(b) == pow10(b)) by (nonlinear_arith)
            requires
                pow10(0) == 1,
        ;
    } else {
        lemma_pow10_mul((a - 1) as nat, b);
        assert((10 * pow10((a - 1) as nat)) * pow10(b) == 10 * (pow10((a - 1) as nat) * pow10(b)))
            by (nonlinear_arith);
    }
}

/// The granularity multiplier a unit letter selects; minutes when
/// absent.
pub open spec fn unit_mult(c: char) -> Option<int> {
    if c == 's' || c == 'S' {
        Some(1)
    } else if c == 'm' || c == 'M' {
        Some(60)
    } else if c == 'h' || c == 'H' {
        Some(3600)
    } else if c == 'd' || c == 'D' {
        Some(86400)
    } else {
        None
    }
}

/// The rounding mode a prefix letter selects.  `+`, `U`, `u` round
/// up; `-`, `_`, `D`, `d` round down; `=`, `H`, `h` round to nearest.
/// `e` is a historical alias for nearest, kept for compatibility but
/// best avoided; the alias set must not grow further.
pub open spec fn mode_of_prefix(c: char) -> Option<Rounding> {
    if c == '+' || c == 'U' || c == 'u' {
        Some(Rounding::Up(0))
    } else if c == '-' || c == '_' || c == 'D' || c == 'd' {
        Some(Rounding::Down(0))
    } else if c == '=' || c == 'H' || c == 'h' || c == 'e' {
        Some(Rounding::Half(0))
    } else {
        None
    }
}

/// Attach a granularity to a mode selector.
pub open spec fn with_granularity(m: Rounding, g: int) -> Rounding {
    match m {
        Rounding::Up(_) => Rounding::Up(g as i64),
        Rounding::Down(_) => Rounding::Down(g as i64),
        Rounding::Half(_) => Rounding::Half(g as i64),
        Rounding::Off => Rounding::Off,
    }
}

/// Granularity in whole seconds of a number-with-unit, truncated.
pub open spec fn spec_unit_seconds(w: int, f: int, mult: int) -> int {
    (w * 1000000000 + f) * mult / 1000000000
}

/// A rounding specification: an optional mode prefix (nearest when
/// absent), a decimal number, and an optional unit letter (minutes
/// when absent).  The granularity is the number times the unit,
/// truncated to whole seconds; one beyond [`ROUND_LIMIT`] is refused.
pub open spec fn spec_rounding(s: Seq<char>) -> Option<Rounding> {
    if s.len() == 0 {
        None
    } else {
        let start: int = if mode_of_prefix(s[0]) is Some {
            1
        } else {
            0
        };
        let mode = if mode_of_prefix(s[0]) is Some {
            mode_of_prefix(s[0])->Some_0
        } else {
            Rounding::Half(0)
        };
        match spec_number(s, start) {
            None => None,
            Some((w, f, e)) => {
                let mult = if e == s.len() {
                    Some(60)
                } else if e + 1 == s.len() {
                    unit_mult(s[e])
                } else {
                    None
                };
                match mult {
                    None => None,
                    Some(mu) => {
                        let g = spec_unit_seconds(w, f, mu);
                        if g > ROUND_LIMIT {
                            None
                        } else {
                            Some(with_granularity(mode, g))
                        }
                    },
                }
            },
        }
    }
}

/// Compute the whole-second granularity from number and unit.
fn unit_seconds(w: i64, f: i64, mult: i64) -> (g: i128)
    requires
        0 <= w < 1000000000000000,
        0 <= f < 1000000000,
        1 <= mult <= 86400,
    ensures
        g == spec_unit_seconds(w as int, f as int, mult as int),
        0 <= g,
{
    let total: i128 = (w as i128) * 1000000000 + (f as i128);
    proof {
        assert(total * mult <= 1000000000000000000000000i128 * 86400) by (nonlinear_arith)
            requires
                0 <= total <= 1000000000000000000000000i128,
                1 <= mult <= 86400,
        ;
        assert(total * mult >= 0) by (nonlinear_arith)
            requires
                total >= 0,
                mult >= 1,
        ;
    }
    let scaled: i128 = total * (mult as i128);
    scaled / 1000000000
}

/// Parse a rounding specification, such as `+15m`, `d7.5m`, `=1h` or
/// a bare `30`.
pub fn rounding(s: &str) -> (r: Option<Rounding>)
    ensures
        r == spec_rounding(s@),
{
    let n = s.unicode_len();
    if n == 0 {
        return None;
    }
    let c0 = s.get_char(0);
    let (mode, start): (Rounding, usize) = if c0 == '+' || c0 == 'U' || c0 == 'u' {
        (Rounding::Up(0), 1)
    } else if c0 == '-' || c0 == '_' || c0 == 'D' || c0 == 'd' {
        (Rounding::Down(0), 1)
    } else if c0 == '=' || c0 == 'H' || c0 == 'h' || c0 == 'e' {
        (Rounding::Half(0), 1)
    } else {
        (Rounding::Half(0), 0)
    };
    match parse_number(s, start) {
        None => None,
        Some((w, f, e)) => {
            let mult: i64 = if e == n {
                60
            } else if n - e == 1 {
                let u = s.get_char(e);
                if u == 's' || u == 'S' {
                    1
                } else if u == 'm' || u == 'M' {
                    60
                } else if u == 'h' || u == 'H' {
                    3600
                } else if u == 'd' || u == 'D' {
                    86400
                } else {
                    return None;
                }
            } else {
                return None;
            };
            let g = unit_seconds(w, f, mult);
            if g > ROUND_LIMIT as i128 {
                None
            } else {
                let gg = g as i64;
                match mode {
                    Rounding::Up(_) => Some(Rounding::Up(gg)),
                    Rounding::Down(_) => Some(Rounding::Down(gg)),
                    Rounding::Half(_) => Some(Rounding::Half(gg)),
                    Rounding::Off => None,
                }
            }
        },
    }
}

/// A relative offset in whole seconds: a sign (`+`, or `-` / `_` for
/// negative), then either a number with a required unit letter, or a
/// clock-style `H:MM`.  The magnitude truncates to whole seconds and
/// clamps at [`OFFSET_LIMIT`].
pub open spec fn spec_offset(s: Seq<char>) -> Option<i64> {
    if s.len() < 2 {
        None
    } else {
        let sign: int = if s[0] == '+' {
            1
        } else if s[0] == '-' || s[0] == '_' {
            -1
        } else {
            0
        };
        if sign == 0 {
            None
        } else {
            let j = scan_digits(s, 1);
            if 2 <= j <= 3 && j < s.len() && s[j] == ':' {
                let k = scan_digits(s, j + 1);
                if k - (j + 1) == 2 && k == s.len() {
                    let mag = digits_value(s, 1, j) * 3600 + digits_value(s, j + 1, k) * 60;
                    Some((sign * mag) as i64)
                } else {
                    None
                }
            } else {
                match spec_number(s, 1) {
                    None => None,
                    Some((w, f, e)) => {
                        if e + 1 == s.len() && unit_mult(s[e]) is Some {
                            let mag = spec_unit_seconds(w, f, unit_mult(s[e])->Some_0);
                            let clamped = if mag > OFFSET_LIMIT {
                                OFFSET_LIMIT as int
                            } else {
                                mag
                            };
                            Some((sign * clamped) as i64)
                        } else {
                            None
                        }
                    },
                }
            }
        }
    }
}

/// Parse a relative offset, such as `+2.3s`, `-1.55h` or `_2:22`.
pub fn offset(s: &str) -> (r: Option<i64>)
    ensures
        r == spec_offset(s@),
{
    let n = s.unicode_len();
    if n < 2 {
        return None;
    }
    let c0 = s.get_char(0);
    let sign: i64 = if c0 == '+' {
        1
    } else if c0 == '-' || c0 == '_' {
        -1
    } else {
        return None;
    };
    proof {
        lemma_scan_digits_props(s@, 1);
    }
    let j = scan_digits_from(s, 1);
    if 2 <= j && j <= 3 && j < n && s.get_char(j) == ':' {
        proof {
            lemma_scan_digits_props(s@, j + 1);
        }
        let k = scan_digits_from(s, j + 1);
        if k - (j + 1) == 2 && k == n {
            let hours = digits_to_i64(s, 1, j);
            let minutes = digits_to_i64(s, j + 1, k);
            proof {
                lemma_pow10_values();
                reveal_with_fuel(pow10, 4);
            }
            let mag = hours * 3600 + minutes * 60;
            Some(sign * mag)
        } else {
            None
        }
    } else {
        match parse_number(s, 1) {
            None => None,
            Some((w, f, e)) => {
                if n - e == 1 {
                    let u = s.get_char(e);
                    let mult: i64 = if u == 's' || u == 'S' {
                        1
                    } else if u == 'm' || u == 'M' {
                        60
                    } else if u == 'h' || u == 'H' {
                        3600
                    } else if u == 'd' || u == 'D' {
                        86400
                    } else {
                        return None;
                    };
                    let mag = unit_seconds(w, f, mult);
                    let clamped: i64 = if mag > OFFSET_LIMIT as i128 {
                        OFFSET_LIMIT
                    } else {
                        mag as i64
                    };
                    Some(sign * clamped)
                } else {
                    None
                }
            },
        }
    }
}


/// The calendar and clock fields recognized by [`datetime`], before
/// they are applied to a reference instant.  Fields the text leaves
/// out are `None`.
#[derive(Clone, Copy, Debug, PartialEq, Eq)]
pub struct DateTimeFields {
    pub year: Option<i32>,
    pub month: Option<u32>,
    pub day: Option<u32>,
    pub hour: u32,
    pub minute: u32,
    pub second: u32,
    pub nanosecond: u32,
    /// Seconds east of UTC, when the text names an offset.
    pub offset_seconds: Option<i32>,
}

/// An `hour:minute[:second[.fraction]]` clock reading at position
/// `i`: the four field values (no range check beyond their two-digit
/// width) and the position after them.  The seconds field may be
/// empty after its colon, and the fraction may be empty after its
/// period; both then read as zero.
pub open spec fn spec_hms(s: Seq<char>, i: int) -> Option<(int, int, int, int, int)> {
    let j1 = scan_digits(s, i);
    if !(1 <= j1 - i <= 2 && j1 < s.len() && s[j1] == ':') {
        None
    } else {
        let j2 = scan_digits(s, j1 + 1);
        if !(1 <= j2 - (j1 + 1) <= 2) {
            None
        } else {
            let h = digits_value(s, i, j1);
            let mi = digits_value(s, j1 + 1, j2);
            if j2 < s.len() && s[j2] == ':' {
                let j3 = scan_digits(s, j2 + 1);
                if j3 - (j2 + 1) > 2 {
                    None
                } else {
                    let sec = digits_value(s, j2 + 1, j3);
                    if j3 < s.len() && s[j3] == '.' {
                        let j4 = scan_digits(s, j3 + 1);
                        let m = if j4 - (j3 + 1) > 9 {
                            9
                        } else {
                            j4 - (j3 + 1)
                        };
                        let ns = digits_value(s, j3 + 1, j3 + 1 + m) * pow10((9 - m) as nat);
                        Some((h, mi, sec, ns, j4))
                    } else {
                        Some((h, mi, sec, 0, j3))
                    }
                }
            } else {
                Some((h, mi, 0, 0, j2))
            }
        }
    }
}

/// An `am`/`pm` suffix at position `i`, case-insensitive, after any
/// number of spaces: whether it is `pm`, and the position after it.
pub open spec fn spec_ampm(s: Seq<char>, i: int) -> Option<(bool, int)> {
    let j = scan_spaces(s, i);
    if j + 2 <= s.len() && (s[j + 1] == 'm' || s[j + 1] == 'M') {
        if s[j] == 'a' || s[j] == 'A' {
            Some((false, j + 2))
        } else if s[j] == 'p' || s[j] == 'P' {
            Some((true, j + 2))
        } else {
            None
        }
    } else {
        None
    }
}

/// Convert a 12-hour reading: `12:XXpm` is noon, `12:XXam` is
/// midnight, and other hours gain twelve under `pm`.
pub open spec fn apply_ampm(h: int, pm: bool) -> int {
    if pm {
        if h < 12 {
            h + 12
        } else {
            h
        }
    } else {
        if h == 12 {
            0
        } else {
            h
        }
    }
}

/// An explicit UTC offset at position `i`, after any number of
/// spaces: a sign, then `HH:MM` or `HHMM`.  Returns seconds east and
/// the position after it.
pub open spec fn spec_tz(s: Seq<char>, i: int) -> Option<(int, int)> {
    let j = scan_spaces(s, i);
    if !(j < s.len() && (s[j] == '+' || s[j] == '-')) {
        None
    } else {
        let sign: int = if s[j] == '+' {
            1
        } else {
            -1
        };
        let k = scan_digits(s, j + 1);
        if k - (j + 1) == 2 {
            if k < s.len() && s[k] == ':' {
                let k2 = scan_digits(s, k + 1);
                if k2 - (k + 1) == 2 {
                    Some(
                        (sign * (digits_value(s, j + 1, k) * 3600 + digits_value(s, k + 1, k2)
                            * 60), k2),
                    )
                } else {
                    None
                }
            } else {
                None
            }
        } else if k - (j + 1) == 4 {
            Some(
                (sign * (digits_value(s, j + 1, j + 3) * 3600 + digits_value(s, j + 3, k) * 60), k),
            )
        } else {
            None
        }
    }
}

/// A calendar date at the start of the text: an optional four-digit
/// year followed by `-`, then month and day of one or two digits
/// separated by `-` or `/`.  Returns the fields (no range check) and
/// the position after them.
pub open spec fn spec_date(s: Seq<char>) -> Option<(Option<int>, int, int, int)> {
    let j = scan_digits(s, 0);
    if j == 4 && j < s.len() && s[j] == '-' {
        let jm = scan_digits(s, 5);
        if !(1 <= jm - 5 <= 2 && jm < s.len() && (s[jm] == '-' || s[jm] == '/')) {
            None
        } else {
            let jd = scan_digits(s, jm + 1);
            if !(1 <= jd - (jm + 1) <= 2) {
                None
            } else {
                Some(
                    (
                        Some(digits_value(s, 0, 4)),
                        digits_value(s, 5, jm),
                        digits_value(s, jm + 1, jd),
                        jd,
                    ),
                )
            }
        }
    } else if 1 <= j <= 2 && j < s.len() && (s[j] == '-' || s[j] == '/') {
        let jd = scan_digits(s, j + 1);
        if !(1 <= jd - (j + 1) <= 2) {
            None
        } else {
            Some((None, digits_value(s, 0, j), digits_value(s, j + 1, jd), jd))
        }
    } else {
        None
    }
}

/// The clock part of a date-time at position `i`: a clock reading,
/// an optional `am`/`pm` suffix, and an optional explicit UTC offset,
/// reaching the end of the text.
pub open spec fn spec_clock_part(
    s: Seq<char>,
    i: int,
    year: Option<i32>,
    month: Option<u32>,
    day: Option<u32>,
) -> Option<DateTimeFields> {
    match spec_hms(s, i) {
        None => None,
        Some((h, mi, sec, ns, e)) => {
            let h2 = if spec_ampm(s, e) is Some {
                apply_ampm(h, spec_ampm(s, e)->Some_0.0)
            } else {
                h
            };
            let pos = if spec_ampm(s, e) is Some {
                spec_ampm(s, e)->Some_0.1
            } else {
                e
            };
            if pos == s.len() {
                Some(
                    DateTimeFields {
                        year,
                        month,
                        day,
                        hour: h2 as u32,
                        minute: mi as u32,
                        second: sec as u32,
                        nanosecond: ns as u32,
                        offset_seconds: None,
                    },
                )
            } else {
                match spec_tz(s, pos) {
                    None => None,
                    Some((off, e3)) => {
                        if e3 == s.len() && -86400 < off < 86400 {
                            Some(
                                DateTimeFields {
                                    year,
                                    month,
                                    day,
                                    hour: h2 as u32,
                                    minute: mi as u32,
                                    second: sec as u32,
                                    nanosecond: ns as u32,
                                    offset_seconds: Some(off as i32),
                                },
                            )
                        } else {
                            None
                        }
                    },
                }
            }
        },
    }
}

/// A time of day on its own: a clock reading with an optional
/// `am`/`pm` suffix, covering the whole text.
pub open spec fn spec_time(s: Seq<char>) -> Option<(u32, u32, u32, u32)> {
    match spec_hms(s, 0) {
        None => None,
        Some((h, mi, sec, ns, e)) => {
            if e == s.len() {
                Some((h as u32, mi as u32, sec as u32, ns as u32))
            } else {
                match spec_ampm(s, e) {
                    None => None,
                    Some((pm, e2)) => {
                        if e2 == s.len() {
                            Some((apply_ampm(h, pm) as u32, mi as u32, sec as u32, ns as u32))
                        } else {
                            None
                        }
                    },
                }
            }
        },
    }
}

/// A date-time: an optional date part, then (after at least one
/// space, unless the text is the date alone) an optional clock part
/// with optional `am`/`pm` suffix and UTC offset.  A date-only text
/// reads as midnight.  A date and clock with no separating space are
/// rejected.
pub open spec fn spec_datetime(s: Seq<char>) -> Option<DateTimeFields> {
    match spec_date(s) {
        Some((y, mo, dy, e)) => {
            let year = if y is Some {
                Some(y->Some_0 as i32)
            } else {
                None
            };
            if e == s.len() {
                Some(
                    DateTimeFields {
                        year,
                        month: Some(mo as u32),
                        day: Some(dy as u32),
                        hour: 0,
                        minute: 0,
                        second: 0,
                        nanosecond: 0,
                        offset_seconds: None,
                    },
                )
            } else {
                let e2 = scan_spaces(s, e);
                if e2 == e {
                    None
                } else {
                    spec_clock_part(s, e2, year, Some(mo as u32), Some(dy as u32))
                }
            }
        },
        None => spec_clock_part(s, 0, None, None, None),
    }
}

/// Parse a clock reading at `from`.
fn parse_hms(s: &str, from: usize) -> (r: Option<(u32, u32, u32, u32, usize)>)
    requires
        from <= s@.len(),
    ensures
        match r {
            Some((h, mi, sec, ns, e)) => {
                &&& spec_hms(s@, from as int) == Some(
                    (h as int, mi as int, sec as int, ns as int, e as int),
                )
                &&& from < e <= s@.len()
                &&& h < 100 && mi < 100 && sec < 100 && ns < 1000000000
            },
            None => spec_hms(s@, from as int) is None,
        },
{
    proof {
        lemma_pow10_values();
        lemma_scan_digits_props(s@, from as int);
    }
    let n = s.unicode_len();
    let j1 = scan_digits_from(s, from);
    if !(1 <= j1 - from && j1 - from <= 2 && j1 < n && s.get_char(j1) == ':') {
        return None;
    }
    proof {
        lemma_scan_digits_props(s@, j1 + 1);
    }
    let j2 = scan_digits_from(s, j1 + 1);
    if !(1 <= j2 - (j1 + 1) && j2 - (j1 + 1) <= 2) {
        return None;
    }
    let h = digits_to_i64(s, from, j1) as u32;
    let mi = digits_to_i64(s, j1 + 1, j2) as u32;
    if j2 < n && s.get_char(j2) == ':' {
        proof {
            lemma_scan_digits_props(s@, j2 + 1);
        }
        let j3 = scan_digits_from(s, j2 + 1);
        if j3 - (j2 + 1) > 2 {
            return None;
        }
        let sec = digits_to_i64(s, j2 + 1, j3) as u32;
        if j3 < n && s.get_char(j3) == '.' {
            proof {
                lemma_scan_digits_props(s@, j3 + 1);
            }
            let j4 = scan_digits_from(s, j3 + 1);
            let m = if j4 - (j3 + 1) > 9 {
                9
            } else {
                j4 - (j3 + 1)
            };
            let fd = digits_to_i64(s, j3 + 1, j3 + 1 + m);
            let p = pow10_i64(9 - m);
            proof {
                lemma_pow10_le((9 - m) as nat, 9);
                assert(fd * p < pow10(m as nat) * pow10((9 - m) as nat)) by (nonlinear_arith)
                    requires
                        0 <= fd < pow10(m as nat),
                        p == pow10((9 - m) as nat),
                        p > 0,
                ;
                assert(pow10(m as nat) * pow10((9 - m) as nat) == pow10(9)) by {
                    lemma_pow10_mul(m as nat, (9 - m) as nat);
                }
                assert(fd * p >= 0) by (nonlinear_arith)
                    requires
                        fd >= 0,
                        p > 0,
                ;
            }
            let ns = (fd * p) as u32;
            Some((h, mi, sec, ns, j4))
        } else {
            Some((h, mi, sec, 0, j3))
        }
    } else {
        Some((h, mi, 0, 0, j2))
    }
}

/// Parse an `am`/`pm` suffix at `from`.
fn parse_ampm(s: &str, from: usize) -> (r: Option<(bool, usize)>)
    requires
        from <= s@.len(),
    ensures
        match r {
            Some((pm, e)) => {
                &&& spec_ampm(s@, from as int) == Some((pm, e as int))
                &&& from < e <= s@.len()
            },
            None => spec_ampm(s@, from as int) is None,
        },
{
    proof {
        lemma_scan_spaces_props(s@, from as int);
    }
    let n = s.unicode_len();
    let j = scan_spaces_from(s, from);
    if n >= 2 && j <= n - 2 {
        let c1 = s.get_char(j + 1);
        if c1 == 'm' || c1 == 'M' {
            let c0 = s.get_char(j);
            if c0 == 'a' || c0 == 'A' {
                return Some((false, j + 2));
            }
            if c0 == 'p' || c0 == 'P' {
                return Some((true, j + 2));
            }
            return None;
        }
        None
    } else {
        None
    }
}

/// Parse an explicit UTC offset at `from`.
fn parse_tz(s: &str, from: usize) -> (r: Option<(i32, usize)>)
    requires
        from <= s@.len(),
    ensures
        match r {
            Some((off, e)) => {
                &&& spec_tz(s@, from as int) == Some((off as int, e as int))
                &&& from < e <= s@.len()
                &&& -362340 <= off <= 362340
            },
            None => spec_tz(s@, from as int) is None,
        },
{
    proof {
        lemma_scan_spaces_props(s@, from as int);
        lemma_pow10_values();
    }
    let n = s.unicode_len();
    let j = scan_spaces_from(s, from);
    if !(j < n) {
        return None;
    }
    let c = s.get_char(j);
    if !(c == '+' || c == '-') {
        return None;
    }
    let positive = c == '+';
    proof {
        lemma_scan_digits_props(s@, j + 1);
    }
    let k = scan_digits_from(s, j + 1);
    if k - (j + 1) == 2 {
        if k < n && s.get_char(k) == ':' {
            proof {
                lemma_scan_digits_props(s@, k + 1);
            }
            let k2 = scan_digits_from(s, k + 1);
            if k2 - (k + 1) == 2 {
                let hh = digits_to_i64(s, j + 1, k) as i32;
                let mm = digits_to_i64(s, k + 1, k2) as i32;
                proof {
                    assert(hh < 100 && mm < 100);
                }
                let mag = hh * 3600 + mm * 60;
                proof {
                    let m_int: int = mag as int;
                    assert(1 * m_int == m_int) by (nonlinear_arith);
                    assert((-1) * m_int == -m_int) by (nonlinear_arith);
                }
                let off = if positive {
                    mag
                } else {
                    -mag
                };
                Some((off, k2))
            } else {
                None
            }
        } else {
            None
        }
    } else if k - (j + 1) == 4 {
        proof {
            assert(forall|q: int| j + 1 <= q < j + 3 ==> is_digit(#[trigger] s@[q]));
            assert(forall|q: int| j + 3 <= q < k ==> is_digit(#[trigger] s@[q]));
        }
        let hh = digits_to_i64(s, j + 1, j + 3) as i32;
        let mm = digits_to_i64(s, j + 3, k) as i32;
        proof {
            assert(hh < 100 && mm < 100);
        }
        let mag = hh * 3600 + mm * 60;
        proof {
            let m_int: int = mag as int;
            assert(1 * m_int == m_int) by (nonlinear_arith);
            assert((-1) * m_int == -m_int) by (nonlinear_arith);
        }
        let off = if positive {
            mag
        } else {
            -mag
        };
        Some((off, k))
    } else {
        None
    }
}

/// Parse the date part at the start of the text.
fn parse_date(s: &str) -> (r: Option<(Option<i32>, u32, u32, usize)>)
    ensures
        match r {
            Some((y, mo, dy, e)) => {
                &&& spec_date(s@) matches Some((sy, smo, sdy, se)) && smo == mo as int && sdy == dy
                    as int && se == e as int && (match (sy, y) {
                    (Some(a), Some(b)) => a == b as int,
                    (None, None) => true,
                    _ => false,
                })
                &&& 0 < e <= s@.len()
                &&& mo < 100 && dy < 100
                &&& (y matches Some(v) ==> 0 <= v < 10000)
            },
            None => spec_date(s@) is None,
        },
{
    proof {
        lemma_scan_digits_props(s@, 0);
        lemma_pow10_values();
    }
    let n = s.unicode_len();
    let j = scan_digits_from(s, 0);
    if j == 4 && j < n && s.get_char(j) == '-' {
        proof {
            lemma_scan_digits_props(s@, 5);
        }
        let jm = scan_digits_from(s, 5);
        if !(1 <= jm - 5 && jm - 5 <= 2 && jm < n) {
            return None;
        }
        let sep = s.get_char(jm);
        if !(sep == '-' || sep == '/') {
            return None;
        }
        proof {
            lemma_scan_digits_props(s@, jm + 1);
        }
        let jd = scan_digits_from(s, jm + 1);
        if !(1 <= jd - (jm + 1) && jd - (jm + 1) <= 2) {
            return None;
        }
        let y = digits_to_i64(s, 0, 4) as i32;
        let mo = digits_to_i64(s, 5, jm) as u32;
        let dy = digits_to_i64(s, jm + 1, jd) as u32;
        Some((Some(y), mo, dy, jd))
    } else if 1 <= j && j <= 2 && j < n {
        let sep = s.get_char(j);
        if !(sep == '-' || sep == '/') {
            return None;
        }
        proof {
            lemma_scan_digits_props(s@, j + 1);
        }
        let jd = scan_digits_from(s, j + 1);
        if !(1 <= jd - (j + 1) && jd - (j + 1) <= 2) {
            return None;
        }
        let mo = digits_to_i64(s, 0, j) as u32;
        let dy = digits_to_i64(s, j + 1, jd) as u32;
        Some((None, mo, dy, jd))
    } else {
        None
    }
}

/// All fields of a recognized date-time sit inside their two-digit
/// (or four-digit, or nanosecond) widths.
pub open spec fn fields_bounded(f: DateTimeFields) -> bool {
    &&& (f.year matches Some(y) ==> 0 <= y < 10000)
    &&& (f.month matches Some(m) ==> m < 100)
    &&& (f.day matches Some(d) ==> d < 100)
    &&& f.hour < 112
    &&& f.minute < 100
    &&& f.second < 100
    &&& f.nanosecond < 1000000000
    &&& (f.offset_seconds matches Some(o) ==> -86400 < o < 86400)
}

/// Parse the clock part at `from`, attaching the given date fields.
fn parse_clock_part(
    s: &str,
    from: usize,
    year: Option<i32>,
    month: Option<u32>,
    day: Option<u32>,
) -> (r: Option<DateTimeFields>)
    requires
        from <= s@.len(),
        year matches Some(y) ==> 0 <= y < 10000,
        month matches Some(m) ==> m < 100,
        day matches Some(d) ==> d < 100,
    ensures
        r == spec_clock_part(s@, from as int, year, month, day),
        r matches Some(f) ==> fields_bounded(f),
{
    match parse_hms(s, from) {
        None => None,
        Some((h, mi, sec, ns, e)) => {
            let (h2, pos): (u32, usize) = match parse_ampm(s, e) {
                Some((pm, e2)) => {
                    let hh = if pm {
                        if h < 12 {
                            h + 12
                        } else {
                            h
                        }
                    } else {
                        if h == 12 {
                            0
                        } else {
                            h
                        }
                    };
                    (hh, e2)
                },
                None => (h, e),
            };
            let n = s.unicode_len();
            if pos == n {
                Some(
                    DateTimeFields {
                        year,
                        month,
                        day,
                        hour: h2,
                        minute: mi,
                        second: sec,
                        nanosecond: ns,
                        offset_seconds: None,
                    },
                )
            } else {
                match parse_tz(s, pos) {
                    None => None,
                    Some((off, e3)) => {
                        if e3 == n && -86400 < off && off < 86400 {
                            Some(
                                DateTimeFields {
                                    year,
                                    month,
                                    day,
                                    hour: h2,
                                    minute: mi,
                                    second: sec,
                                    nanosecond: ns,
                                    offset_seconds: Some(off),
                                },
                            )
                        } else {
                            None
                        }
                    },
                }
            }
        },
    }
}

/// Parse a time of day, such as `9:22:32.055 Pm`.
pub fn time(s: &str) -> (r: Option<(u32, u32, u32, u32)>)
    ensures
        r == spec_time(s@),
        r matches Some((h, mi, sec, ns)) ==> h < 112 && mi < 100 && sec < 100 && ns < 1000000000,
{
    let n = s.unicode_len();
    match parse_hms(s, 0) {
        None => None,
        Some((h, mi, sec, ns, e)) => {
            if e == n {
                Some((h, mi, sec, ns))
            } else {
                match parse_ampm(s, e) {
                    None => None,
                    Some((pm, e2)) => {
                        if e2 == n {
                            let hh = if pm {
                                if h < 12 {
                                    h + 12
                                } else {
                                    h
                                }
                            } else {
                                if h == 12 {
                                    0
                                } else {
                                    h
                                }
                            };
                            Some((hh, mi, sec, ns))
                        } else {
                            None
                        }
                    },
                }
            }
        },
    }
}

/// Parse a date-time, such as `2017-4/2 9:22 Pm` or `12:24pm`.
pub fn datetime(s: &str) -> (r: Option<DateTimeFields>)
    ensures
        r == spec_datetime(s@),
        r matches Some(f) ==> fields_bounded(f),
{
    let n = s.unicode_len();
    match parse_date(s) {
        Some((y, mo, dy, e)) => {
            if e == n {
                Some(
                    DateTimeFields {
                        year: y,
                        month: Some(mo),
                        day: Some(dy),
                        hour: 0,
                        minute: 0,
                        second: 0,
                        nanosecond: 0,
                        offset_seconds: None,
                    },
                )
            } else {
                proof {
                    lemma_scan_spaces_props(s@, e as int);
                }
                let e2 = scan_spaces_from(s, e);
                if e2 == e {
                    None
                } else {
                    parse_clock_part(s, e2, y, Some(mo), Some(dy))
                }
            }
        },
        None => parse_clock_part(s, 0, None, None, None),
    }
}


} // verus!
