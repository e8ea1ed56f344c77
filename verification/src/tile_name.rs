//! Tile coordinates from terrain file names.
//!
//! A terrain file covering the one-degree cell at integer latitude and
//! longitude carries them in its name, in the shape `N50E014` or `s33w070`
//! (capital letters only): a hemisphere letter, the latitude digits, an
//! east/west letter, the longitude digits. The first such group found in the
//! name, scanning left to right, decides; each digit run is taken as long as
//! possible. A south or west letter negates the value, and a value that does
//! not fit in an `i16` makes the whole name unusable.

use vstd::prelude::*;

verus! {

/// A decimal digit.
pub open spec fn is_digit(c: char) -> bool {
    48 <= c as u32 <= 57
}

/// A hemisphere letter for latitude.
pub open spec fn is_ns(c: char) -> bool {
    c == 'N' || c == 'S'
}

/// A hemisphere letter for longitude.
pub open spec fn is_ew(c: char) -> bool {
    c == 'E' || c == 'W'
}

/// The numeric value of one digit.
pub open spec fn digit_val(c: char) -> int {
    c as u32 - 48
}

/// The position just after the run of digits beginning at `t`.
pub open spec fn digit_run_end(s: Seq<char>, t: int) -> int
    decreases s.len() - t,
{
    if t < 0 || t >= s.len() {
        t
    } else if is_digit(s[t]) {
        digit_run_end(s, t + 1)
    } else {
        t
    }
}

/// The value of the digits at positions `from` up to `to`.
pub open spec fn digits_value(s: Seq<char>, from: int, to: int) -> int
    decreases to - from,
{
    if to <= from {
        0
    } else {
        digits_value(s, from, to - 1) * 10 + digit_val(s[to - 1])
    }
}

/// Whether a coordinate group starts at position `i`: a hemisphere letter, at
/// least one digit, an east/west letter right after the digits, and at least
/// one digit again.
pub open spec fn match_at(s: Seq<char>, i: int) -> bool {
    let j = digit_run_end(s, i + 1);
    &&& 0 <= i < s.len()
    &&& is_ns(s[i])
    &&& j > i + 1
    &&& j < s.len()
    &&& is_ew(s[j])
    &&& digit_run_end(s, j + 1) > j + 1
}

/// The first position at or after `a` where a coordinate group starts, or the
/// length of the name if there is none.
pub open spec fn first_match_from(s: Seq<char>, a: int) -> int
    decreases s.len() - a,
{
    if a < 0 || a >= s.len() {
        s.len() as int
    } else if match_at(s, a) {
        a
    } else {
        first_match_from(s, a + 1)
    }
}

/// The magnitude of the latitude of the group starting at `i`.
pub open spec fn match_lat_mag(s: Seq<char>, i: int) -> int {
    digits_value(s, i + 1, digit_run_end(s, i + 1))
}

/// The magnitude of the longitude of the group starting at `i`.
pub open spec fn match_lon_mag(s: Seq<char>, i: int) -> int {
    let j = digit_run_end(s, i + 1);
    digits_value(s, j + 1, digit_run_end(s, j + 1))
}

/// The signed latitude of the group starting at `i`.
pub open spec fn match_lat(s: Seq<char>, i: int) -> int {
    if s[i] == 'S' {
        -match_lat_mag(s, i)
    } else {
        match_lat_mag(s, i)
    }
}

/// The signed longitude of the group starting at `i`.
pub open spec fn match_lon(s: Seq<char>, i: int) -> int {
    let j = digit_run_end(s, i + 1);
    if s[j] == 'W' {
        -match_lon_mag(s, i)
    } else {
        match_lon_mag(s, i)
    }
}

/// The name yields tile coordinates exactly when it holds a coordinate group
/// whose first occurrence has both values within `i16` range.
pub open spec fn name_coords(s: Seq<char>) -> Option<(int, int)> {
    let i = first_match_from(s, 0);
    if i < s.len() && match_lat_mag(s, i) <= 32767 && match_lon_mag(s, i) <= 32767 {
        Option::Some((match_lat(s, i), match_lon(s, i)))
    } else {
        Option::None
    }
}

proof fn lemma_first_match_skip(s: Seq<char>, a: int, i: int)
    requires
        0 <= a <= i <= s.len(),
        forall|t: int| a <= t < i ==> !match_at(s, t),
    ensures
        first_match_from(s, a) == first_match_from(s, i),
    decreases i - a,
{
    if a < i {
        assert(!match_at(s, a));
        lemma_first_match_skip(s, a + 1, i);
    }
}

/// Whether the character at `t` is a decimal digit.
fn digit_at(s: &str, t: usize) -> (b: bool)
    requires
        t < s@.len(),
    ensures
        b == is_digit(s@[t as int]),
{
    let c = s.get_char(t);
    48 <= c as u32 && c as u32 <= 57
}

/// The position just after the digits beginning at `start`.
fn scan_digits(s: &str, start: usize, n: usize) -> (e: usize)
    requires
        n == s@.len(),
        start <= n,
    ensures
        e as int == digit_run_end(s@, start as int),
        start <= e <= n,
{
    let mut t: usize = start;
    while t < n && digit_at(s, t)
        invariant
            start <= t <= n,
            n == s@.len(),
            digit_run_end(s@, start as int) == digit_run_end(s@, t as int),
        decreases n - t,
    {
        t = t + 1;
    }
    t
}

/// The digits at `from` up to `to` as an `i16`, or `None` where their value
/// does not fit.
fn parse_digits(s: &str, from: usize, to: usize) -> (r: Option<i16>)
    requires
        from <= to <= s@.len(),
        forall|t: int| from <= t < to ==> is_digit(s@[t]),
    ensures
        match r {
            Option::Some(v) => digits_value(s@, from as int, to as int) <= 32767 && v as int
                == digits_value(s@, from as int, to as int) && v >= 0,
            Option::None => digits_value(s@, from as int, to as int) > 32767,
        },
{
    let mut acc: u32 = 0;
    let mut t: usize = from;
    while t < to
        invariant
            from <= t <= to <= s@.len(),
            forall|u: int| from <= u < to ==> is_digit(s@[u]),
            acc as int == digits_value(s@, from as int, t as int),
            acc <= 32767,
        decreases to - t,
    {
        let c = s.get_char(t);
        let d: u32 = c as u32 - 48;
        acc = acc * 10 + d;
        t = t + 1;
        if acc > 32767 {
            proof {
                lemma_digits_value_grows(s@, from as int, t as int, to as int);
            }
            return Option::None;
        }
    }
    Option::Some(acc as i16)
}

proof fn lemma_digits_value_grows(s: Seq<char>, from: int, t: int, to: int)
    requires
        from <= t <= to,
        forall|u: int| from <= u < to ==> is_digit(s[u]),
        digits_value(s, from, t) > 32767,
    ensures
        digits_value(s, from, to) > 32767,
    decreases to - t,
{
    if t < to {
        assert(is_digit(s[t]));
        assert(digits_value(s, from, t + 1) == digits_value(s, from, t) * 10 + digit_val(s[t]));
        lemma_digits_value_grows(s, from, t + 1, to);
    }
}

/// The tile coordinates named by a terrain file, read from the first
/// coordinate group in its name.
pub fn coords_from_name(name: &str) -> (r: Option<(i16, i16)>)
    ensures
        match name_coords(name@) {
            Option::Some(p) => r matches Option::Some(q) && q.0 as int == p.0 && q.1 as int == p.1,
            Option::None => r is None,
        },
{
    let n: usize = name.unicode_len();
    let mut i: usize = 0;
    while i < n
        invariant
            i <= n,
            n == name@.len(),
            forall|t: int| 0 <= t < i ==> !match_at(name@, t),
        decreases n - i,
    {
        let c = name.get_char(i);
        if c == 'N' || c == 'S' {
            let j = scan_digits(name, i + 1, n);
            if j > i + 1 && j < n {
                let e = name.get_char(j);
                if e == 'E' || e == 'W' {
                    let k = scan_digits(name, j + 1, n);
                    if k > j + 1 {
                        assert(match_at(name@, i as int));
                        proof {
                            lemma_first_match_skip(name@, 0, i as int);
                            assert(first_match_from(name@, 0) == i as int);
                        }
                        assert(forall|t: int| i < t < j ==> is_digit(name@[t])) by {
                            lemma_digit_run_digits(name@, i + 1, j as int);
                        }
                        assert(forall|t: int| j < t < k ==> is_digit(name@[t])) by {
                            lemma_digit_run_digits(name@, j + 1, k as int);
                        }
                        let lat_mag = parse_digits(name, i + 1, j);
                        let lat: i16 = match lat_mag {
                            Option::Some(v) => v,
                            Option::None => {
                                return Option::None;
                            },
                        };
                        let lon_mag = parse_digits(name, j + 1, k);
                        let lon: i16 = match lon_mag {
                            Option::Some(v) => v,
                            Option::None => {
                                return Option::None;
                            },
                        };
                        let lat_signed: i16 = if c == 'S' {
                            -lat
                        } else {
                            lat
                        };
                        let lon_signed: i16 = if e == 'W' {
                            -lon
                        } else {
                            lon
                        };
                        return Option::Some((lat_signed, lon_signed));
                    }
                }
            }
        }
        assert(!match_at(name@, i as int));
        i = i + 1;
    }
    proof {
        lemma_first_match_skip(name@, 0, n as int);
    }
    Option::None
}

proof fn lemma_digit_run_digits(s: Seq<char>, start: int, end: int)
    requires
        0 <= start,
        end == digit_run_end(s, start),
    ensures
        forall|t: int| start <= t < end ==> is_digit(s[t]),
    decreases s.len() - start,
{
    if start < s.len() && is_digit(s[start]) {
        lemma_digit_run_digits(s, start + 1, end);
    }
}

} // verus!
