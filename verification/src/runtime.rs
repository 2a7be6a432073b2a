//! The decisions of the runtime library that compiled programs call:
//! pseudo-random numbers, `Azar` and `Aleatorio`, the text functions
//! (`Longitud`, `Mayusculas`, `Minusculas`, `Subcadena`, `Concatenar`), the clock
//! codes of `HoraActual` and `FechaActual`, and the sizes of allocations
//! and waits. Reading the clock and keeping the generator's state are left
//! to the caller.
use vstd::prelude::*;
use crate::lexer::chars_of;
use crate::text::{cat, decimal, lowercase, push_char, to_lowercase, to_uppercase, u64_to_string, uppercase};
use vstd::string::StrSliceExecFns;

verus! {

// ---------------------------------------------------------------------
// XorShift64
// ---------------------------------------------------------------------
/// One step of the XorShift64 generator (shifts 13, 7, 17).
pub open spec fn xorshift(x: u64) -> u64 {
    let a = x ^ (x << 13u64);
    let b = a ^ (a >> 7u64);
    b ^ (b << 17u64)
}

/// The state a generator starts from: the clock's nanoseconds (never 0),
/// or a fixed seed when the clock cannot be read.
pub open spec fn seed(clock_nanos: Option<u64>) -> u64 {
    match clock_nanos {
        Some(n) => if n == 0 {
            1
        } else {
            n
        },
        None => 12345678,
    }
}

/// Advances the generator: from `state`, or from a seed taken from the
/// clock when `state` is 0 (the generator has not run yet). The result is
/// both the new state and the random value.
pub fn xorshift64_next(state: u64, clock_nanos: Option<u64>) -> (r: u64)
    ensures
        r == xorshift(if state != 0 {
            state
        } else {
            seed(clock_nanos)
        }),
        r != 0,
{
    let mut s = if state != 0 {
        state
    } else {
        match clock_nanos {
            Some(n) => if n == 0 {
                1
            } else {
                n
            },
            None => 12345678,
        }
    };
    proof {
        law_xorshift_nonzero(s);
    }
    s = s ^ (s << 13u64);
    s = s ^ (s >> 7u64);
    s = s ^ (s << 17u64);
    s
}

/// A step of the generator never reaches 0 from another state, so the
/// generator never gets stuck.
pub proof fn law_xorshift_nonzero(x: u64)
    requires
        x != 0,
    ensures
        xorshift(x) != 0,
{
    let a = x ^ (x << 13u64);
    let b = a ^ (a >> 7u64);
    assert(x != 0 ==> x ^ (x << 13u64) != 0) by (bit_vector);
    assert(a != 0 ==> a ^ (a >> 7u64) != 0) by (bit_vector);
    assert(b != 0 ==> b ^ (b << 17u64) != 0) by (bit_vector);
}

/// `Azar(n)`: a number in `0 .. n` taken from the random value `random`;
/// 0 when `n` is not positive.
pub fn builtin_azar(n: i64, random: u64) -> (r: i64)
    ensures
        r == (if n <= 0 {
            0
        } else {
            (random % (n as u64)) as i64
        }),
        n > 0 ==> 0 <= r < n,
        n <= 0 ==> r == 0,
{
    if n <= 0 {
        return 0;
    }
    let m = n as u64;
    let v = random % m;
    v as i64
}

/// The number of values `Aleatorio(a, b)` chooses among: `b - a + 1` in
/// wrapping arithmetic, at least 1.
pub open spec fn aleatorio_range(a: i64, b: i64) -> u64 {
    let w = b.wrapping_sub(a).wrapping_add(1);
    if w < 1 {
        1
    } else {
        w as u64
    }
}

/// `Aleatorio(a, b)`: `a` plus the random value modulo the size of the
/// range (wrapping on overflow).
pub fn builtin_aleatorio(a: i64, b: i64, random: u64) -> (r: i64)
    ensures
        r == a.wrapping_add((random % aleatorio_range(a, b)) as i64),
        a <= b && b - a + 1 <= i64::MAX ==> a <= r <= b,
{
    let w = b.wrapping_sub(a).wrapping_add(1);
    let range: u64 = if w < 1 {
        1
    } else {
        w as u64
    };
    let off = random % range;
    assert(off < range);
    let r = a.wrapping_add(off as i64);
    r
}

// ---------------------------------------------------------------------
// Texts
// ---------------------------------------------------------------------
/// `Longitud(s)`: the number of characters (not bytes) of the text.
pub fn builtin_longitud(text: &str) -> (r: i64)
    requires
        text@.len() <= i64::MAX,
    ensures
        r == text@.len(),
{
    text.unicode_len() as i64
}

/// The decimal numeral of an integer, with a minus sign when negative.
pub open spec fn int_text(n: int) -> Seq<char> {
    if n < 0 {
        "-"@ + decimal((-n) as nat)
    } else {
        decimal(n as nat)
    }
}

/// An integer as text (for concatenation with a text), as
/// `format!("{}", n)` writes it.
pub fn builtin_int_to_str(n: i64) -> (r: String)
    ensures
        r@ == int_text(n as int),
{
    if n < 0 {
        let m: u64 = if n == i64::MIN {
            9223372036854775808u64
        } else {
            (-n) as u64
        };
        let digits = u64_to_string(m);
        cat("-", digits.as_str())
    } else {
        u64_to_string(n as u64)
    }
}

/// `Mayusculas(s)`: the text in upper case.
pub fn builtin_mayusculas(text: &str) -> (r: String)
    ensures
        r@ == uppercase(text@),
{
    let s = String::from_str(text);
    to_uppercase(&s)
}

/// `Minusculas(s)`: the text in lower case.
pub fn builtin_minusculas(text: &str) -> (r: String)
    ensures
        r@ == lowercase(text@),
{
    let s = String::from_str(text);
    to_lowercase(&s)
}

/// `Concatenar(a, b)`: `a` followed by `b`.
pub fn builtin_concatenar(a: &str, b: &str) -> (r: String)
    ensures
        r@ == a@ + b@,
{
    cat(a, b)
}

// ---------------------------------------------------------------------
// Subcadena
// ---------------------------------------------------------------------
/// `Subcadena(s, x, y)`: the characters from position `x` to position `y`
/// (counted from 1, both included), cut to the text; empty when the range
/// is empty or starts past the end. The positions are read as `usize`.
pub open spec fn subcadena(s: Seq<char>, x: i64, y: i64) -> Seq<char> {
    let start = if (x as usize) >= 1 {
        ((x as usize) - 1) as int
    } else {
        0
    };
    let end = (y as usize) as int;
    if start < end && start < s.len() {
        s.subrange(start, if end < s.len() {
            end
        } else {
            s.len() as int
        })
    } else {
        Seq::empty()
    }
}

pub fn builtin_subcadena(text: &str, x: i64, y: i64) -> (r: String)
    ensures
        r@ == subcadena(text@, x, y),
{
    let s = chars_of(text);
    let start = (x as usize).saturating_sub(1);
    let end = y as usize;
    let mut r = String::new();
    if start < end && start < s.len() {
        let hi = if end < s.len() {
            end
        } else {
            s.len()
        };
        let mut j = start;
        while j < hi
            invariant
                start <= j <= hi <= s.len(),
                r@ == s@.subrange(start as int, j as int),
            decreases hi - j,
        {
            push_char(&mut r, s[j]);
            assert(s@.subrange(start as int, j + 1) =~= s@.subrange(start as int, j as int).push(
                s@[j as int],
            ));
            j += 1;
        }
    } else {
        assert(r@ =~= Seq::<char>::empty());
    }
    r
}

// ---------------------------------------------------------------------
// The clock
// ---------------------------------------------------------------------
/// `HoraActual`: the time of day of a local time in seconds since the
/// epoch, written as the number `hhmmss`.
pub open spec fn time_code(local_secs: int) -> int {
    let d = local_secs % 86400;
    (d / 3600) * 10000 + ((d % 3600) / 60) * 100 + d % 60
}

pub fn builtin_horaactual(local_secs: i64) -> (r: i64)
    ensures
        r == time_code(local_secs as int),
        0 <= r <= 235959,
{
    let d = match local_secs.checked_rem_euclid(86400) {
        Some(v) => v,
        None => 0,
    };
    assert(0 <= d < 86400);
    let hh = d / 3600;
    let mm = (d % 3600) / 60;
    let ss = d % 60;
    hh * 10000 + mm * 100 + ss
}

pub open spec fn is_leap(y: int) -> bool {
    y % 4 == 0 && (y % 100 != 0 || y % 400 == 0)
}

pub open spec fn year_len(y: int) -> int {
    if is_leap(y) {
        366
    } else {
        365
    }
}

pub open spec fn month_len(m: int, leap: bool) -> int {
    if m == 2 {
        if leap {
            29
        } else {
            28
        }
    } else if m == 4 || m == 6 || m == 9 || m == 11 {
        30
    } else {
        31
    }
}

/// Counting whole years from year `y`: the year reached and the days left.
pub open spec fn year_of(days: int, y: int) -> (int, int)
    decreases days,
{
    if days < year_len(y) {
        (y, days)
    } else {
        year_of(days - year_len(y), y + 1)
    }
}

/// Counting whole months from month `m` (at most up to 13).
pub open spec fn month_of(rem: int, m: int, leap: bool) -> (int, int)
    decreases 13 - m,
{
    if m > 12 || rem < month_len(m, leap) {
        (m, rem)
    } else {
        month_of(rem - month_len(m, leap), m + 1, leap)
    }
}

/// The year, month and day of a local time in seconds since the epoch
/// (1970-01-01), counted year by year and month by month.
pub open spec fn date_parts(local_secs: int) -> (int, int, int) {
    let days = local_secs / 86400;
    let (y, rem) = year_of(days, 1970);
    let (m, d) = month_of(rem, 1, is_leap(y));
    (y, m, d + 1)
}

/// `FechaActual`: the date written as the number `yyyymmdd`.
pub open spec fn date_code(local_secs: int) -> int {
    let (y, m, d) = date_parts(local_secs);
    y * 10000 + m * 100 + d
}

/// The days of the months from `m` to December.
pub open spec fn rest_len(m: int, leap: bool) -> int
    decreases 13 - m,
{
    if m > 12 {
        0
    } else {
        month_len(m, leap) + rest_len(m + 1, leap)
    }
}

proof fn lemma_year_of_valid(days: int, y: int)
    requires
        days >= 0,
    ensures
        year_of(days, y).0 >= y,
        0 <= year_of(days, y).1 < year_len(year_of(days, y).0),
    decreases days,
{
    if days >= year_len(y) {
        lemma_year_of_valid(days - year_len(y), y + 1);
    }
}

proof fn lemma_month_of_valid(rem: int, m: int, leap: bool)
    requires
        1 <= m <= 12,
        0 <= rem < rest_len(m, leap),
    ensures
        m <= month_of(rem, m, leap).0 <= 12,
        0 <= month_of(rem, m, leap).1 < month_len(month_of(rem, m, leap).0, leap),
    decreases 13 - m,
{
    if rem >= month_len(m, leap) {
        if m == 12 {
            assert(rest_len(13, leap) == 0);
        }
        lemma_month_of_valid(rem - month_len(m, leap), m + 1, leap);
    }
}

/// From 1970 on, `FechaActual` gives a calendar date: a month from 1 to
/// 12 and a day of that month.
pub proof fn law_date_is_valid(local_secs: int)
    requires
        local_secs >= 0,
    ensures
        date_parts(local_secs).0 >= 1970,
        1 <= date_parts(local_secs).1 <= 12,
        1 <= date_parts(local_secs).2 <= month_len(
            date_parts(local_secs).1,
            is_leap(date_parts(local_secs).0),
        ),
{
    let days = local_secs / 86400;
    lemma_year_of_valid(days, 1970);
    let (y, rem) = year_of(days, 1970);
    assert(rest_len(1, true) == 366 && rest_len(1, false) == 365) by {
        reveal_with_fuel(rest_len, 13);
    }
    lemma_month_of_valid(rem, 1, is_leap(y));
}

proof fn lemma_month_of(rem: int, m: int, leap: bool)
    requires
        1 <= m,
    ensures
        m <= month_of(rem, m, leap).0 <= (if m > 13 { m } else { 13 }),
        rem < 0 ==> month_of(rem, m, leap) == (m, rem),
        rem >= 0 ==> 0 <= month_of(rem, m, leap).1 <= rem,
    decreases 13 - m,
{
    if !(m > 12 || rem < month_len(m, leap)) {
        lemma_month_of(rem - month_len(m, leap), m + 1, leap);
    }
}

fn month_len_exec(m: i64, leap: bool) -> (r: i64)
    ensures
        r == month_len(m as int, leap),
{
    if m == 2 {
        if leap {
            29
        } else {
            28
        }
    } else if m == 4 || m == 6 || m == 9 || m == 11 {
        30
    } else {
        31
    }
}

pub fn builtin_fechaactual(local_secs: i64) -> (r: i64)
    ensures
        r == date_code(local_secs as int),
{
    let days = match local_secs.checked_div_euclid(86400) {
        Some(v) => v,
        None => 0,
    };
    assert(days == local_secs as int / 86400);
    assert(-106751991167301 <= days <= 106751991167300) by (nonlinear_arith)
        requires
            days == local_secs as int / 86400,
            i64::MIN <= local_secs <= i64::MAX,
    ;
    let mut y: i64 = 1970;
    let mut remaining = days;
    loop
        invariant
            1970 <= y,
            365 * (y - 1970) <= days - remaining,
            remaining <= days,
            remaining >= 0 || remaining == days,
            -106751991167301 <= days <= 106751991167300,
            year_of(days as int, 1970) == year_of(remaining as int, y as int),
        ensures
            1970 <= y,
            365 * (y - 1970) <= days - remaining,
            remaining <= days,
            remaining >= 0 || remaining == days,
            remaining < year_len(y as int),
            year_of(days as int, 1970) == (y as int, remaining as int),
        decreases remaining,
    {
        let leap = y % 4 == 0 && (y % 100 != 0 || y % 400 == 0);
        let len: i64 = if leap {
            366
        } else {
            365
        };
        assert(len == year_len(y as int));
        if remaining < len {
            break;
        }
        remaining = remaining - len;
        y = y + 1;
    }
    let leap = y % 4 == 0 && (y % 100 != 0 || y % 400 == 0);
    assert(leap == is_leap(y as int));
    let mut m: i64 = 1;
    proof {
        lemma_month_of(remaining as int, 1, leap);
    }
    let ghost rem0 = remaining;
    while m <= 12
        invariant
            1 <= m <= 13,
            month_of(remaining as int, m as int, leap) == month_of(rem0 as int, 1, leap),
            rem0 == year_of(days as int, 1970).1,
            remaining <= rem0,
            rem0 >= 0 ==> remaining >= 0,
            rem0 < 0 ==> remaining == rem0,
            rem0 < 366,
        ensures
            month_of(rem0 as int, 1, leap) == (m as int, remaining as int),
            1 <= m <= 13,
            remaining <= rem0,
            rem0 >= 0 ==> remaining >= 0,
            rem0 < 0 ==> remaining == rem0,
        decreases 13 - m,
    {
        let len = month_len_exec(m, leap);
        if remaining < len {
            break;
        }
        assert(len >= 28);
        remaining = remaining - len;
        m = m + 1;
    }
    let d = remaining + 1;
    y * 10000 + m * 100 + d
}

// ---------------------------------------------------------------------
// Sizes
// ---------------------------------------------------------------------
/// The number of elements allocated for an array of `n` elements: at
/// least one.
pub fn array_alloc_len(n: i64) -> (r: usize)
    ensures
        r == (if n < 1 {
            1usize
        } else {
            n as usize
        }),
{
    if n < 1 {
        1
    } else {
        n as usize
    }
}

/// The length of a wait of `n` seconds or milliseconds: nothing when `n`
/// is negative.
pub fn wait_length(n: i64) -> (r: u64)
    ensures
        r == (if n < 0 {
            0u64
        } else {
            n as u64
        }),
{
    if n < 0 {
        0
    } else {
        n as u64
    }
}

} // verus!
