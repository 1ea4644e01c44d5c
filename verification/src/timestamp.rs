//! Instants written as RFC 3339 date-times.

use vstd::prelude::*;
use vstd::string::StrSliceExecFns;

verus! {

/// The value of a decimal digit; `None` for another character.
pub open spec fn digit_value(c: char) -> Option<int> {
    if '0' as int <= c as int <= '9' as int {
        Some(c as int - '0' as int)
    } else {
        None
    }
}

/// The number that the `k` characters from position `i` write in decimal;
/// `None` where one of them is no digit or the text ends before.
pub open spec fn number_at(s: Seq<char>, i: int, k: int) -> Option<int>
    decreases k,
{
    if k <= 0 {
        Some(0)
    } else if i < 0 || i + k > s.len() {
        None
    } else {
        match (number_at(s, i, k - 1), digit_value(s[i + k - 1])) {
            (Some(n), Some(d)) => Some(n * 10 + d),
            _ => None,
        }
    }
}

/// The first position at or after `i` that holds no digit.
pub open spec fn digits_end(s: Seq<char>, i: int) -> int
    decreases s.len() - i,
{
    if 0 <= i < s.len() && digit_value(s[i]) is Some {
        digits_end(s, i + 1)
    } else {
        i
    }
}

/// Ten to the power `n`.
pub open spec fn pow10(n: int) -> int
    decreases n,
{
    if n <= 0 {
        1
    } else {
        10 * pow10(n - 1)
    }
}

/// Whether `y` is a leap year of the Gregorian calendar.
pub open spec fn is_leap(y: int) -> bool {
    y % 4 == 0 && (y % 100 != 0 || y % 400 == 0)
}

/// The number of days of month `m` of year `y`.
pub open spec fn days_in_month(y: int, m: int) -> int {
    if m == 2 {
        if is_leap(y) {
            29
        } else {
            28
        }
    } else if m == 4 || m == 6 || m == 9 || m == 11 {
        30
    } else {
        31
    }
}

/// The number of days from 1970-01-01 to the day `d` of month `m` of year
/// `y` in the proleptic Gregorian calendar. Years are counted from March in
/// eras of 400 years, each of 146097 days.
pub open spec fn days_from_civil(y: int, m: int, d: int) -> int {
    let y2 = if m <= 2 {
        y - 1
    } else {
        y
    };
    let era = y2 / 400;
    let yoe = y2 - era * 400;
    let mp = (m + 9) % 12;
    let doy = (153 * mp + 2) / 5 + d - 1;
    let doe = yoe * 365 + yoe / 4 - yoe / 100 + doy;
    era * 146097 + doe - 719468
}

/// The offset from UTC, in seconds, that the text writes at position `i`
/// and with which it ends: `Z` or `z`, or a sign, two digits of hours up to
/// 23, a colon and two digits of minutes up to 59.
pub open spec fn offset_at(s: Seq<char>, i: int) -> Option<int> {
    if i < 0 || i >= s.len() {
        None
    } else if (s[i] == 'Z' || s[i] == 'z') && s.len() == i + 1 {
        Some(0)
    } else if (s[i] == '+' || s[i] == '-') && s.len() == i + 6 && s[i + 3] == ':' {
        match (number_at(s, i + 1, 2), number_at(s, i + 4, 2)) {
            (Some(h), Some(m)) => if h <= 23 && m <= 59 {
                let seconds = h * 3600 + m * 60;
                Some(
                    if s[i] == '-' {
                        -seconds
                    } else {
                        seconds
                    },
                )
            } else {
                None
            },
            _ => None,
        }
    } else {
        None
    }
}

/// Whether the text is long enough for a date-time and holds the
/// separators of one: `YYYY-MM-DD`, then `T`, `t` or a space, then
/// `HH:MM:SS`.
pub open spec fn layout_ok(s: Seq<char>) -> bool {
    s.len() >= 20 && s[4] == '-' && s[7] == '-' && (s[10] == 'T' || s[10] == 't' || s[10] == ' ') && s[13] == ':'
        && s[16] == ':'
}

/// The position after the seconds and their fraction, if there is one.
pub open spec fn fraction_end(s: Seq<char>) -> int {
    if s[19] == '.' {
        digits_end(s, 20)
    } else {
        19
    }
}

/// The nanoseconds that the fraction of a second writes; digits after the
/// ninth do not count.
pub open spec fn fraction_nanos(s: Seq<char>) -> int {
    if s[19] == '.' {
        let shown = if digits_end(s, 20) - 20 > 9 {
            9
        } else {
            digits_end(s, 20) - 20
        };
        match number_at(s, 20, shown) {
            Some(f) => f * pow10(9 - shown),
            None => 0,
        }
    } else {
        0
    }
}

/// Whether the day exists in its month, the hour is at most 23, and minute
/// and second are at most 59.
pub open spec fn fields_ok(y: int, mo: int, d: int, h: int, mi: int, sec: int) -> bool {
    1 <= mo <= 12 && 1 <= d <= days_in_month(y, mo) && h <= 23 && mi <= 59 && sec <= 59
}

/// The nanoseconds since the Unix epoch of a local date and time at the
/// offset `off` from UTC, as far as they fit 64 bits.
pub open spec fn instant(y: int, mo: int, d: int, h: int, mi: int, sec: int, nanos: int, off: int) -> Option<
    i64,
> {
    let seconds = days_from_civil(y, mo, d) * 86400 + h * 3600 + mi * 60 + sec - off;
    let total = seconds * 1_000_000_000 + nanos;
    if i64::MIN <= total <= i64::MAX {
        Some(total as i64)
    } else {
        None
    }
}

/// The nanoseconds since the Unix epoch that an RFC 3339 date-time writes,
/// as far as they fit 64 bits; `None` for any other text.
///
/// The text is `YYYY-MM-DD`, then `T`, `t` or a space, then `HH:MM:SS`, an
/// optional fraction of a second with at least one digit, and an offset.
pub open spec fn rfc3339_nanos(s: Seq<char>) -> Option<i64> {
    if !layout_ok(s) {
        None
    } else {
        match (
            number_at(s, 0, 4),
            number_at(s, 5, 2),
            number_at(s, 8, 2),
            number_at(s, 11, 2),
            number_at(s, 14, 2),
            number_at(s, 17, 2),
        ) {
            (Some(y), Some(mo), Some(d), Some(h), Some(mi), Some(sec)) => {
                if !fields_ok(y, mo, d, h, mi, sec) || (s[19] == '.' && fraction_end(s) == 20) {
                    None
                } else {
                    match offset_at(s, fraction_end(s)) {
                        None => None,
                        Some(off) => instant(y, mo, d, h, mi, sec, fraction_nanos(s), off),
                    }
                }
            },
            _ => None,
        }
    }
}

fn digit_of(c: char) -> (res: Option<u8>)
    ensures
        res matches Some(d) ==> digit_value(c) == Some(d as int) && d <= 9,
        res is None ==> digit_value(c) is None,
{
    if c >= '0' && c <= '9' {
        Some(((c as u32) - ('0' as u32)) as u8)
    } else {
        None
    }
}

fn read_number(chars: &Vec<char>, i: usize, k: usize) -> (res: Option<u32>)
    requires
        k <= 9,
        i + k <= usize::MAX,
    ensures
        res matches Some(n) ==> number_at(chars@, i as int, k as int) == Some(n as int) && n < pow10(k as int),
        res is None ==> number_at(chars@, i as int, k as int) is None,
{
    if k == 0 {
        return Some(0);
    }
    if i + k > chars.len() {
        proof {
            lemma_number_needs_room(chars@, i as int, k as int);
        }
        return None;
    }
    let mut acc: u32 = 0;
    let mut j: usize = 0;
    proof {
        lemma_pow10_grows(0, 9);
    }
    while j < k
        invariant
            j <= k <= 9,
            i + k <= chars.len(),
            number_at(chars@, i as int, j as int) == Some(acc as int),
            acc < pow10(j as int),
            pow10(j as int) <= pow10(9),
        decreases k - j,
    {
        proof {
            lemma_pow10_grows(j as int + 1, 9);
            reveal_with_fuel(pow10, 10);
        }
        match digit_of(chars[i + j]) {
            None => {
                proof {
                    lemma_number_stops(chars@, i as int, j as int + 1, k as int);
                }
                return None;
            },
            Some(d) => {
                acc = acc * 10 + d as u32;
            },
        }
        j = j + 1;
    }
    Some(acc)
}

/// A number cannot be read past the end of the text.
proof fn lemma_number_needs_room(s: Seq<char>, i: int, k: int)
    requires
        0 <= i,
        i + k > s.len(),
        k > 0,
    ensures
        number_at(s, i, k) is None,
{
}

/// Where a shorter run of characters writes no number, a longer one from
/// the same position writes none.
proof fn lemma_number_stops(s: Seq<char>, i: int, j: int, k: int)
    requires
        0 < j <= k,
        number_at(s, i, j) is None,
    ensures
        number_at(s, i, k) is None,
    decreases k - j,
{
    if j < k {
        lemma_number_stops(s, i, j, k - 1);
    }
}

/// Powers of ten grow with the exponent.
proof fn lemma_pow10_grows(a: int, b: int)
    requires
        a <= b,
    ensures
        0 < pow10(a) <= pow10(b),
    decreases b - a,
{
    if a < b {
        lemma_pow10_grows(a, b - 1);
        if b > 0 {
            assert(pow10(b) == 10 * pow10(b - 1));
        }
    } else {
        lemma_pow10_positive(a);
    }
}

/// Powers of ten are positive.
proof fn lemma_pow10_positive(a: int)
    ensures
        0 < pow10(a),
    decreases a,
{
    if a > 0 {
        lemma_pow10_positive(a - 1);
    }
}

fn leap(y: u32) -> (res: bool)
    ensures
        res == is_leap(y as int),
{
    y % 4 == 0 && (y % 100 != 0 || y % 400 == 0)
}

fn month_days(y: u32, m: u32) -> (res: u32)
    ensures
        res == days_in_month(y as int, m as int),
{
    if m == 2 {
        if leap(y) {
            29
        } else {
            28
        }
    } else if m == 4 || m == 6 || m == 9 || m == 11 {
        30
    } else {
        31
    }
}

fn civil_days(y: u32, m: u32, d: u32) -> (res: i64)
    requires
        y <= 9999,
        1 <= m <= 12,
        1 <= d <= 31,
    ensures
        res == days_from_civil(y as int, m as int, d as int),
        -720000 <= res <= 3000000,
{
    // Shift by one era so that the year counted from March is not negative.
    let shifted: u32 = if m <= 2 {
        y + 399
    } else {
        y + 400
    };
    let era1: u32 = shifted / 400;
    let yoe: u32 = shifted % 400;
    let mp: u32 = (m + 9) % 12;
    let doy: u32 = (153 * mp + 2) / 5 + d - 1;
    let doe: u32 = yoe * 365 + yoe / 4 - yoe / 100 + doy;
    proof {
        let y2: int = if m <= 2 {
            y - 1
        } else {
            y as int
        };
        assert(shifted == y2 + 400);
        assert(y2 / 400 == era1 - 1 && y2 - (y2 / 400) * 400 == yoe) by {
            vstd::arithmetic::div_mod::lemma_fundamental_div_mod(shifted as int, 400);
            vstd::arithmetic::div_mod::lemma_fundamental_div_mod_converse(
                y2,
                400,
                era1 as int - 1,
                yoe as int,
            );
        }
    }
    (era1 as i64 - 1) * 146097 + doe as i64 - 719468
}

fn read_offset(chars: &Vec<char>, i: usize) -> (res: Option<i32>)
    ensures
        res matches Some(off) ==> offset_at(chars@, i as int) == Some(off as int) && -86400 < off < 86400,
        res is None ==> offset_at(chars@, i as int) is None,
{
    if i >= chars.len() {
        return None;
    }
    let c = chars[i];
    if (c == 'Z' || c == 'z') && chars.len() - i == 1 {
        return Some(0);
    }
    if (c == '+' || c == '-') && chars.len() - i == 6 && chars[i + 3] == ':' {
        let h = match read_number(chars, i + 1, 2) {
            None => {
                return None;
            },
            Some(h) => h,
        };
        let m = match read_number(chars, i + 4, 2) {
            None => {
                return None;
            },
            Some(m) => m,
        };
        proof {
            reveal_with_fuel(pow10, 3);
        }
        if h > 23 || m > 59 {
            return None;
        }
        let seconds: i32 = (h * 3600 + m * 60) as i32;
        return Some(
            if c == '-' {
                -seconds
            } else {
                seconds
            },
        );
    }
    None
}

fn read_fraction(chars: &Vec<char>) -> (res: (usize, u32))
    requires
        chars@.len() >= 20,
    ensures
        res.0 == fraction_end(chars@),
        res.1 == fraction_nanos(chars@),
        19 <= res.0 <= chars@.len(),
        res.1 < 1_000_000_000,
{
    if chars[19] != '.' {
        return (19, 0);
    }
    let len = chars.len();
    let mut end: usize = 20;
    while end < len && digit_of(chars[end]).is_some()
        invariant
            20 <= end <= len,
            len == chars@.len(),
            digits_end(chars@, 20) == digits_end(chars@, end as int),
        decreases len - end,
    {
        end = end + 1;
    }
    let shown: usize = if end - 20 > 9 {
        9
    } else {
        end - 20
    };
    let f = read_number(chars, 20, shown);
    let mut scale: u32 = 1;
    let mut k: usize = shown;
    proof {
        lemma_pow10_grows(0, 9 - shown);
    }
    while k < 9
        invariant
            shown <= k <= 9,
            scale == pow10(k - shown),
            scale <= pow10(9 - shown),
        decreases 9 - k,
    {
        proof {
            lemma_pow10_grows(k - shown + 1, 9 - shown);
            lemma_pow10_grows(9 - shown, 9);
            reveal_with_fuel(pow10, 10);
        }
        scale = scale * 10;
        k = k + 1;
    }
    let nanos: u32 = match f {
        Some(f) => {
            proof {
                lemma_pow10_product(shown as int, 9 - shown);
                lemma_pow10_positive(9 - shown);
                assert(f * scale < pow10(shown as int) * scale) by (nonlinear_arith)
                    requires
                        f < pow10(shown as int),
                        scale > 0,
                ;
                reveal_with_fuel(pow10, 10);
            }
            f * scale
        },
        None => 0,
    };
    (end, nanos)
}

fn to_instant(y: u32, mo: u32, d: u32, h: u32, mi: u32, sec: u32, nanos: u32, off: i32) -> (res: Option<i64>)
    requires
        y <= 9999,
        fields_ok(y as int, mo as int, d as int, h as int, mi as int, sec as int),
        nanos < 1_000_000_000,
        -86400 < off < 86400,
    ensures
        res == instant(y as int, mo as int, d as int, h as int, mi as int, sec as int, nanos as int, off as int),
{
    let seconds: i64 = civil_days(y, mo, d) * 86400 + (h as i64) * 3600 + (mi as i64) * 60 + (sec as i64) - (
    off as i64);
    let total: i128 = (seconds as i128) * 1_000_000_000 + nanos as i128;
    if total < i64::MIN as i128 || total > i64::MAX as i128 {
        None
    } else {
        Some(total as i64)
    }
}

fn to_chars(text: &str) -> (chars: Vec<char>)
    ensures
        chars@ == text@,
{
    let len = text.unicode_len();
    let mut chars: Vec<char> = Vec::new();
    let mut i: usize = 0;
    while i < len
        invariant
            len == text@.len(),
            i <= len,
            chars@ == text@.take(i as int),
        decreases len - i,
    {
        chars.push(text.get_char(i));
        proof {
            assert(text@.take(i + 1) =~= text@.take(i as int).push(text@[i as int]));
        }
        i = i + 1;
    }
    proof {
        assert(text@.take(len as int) =~= text@);
    }
    chars
}

/// Reads an RFC 3339 date-time.
pub fn parse_rfc3339(text: &str) -> (res: Option<i64>)
    ensures
        res == rfc3339_nanos(text@),
{
    let chars = to_chars(text);
    if chars.len() < 20 {
        return None;
    }
    if !(chars[4] == '-' && chars[7] == '-' && (chars[10] == 'T' || chars[10] == 't' || chars[10] == ' ')
        && chars[13] == ':' && chars[16] == ':') {
        return None;
    }
    let y = read_number(&chars, 0, 4);
    let mo = read_number(&chars, 5, 2);
    let d = read_number(&chars, 8, 2);
    let h = read_number(&chars, 11, 2);
    let mi = read_number(&chars, 14, 2);
    let sec = read_number(&chars, 17, 2);
    let (y, mo, d, h, mi, sec) = match (y, mo, d, h, mi, sec) {
        (Some(y), Some(mo), Some(d), Some(h), Some(mi), Some(sec)) => (y, mo, d, h, mi, sec),
        _ => {
            return None;
        },
    };
    proof {
        reveal_with_fuel(pow10, 5);
    }
    let (end, nanos) = read_fraction(&chars);
    if !(mo >= 1 && mo <= 12 && d >= 1 && d <= month_days(y, mo) && h <= 23 && mi <= 59 && sec <= 59) || (chars[19]
        == '.' && end == 20) {
        return None;
    }
    match read_offset(&chars, end) {
        None => None,
        Some(off) => to_instant(y, mo, d, h, mi, sec, nanos, off),
    }
}

/// Ten to the sum of two exponents is the product of the powers.
proof fn lemma_pow10_product(a: int, b: int)
    requires
        0 <= a,
        0 <= b,
    ensures
        pow10(a) * pow10(b) == pow10(a + b),
    decreases a,
{
    if a > 0 {
        lemma_pow10_product(a - 1, b);
        assert(pow10(a) == 10 * pow10(a - 1));
        assert(pow10(a + b) == 10 * pow10(a + b - 1));
        assert(10 * pow10(a - 1) * pow10(b) == 10 * (pow10(a - 1) * pow10(b))) by (nonlinear_arith);
    }
}

} // verus!
