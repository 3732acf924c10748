//! The domain date format `M<month>-<day>-<year>`: parsing and the total
//! order used to rank posts. A string that does not parse under the format
//! (the placeholder `M001-00-0000` among them) has no key and ranks below
//! every dated post, so ordering never fails.
use crate::text::spec_split;
use crate::text::split_str;
use vstd::prelude::*;
use vstd::string::*;

verus! {

pub open spec fn is_digit_char(c: char) -> bool {
    48 <= c as int <= 57
}

pub open spec fn all_digits(s: Seq<char>) -> bool {
    forall|i: int| 0 <= i < s.len() ==> is_digit_char(s[i])
}

/// The number a digit string denotes.
pub open spec fn digits_val(s: Seq<char>) -> int
    decreases s.len(),
{
    if s.len() == 0 {
        0
    } else {
        digits_val(s.drop_last()) * 10 + (s.last() as int - 48)
    }
}

pub open spec fn is_leap_year(y: int) -> bool {
    y % 4 == 0 && (y % 100 != 0 || y % 400 == 0)
}

pub open spec fn days_in_month(y: int, m: int) -> int {
    if m == 2 {
        if is_leap_year(y) {
            29
        } else {
            28
        }
    } else if m == 4 || m == 6 || m == 9 || m == 11 {
        30
    } else {
        31
    }
}

pub open spec fn valid_date(y: int, m: int, d: int) -> bool {
    1 <= m <= 12 && 1 <= d <= days_in_month(y, m)
}

pub open spec fn month_part_ok(p: Seq<char>) -> bool {
    2 <= p.len() <= 3 && p[0] == 'M' && all_digits(p.skip(1))
}

pub open spec fn day_part_ok(p: Seq<char>) -> bool {
    1 <= p.len() <= 2 && all_digits(p)
}

pub open spec fn year_part_ok(p: Seq<char>) -> bool {
    1 <= p.len() <= 4 && all_digits(p)
}

/// The (year, month, day) a date string denotes under the domain format,
/// or `None` when it does not parse to a valid calendar date.
pub open spec fn date_of(s: Seq<char>) -> Option<(int, int, int)> {
    let parts = spec_split(s, seq!['-']);
    if parts.len() == 3 && month_part_ok(parts[0]) && day_part_ok(parts[1]) && year_part_ok(
        parts[2],
    ) {
        let m = digits_val(parts[0].skip(1));
        let d = digits_val(parts[1]);
        let y = digits_val(parts[2]);
        if valid_date(y, m, d) {
            Some((y, m, d))
        } else {
            None
        }
    } else {
        None
    }
}

spec fn pow10(i: int) -> int
    decreases i,
{
    if i <= 0 {
        1
    } else {
        10 * pow10(i - 1)
    }
}

/// The value of a digit string of at most four digits.
fn digits_value(s: &str) -> (r: Option<u32>)
    requires
        s@.len() <= 4,
    ensures
        match r {
            Some(v) => s@.len() >= 1 && all_digits(s@) && v as int == digits_val(s@),
            None => !(s@.len() >= 1 && all_digits(s@)),
        },
{
    let len = s.unicode_len();
    if len == 0 {
        return None;
    }
    let mut acc: u32 = 0;
    let mut i: usize = 0;
    proof {
        assert(s@.take(0) =~= Seq::<char>::empty());
    }
    while i < len
        invariant
            i <= len,
            len == s@.len() <= 4,
            all_digits(s@.take(i as int)),
            acc as int == digits_val(s@.take(i as int)),
            acc < pow10(i as int),
        decreases len - i,
    {
        let c = s.get_char(i);
        let v = c as u32;
        if v < 48 || v > 57 {
            return None;
        }
        proof {
            assert(s@.take(i + 1).drop_last() =~= s@.take(i as int));
            assert(s@.take(i + 1).last() == s@[i as int]);
            assert(pow10(4) == 10000 && pow10(3) == 1000 && pow10(2) == 100 && pow10(1) == 10
                && pow10(0) == 1) by {
                reveal_with_fuel(pow10, 5);
            }
        }
        acc = acc * 10 + (v - 48);
        i += 1;
    }
    proof {
        assert(s@.take(len as int) =~= s@);
    }
    Some(acc)
}

fn is_leap(y: u32) -> (b: bool)
    ensures
        b == is_leap_year(y as int),
{
    y % 4 == 0 && (y % 100 != 0 || y % 400 == 0)
}

fn days_in(y: u32, m: u32) -> (d: u32)
    requires
        1 <= m <= 12,
    ensures
        d as int == days_in_month(y as int, m as int),
{
    if m == 2 {
        if is_leap(y) {
            29
        } else {
            28
        }
    } else if m == 4 || m == 6 || m == 9 || m == 11 {
        30
    } else {
        31
    }
}

/// Parse a date string under the domain format into (year, month, day).
pub fn parse_date(s: &str) -> (r: Option<(u32, u32, u32)>)
    ensures
        match r {
            Some(t) => date_of(s@) == Some((t.0 as int, t.1 as int, t.2 as int)),
            None => date_of(s@) is None,
        },
{
    proof {
        reveal_strlit("-");
        assert("-"@ =~= seq!['-']);
    }
    let parts = split_str(s, "-");
    if parts.len() != 3 {
        return None;
    }
    let mp = parts[0].as_str();
    let mp_len = mp.unicode_len();
    if mp_len < 2 || mp_len > 3 {
        return None;
    }
    if mp.get_char(0) != 'M' {
        return None;
    }
    let month_digits = mp.substring_char(1, mp_len);
    proof {
        assert(month_digits@ =~= mp@.skip(1));
    }
    let month = match digits_value(month_digits) {
        Some(v) => v,
        None => {
            return None;
        },
    };
    let dp = parts[1].as_str();
    let dp_len = dp.unicode_len();
    if dp_len < 1 || dp_len > 2 {
        return None;
    }
    let day = match digits_value(dp) {
        Some(v) => v,
        None => {
            return None;
        },
    };
    let yp = parts[2].as_str();
    let yp_len = yp.unicode_len();
    if yp_len < 1 || yp_len > 4 {
        return None;
    }
    let year = match digits_value(yp) {
        Some(v) => v,
        None => {
            return None;
        },
    };
    if month < 1 || month > 12 {
        return None;
    }
    if day < 1 || day > days_in(year, month) {
        return None;
    }
    Some((year, month, day))
}

/// The total order on date strings: an unparseable date ranks below every
/// parseable one, parseable dates rank by (year, month, day).
pub open spec fn key_le(a: Option<(int, int, int)>, b: Option<(int, int, int)>) -> bool {
    match (a, b) {
        (Option::None, _) => true,
        (Option::Some(_), Option::None) => false,
        (Option::Some(x), Option::Some(y)) => x.0 < y.0 || (x.0 == y.0 && (x.1 < y.1 || (x.1 == y.1
            && x.2 <= y.2))),
    }
}

/// Whether date string `a` ranks at or below date string `b`.
pub fn date_le(a: &str, b: &str) -> (r: bool)
    ensures
        r == key_le(date_of(a@), date_of(b@)),
{
    let ka = parse_date(a);
    let kb = parse_date(b);
    match (ka, kb) {
        (Option::None, _) => true,
        (Option::Some(_), Option::None) => false,
        (Option::Some(x), Option::Some(y)) => x.0 < y.0 || (x.0 == y.0 && (x.1 < y.1 || (x.1 == y.1
            && x.2 <= y.2))),
    }
}

} // verus!
