//! Calendar-date helpers.
//!
//! Dates travel through the library as fixed-width `YYYY/MM/DD` strings;
//! on that form lexicographic order coincides with calendar order.
//! Internally, relative offsets are computed on day numbers in the
//! proleptic Gregorian calendar (January 1 of year 1 is day 1), and
//! chrono converts between day numbers and rendered dates.

use vstd::prelude::*;

use crate::chars::{chars_of, is_space, is_space_char, string_from_chars};

verus! {

/// Smallest day number the date renderer accepts: January 1 of year 1.
pub const DAY_MIN: i64 = 1;

/// Largest day number the date renderer accepts: December 31 of year
/// 9999, the last date whose year renders as exactly four digits.
pub const DAY_MAX: i64 = 3652059;

pub open spec fn is_digit(c: char) -> bool {
    0x30 <= (c as u32) && (c as u32) <= 0x39
}

pub open spec fn digit_val(c: char) -> int {
    (c as u32) - 0x30
}

pub fn digit(c: char) -> (r: bool)
    ensures
        r == is_digit(c),
{
    let u = c as u32;
    0x30 <= u && u <= 0x39
}

pub open spec fn all_digits(s: Seq<char>) -> bool {
    forall|i: int| 0 <= i < s.len() ==> is_digit(#[trigger] s[i])
}

/// The integer a sequence of decimal digits denotes.
pub open spec fn digits_val(s: Seq<char>) -> int
    decreases s.len(),
{
    if s.len() == 0 {
        0
    } else {
        digits_val(s.drop_last()) * 10 + digit_val(s.last())
    }
}

pub proof fn lemma_digits_val_nonneg(s: Seq<char>)
    requires
        all_digits(s),
    ensures
        digits_val(s) >= 0,
    decreases s.len(),
{
    if s.len() > 0 {
        assert(all_digits(s.drop_last()));
        lemma_digits_val_nonneg(s.drop_last());
    }
}

/// Extending a digit string can only increase its value.
pub proof fn lemma_digits_val_prefix(s: Seq<char>, k: int)
    requires
        all_digits(s),
        0 <= k <= s.len(),
    ensures
        digits_val(s) >= digits_val(s.subrange(0, k)),
    decreases s.len() - k,
{
    if k < s.len() {
        lemma_digits_val_prefix(s, k + 1);
        let p = s.subrange(0, k + 1);
        assert(p.drop_last() =~= s.subrange(0, k));
        assert(all_digits(s.subrange(0, k)));
        lemma_digits_val_nonneg(s.subrange(0, k));
        assert(is_digit(s[k]));
        assert(digits_val(p) == digits_val(s.subrange(0, k)) * 10 + digit_val(s[k]));
        assert(digits_val(s.subrange(0, k)) * 10 >= digits_val(s.subrange(0, k))) by (nonlinear_arith)
            requires
                digits_val(s.subrange(0, k)) >= 0,
        ;
    } else {
        assert(s.subrange(0, k) =~= s);
    }
}

/// The month field of a 10-character date string.
pub open spec fn date_month(s: Seq<char>) -> int {
    digit_val(s[5]) * 10 + digit_val(s[6])
}

/// The day-of-month field of a 10-character date string.
pub open spec fn date_day(s: Seq<char>) -> int {
    digit_val(s[8]) * 10 + digit_val(s[9])
}

/// A date string is valid when it splits into three `/`-separated
/// all-digit parts of lengths 4, 2 and 2, with month 1..=12 and
/// day-of-month 1..=31.  No further calendar validity is required.
pub open spec fn valid_date(s: Seq<char>) -> bool {
    &&& s.len() == 10
    &&& s[4] == '/'
    &&& s[7] == '/'
    &&& is_digit(s[0])
    &&& is_digit(s[1])
    &&& is_digit(s[2])
    &&& is_digit(s[3])
    &&& is_digit(s[5])
    &&& is_digit(s[6])
    &&& is_digit(s[8])
    &&& is_digit(s[9])
    &&& 1 <= date_month(s) <= 12
    &&& 1 <= date_day(s) <= 31
}

pub fn valid_date_chars(v: &Vec<char>) -> (r: bool)
    ensures
        r == valid_date(v@),
{
    if v.len() != 10 {
        return false;
    }
    if v[4] != '/' || v[7] != '/' {
        return false;
    }
    if !(digit(v[0]) && digit(v[1]) && digit(v[2]) && digit(v[3]) && digit(v[5]) && digit(v[6])
        && digit(v[8]) && digit(v[9])) {
        return false;
    }
    let month = (v[5] as u32 - 0x30) * 10 + (v[6] as u32 - 0x30);
    let day = (v[8] as u32 - 0x30) * 10 + (v[9] as u32 - 0x30);
    1 <= month && month <= 12 && 1 <= day && day <= 31
}

/// Whether a string is a well-formed `YYYY/MM/DD` date.
pub fn validate(s: &str) -> (r: bool)
    ensures
        r == valid_date(s@),
{
    let v = chars_of(s);
    valid_date_chars(&v)
}

/// The input with leading Unicode white space removed.
pub open spec fn trim_start_spec(s: Seq<char>) -> Seq<char>
    decreases s.len(),
{
    if s.len() > 0 && is_space_char(s[0]) {
        trim_start_spec(s.drop_first())
    } else {
        s
    }
}

/// The input with trailing Unicode white space removed.
pub open spec fn trim_end_spec(s: Seq<char>) -> Seq<char>
    decreases s.len(),
{
    if s.len() > 0 && is_space_char(s.last()) {
        trim_end_spec(s.drop_last())
    } else {
        s
    }
}

/// The input with surrounding Unicode white space removed, as
/// `str::trim` leaves it.
pub open spec fn trim_spec(s: Seq<char>) -> Seq<char> {
    trim_end_spec(trim_start_spec(s))
}

/// The characters of `v` with surrounding white space removed.
pub fn trim_chars(v: &Vec<char>) -> (r: Vec<char>)
    ensures
        r@ == trim_spec(v@),
{
    let mut lo: usize = 0;
    proof {
        assert(v@.skip(0) =~= v@);
    }
    while lo < v.len() && is_space(v[lo])
        invariant
            0 <= lo <= v.len(),
            trim_start_spec(v@) == trim_start_spec(v@.skip(lo as int)),
        decreases v.len() - lo,
    {
        proof {
            assert(v@.skip(lo as int)[0] == v@[lo as int]);
            assert(v@.skip(lo as int).drop_first() =~= v@.skip(lo + 1 as int));
        }
        lo += 1;
    }
    proof {
        if lo < v.len() {
            assert(v@.skip(lo as int)[0] == v@[lo as int]);
        }
        assert(trim_start_spec(v@) == v@.skip(lo as int));
    }
    let mut hi: usize = v.len();
    while hi > lo && is_space(v[hi - 1])
        invariant
            lo <= hi <= v.len(),
            trim_start_spec(v@) == v@.skip(lo as int),
            trim_end_spec(v@.skip(lo as int)) == trim_end_spec(v@.subrange(lo as int, hi as int)),
        decreases hi,
    {
        proof {
            let cur = v@.subrange(lo as int, hi as int);
            assert(cur.last() == v@[hi - 1 as int]);
            assert(cur.drop_last() =~= v@.subrange(lo as int, hi - 1 as int));
        }
        hi -= 1;
    }
    proof {
        let cur = v@.subrange(lo as int, hi as int);
        if hi > lo {
            assert(cur.last() == v@[hi - 1 as int]);
        }
        assert(trim_end_spec(v@.skip(lo as int)) == cur);
    }
    let mut r: Vec<char> = Vec::new();
    let mut i: usize = lo;
    while i < hi
        invariant
            lo <= i <= hi <= v.len(),
            r@ =~= v@.subrange(lo as int, i as int),
        decreases hi - i,
    {
        r.push(v[i]);
        i += 1;
    }
    proof {
        assert(r@ =~= trim_spec(v@));
    }
    r
}

pub open spec fn is_unit_char(c: char) -> bool {
    c == 'd' || c == 'w' || c == 'm' || c == 'y'
}

/// What `parse_age_token` returns: the token, trimmed, must be
/// `+<digits><unit>` with at least one digit, a unit in `{d,w,m,y}`,
/// and a digit value that is positive and representable.
pub open spec fn age_token_spec(s: Seq<char>) -> Option<(i64, char)> {
    let t = trim_spec(s);
    if t.len() >= 3 && t[0] == '+' && is_unit_char(t.last()) && all_digits(
        t.subrange(1, t.len() - 1),
    ) && 0 < digits_val(t.subrange(1, t.len() - 1)) <= i64::MAX {
        Some((digits_val(t.subrange(1, t.len() - 1)) as i64, t.last()))
    } else {
        None
    }
}

/// Parses a relative age token such as `+3d`, `+2w`, `+1m`, `+1y`.
pub fn parse_age_token(token: &str) -> (r: Option<(i64, char)>)
    ensures
        r == age_token_spec(token@),
{
    let v = chars_of(token);
    let t = trim_chars(&v);
    if t.len() < 3 {
        return None;
    }
    if t[0] != '+' {
        return None;
    }
    let unit = t[t.len() - 1];
    if !(unit == 'd' || unit == 'w' || unit == 'm' || unit == 'y') {
        return None;
    }
    let ghost d = t@.subrange(1, t@.len() - 1);
    let mut acc: i64 = 0;
    let mut i: usize = 1;
    proof {
        assert(d.subrange(0, 0) =~= Seq::<char>::empty());
    }
    while i < t.len() - 1
        invariant
            1 <= i <= t.len() - 1,
            t.len() >= 3,
            t@ == trim_spec(token@),
            t@[0] == '+',
            is_unit_char(t@[t@.len() - 1]),
            d == t@.subrange(1, t@.len() - 1),
            all_digits(d.subrange(0, i - 1)),
            0 <= acc <= i64::MAX,
            acc == digits_val(d.subrange(0, i - 1)),
        decreases t.len() - i,
    {
        let c = t[i];
        proof {
            assert(d[i - 1] == t@[i as int]);
        }
        if !digit(c) {
            proof {
                assert(!is_digit(d[i - 1]));
                assert(!all_digits(d));
            }
            return None;
        }
        let dv = (c as u32 - 0x30) as i64;
        if acc > (i64::MAX - dv) / 10 {
            proof {
                let pre = d.subrange(0, i - 1);
                let ext = d.subrange(0, i as int);
                assert(ext.drop_last() =~= pre);
                assert(ext.last() == d[i - 1]);
                assert(digits_val(ext) == acc * 10 + dv);
                vstd::arithmetic::div_mod::lemma_fundamental_div_mod(i64::MAX - dv, 10);
                assert(acc * 10 + dv > i64::MAX) by (nonlinear_arith)
                    requires
                        acc > (i64::MAX - dv) / 10,
                        i64::MAX - dv == 10 * ((i64::MAX - dv) / 10) + (i64::MAX - dv) % 10,
                        0 <= (i64::MAX - dv) % 10 < 10,
                ;
                if all_digits(d) {
                    lemma_digits_val_prefix(d, i as int);
                    assert(digits_val(d) > i64::MAX);
                }
            }
            return None;
        }
        proof {
            vstd::arithmetic::div_mod::lemma_fundamental_div_mod(i64::MAX - dv, 10);
            assert(acc * 10 + dv <= i64::MAX) by (nonlinear_arith)
                requires
                    0 <= acc <= (i64::MAX - dv) / 10,
                    0 <= dv,
                    i64::MAX - dv == 10 * ((i64::MAX - dv) / 10) + (i64::MAX - dv) % 10,
                    0 <= (i64::MAX - dv) % 10 < 10,
            ;
            let pre = d.subrange(0, i - 1);
            let ext = d.subrange(0, i as int);
            assert(ext.drop_last() =~= pre);
            assert(ext.last() == d[i - 1]);
        }
        acc = acc * 10 + dv;
        i += 1;
    }
    proof {
        assert(d.subrange(0, i - 1) =~= d);
    }
    if acc <= 0 {
        return None;
    }
    Some((acc, unit))
}

/// Days per age unit: `d`ays, `w`eeks, `m`onths as 30 days, `y`ears as
/// 365 days.  Month and year are fixed-length approximations.
pub open spec fn unit_days_spec(u: char) -> int {
    if u == 'd' {
        1
    } else if u == 'w' {
        7
    } else if u == 'm' {
        30
    } else {
        365
    }
}

pub fn unit_days(u: char) -> (n: i64)
    ensures
        n == unit_days_spec(u),
{
    if u == 'd' {
        1
    } else if u == 'w' {
        7
    } else if u == 'm' {
        30
    } else {
        365
    }
}

/// Clamps a day number into the renderable range.
pub open spec fn clamp_day(d: int) -> int {
    if d < DAY_MIN as int {
        DAY_MIN as int
    } else if d > DAY_MAX as int {
        DAY_MAX as int
    } else {
        d
    }
}

/// The day number `value` units before `today`, clamped into the
/// renderable range.
pub open spec fn cutoff_day_spec(today: int, value: int, unit: char) -> int {
    clamp_day(today - value * unit_days_spec(unit))
}

/// The day number `value` units after `today`, clamped into the
/// renderable range.
pub open spec fn future_day_spec(today: int, value: int, unit: char) -> int {
    clamp_day(today + value * unit_days_spec(unit))
}

pub fn cutoff_day(today: i64, value: i64, unit: char) -> (r: i64)
    requires
        DAY_MIN <= today <= DAY_MAX,
        value >= 1,
    ensures
        r == cutoff_day_spec(today as int, value as int, unit),
        DAY_MIN <= r <= DAY_MAX,
{
    let ud = unit_days(unit);
    let lim = (today - DAY_MIN) / ud;
    proof {
        vstd::arithmetic::div_mod::lemma_fundamental_div_mod(today - DAY_MIN, ud as int);
        assert((value > lim ==> value * ud > today - DAY_MIN) && (value <= lim ==> value * ud
            <= today - DAY_MIN)) by (nonlinear_arith)
            requires
                1 <= ud,
                value >= 1,
                lim == (today - DAY_MIN) / (ud as int),
                today - DAY_MIN >= 0,
                today - DAY_MIN == (ud as int) * ((today - DAY_MIN) / (ud as int)) + (today
                    - DAY_MIN) % (ud as int),
                0 <= (today - DAY_MIN) % (ud as int) < ud,
        ;
    }
    if value > lim {
        DAY_MIN
    } else {
        proof {
            assert(value * ud >= ud >= 1) by (nonlinear_arith)
                requires
                    value >= 1,
                    ud >= 1,
            ;
        }
        today - value * ud
    }
}

pub fn future_day(today: i64, value: i64, unit: char) -> (r: i64)
    requires
        DAY_MIN <= today <= DAY_MAX,
        value >= 1,
    ensures
        r == future_day_spec(today as int, value as int, unit),
        DAY_MIN <= r <= DAY_MAX,
{
    let ud = unit_days(unit);
    let lim = (DAY_MAX - today) / ud;
    proof {
        vstd::arithmetic::div_mod::lemma_fundamental_div_mod(DAY_MAX - today, ud as int);
        assert((value > lim ==> value * ud > DAY_MAX - today) && (value <= lim ==> value * ud
            <= DAY_MAX - today)) by (nonlinear_arith)
            requires
                1 <= ud,
                value >= 1,
                lim == (DAY_MAX - today) / (ud as int),
                DAY_MAX - today >= 0,
                DAY_MAX - today == (ud as int) * ((DAY_MAX - today) / (ud as int)) + (DAY_MAX
                    - today) % (ud as int),
                0 <= (DAY_MAX - today) % (ud as int) < ud,
        ;
    }
    if value > lim {
        DAY_MAX
    } else {
        proof {
            assert(value * ud >= ud >= 1) by (nonlinear_arith)
                requires
                    value >= 1,
                    ud >= 1,
            ;
        }
        today + value * ud
    }
}

/// Going back by a relative offset and forward by the same offset from
/// the same instant returns to the starting day, whenever the cutoff
/// does not fall below the renderable range.
pub proof fn lemma_cutoff_future_inverse(today: int, value: int, unit: char)
    requires
        DAY_MIN <= today <= DAY_MAX,
        value >= 1,
        DAY_MIN <= today - value * unit_days_spec(unit),
    ensures
        future_day_spec(cutoff_day_spec(today, value, unit), value, unit) == today,
{
    assert(value * unit_days_spec(unit) >= 1) by (nonlinear_arith)
        requires
            value >= 1,
            unit_days_spec(unit) >= 1,
    ;
}

/// The `YYYY/MM/DD` rendering of a day number; what chrono's
/// `%Y/%m/%d` format produces, a function of the day number alone.
pub uninterp spec fn date_string_of(day: int) -> Seq<char>;

/// Relies on chrono's `Local::now` and `Datelike::num_days_from_ce`:
/// the current local calendar date as its day number (January 1 of year
/// 1 is day 1).  Every representable `NaiveDate` lies strictly within
/// ±100,000,000 days.
#[verifier::external_body]
pub fn today_day_number() -> (d: i64)
    ensures
        -100_000_000 < d < 100_000_000,
{
    chrono::Datelike::num_days_from_ce(&chrono::Local::now().date_naive()) as i64
}

/// Relies on chrono's `NaiveDate::from_num_days_from_ce_opt` and its
/// `%Y/%m/%d` format: within years 1 through 9999 the result is the
/// zero-padded 10-character `YYYY/MM/DD` date of that day number, a
/// function of the day number alone.
#[verifier::external_body]
pub fn render_day(day: i64) -> (s: String)
    requires
        DAY_MIN <= day <= DAY_MAX,
    ensures
        s@ == date_string_of(day as int),
        valid_date(s@),
{
    let d = chrono::NaiveDate::from_num_days_from_ce_opt(day as i32).unwrap();
    d.format("%Y/%m/%d").to_string()
}

/// Today's day number, clamped into the renderable range.
pub fn today_day() -> (d: i64)
    ensures
        DAY_MIN <= d <= DAY_MAX,
{
    let t = today_day_number();
    if t < DAY_MIN {
        DAY_MIN
    } else if t > DAY_MAX {
        DAY_MAX
    } else {
        t
    }
}

/// Today's local calendar date rendered as `YYYY/MM/DD`.
pub fn format_today() -> (s: String)
    ensures
        valid_date(s@),
{
    render_day(today_day())
}

/// The date `value` units before today.
pub fn cutoff(value: i64, unit: char) -> (s: String)
    requires
        value >= 1,
    ensures
        valid_date(s@),
{
    let t = today_day();
    render_day(cutoff_day(t, value, unit))
}

/// The date `value` units after today.
pub fn future(value: i64, unit: char) -> (s: String)
    requires
        value >= 1,
    ensures
        valid_date(s@),
{
    let t = today_day();
    render_day(future_day(t, value, unit))
}

/// `-` separators rewritten to `/`.
pub open spec fn normalize_dashes(s: Seq<char>) -> Seq<char> {
    s.map_values(|c: char| if c == '-' { '/' } else { c })
}

/// What `parse_due_input` returns: a token starting with `+` resolves
/// as a relative future date from `today`; anything else must be an
/// absolute date, with `-` separators accepted.
pub open spec fn due_input_spec(s: Seq<char>, today: int) -> Option<Seq<char>> {
    if s.len() > 0 && s[0] == '+' {
        match age_token_spec(s) {
            Some((v, u)) => Some(date_string_of(future_day_spec(today, v as int, u))),
            None => None,
        }
    } else {
        let n = normalize_dashes(s);
        if valid_date(n) {
            Some(n)
        } else {
            None
        }
    }
}

/// Parses a due-date entry: either a relative token such as `+2w`,
/// resolved against `today`, or an absolute `YYYY/MM/DD` (or
/// `YYYY-MM-DD`) date.
pub fn parse_due_input(token: &str, today: i64) -> (r: Option<String>)
    requires
        DAY_MIN <= today <= DAY_MAX,
    ensures
        r.deep_view() == due_input_spec(token@, today as int),
{
    let v = chars_of(token);
    if v.len() > 0 && v[0] == '+' {
        match parse_age_token(token) {
            Some((value, unit)) => {
                let day = future_day(today, value, unit);
                Some(render_day(day))
            },
            None => None,
        }
    } else {
        let mut n: Vec<char> = Vec::new();
        for i in 0..v.len()
            invariant
                n@ =~= normalize_dashes(v@).subrange(0, i as int),
        {
            let c = v[i];
            if c == '-' {
                n.push('/');
            } else {
                n.push(c);
            }
            proof {
                assert(n@ =~= normalize_dashes(v@).subrange(0, i + 1 as int));
            }
        }
        proof {
            assert(n@ =~= normalize_dashes(v@));
        }
        if valid_date_chars(&n) {
            Some(string_from_chars(&n))
        } else {
            None
        }
    }
}

} // verus!
