//! Times given in a tile request: reading them with chrono, and writing the
//! two forms the service uses (`%Y-%m-%dT%H:%M:%S` and `%Y%m%dT%H%M%S`).

use vstd::prelude::*;
use chrono::{Datelike, Timelike};
use crate::numbers::{all_digits, decimal_chars, decimal_digits, digit_value, digits_value, lemma_decimal_digits};

verus! {

#[verifier::external_type_specification]
#[verifier::external_body]
pub struct ExChronoParseError(chrono::ParseError);

/// The calendar fields of an instant in UTC, as chrono reports them.
#[derive(Clone, Copy, Debug, PartialEq, Eq, Structural)]
pub struct UtcFields {
    pub year: i32,
    pub month: u32,
    pub day: u32,
    pub hour: u32,
    pub minute: u32,
    pub second: u32,
    /// Nanoseconds since the whole second; 1_000_000_000 and more mark a leap second.
    pub nanosecond: u32,
}

impl UtcFields {
    /// The ranges that chrono documents for each field.
    pub open spec fn in_range(self) -> bool {
        &&& 1 <= self.month <= 12
        &&& 1 <= self.day <= 31
        &&& self.hour <= 23
        &&& self.minute <= 59
        &&& self.second <= 59
        &&& self.nanosecond < 2_000_000_000
    }
}

/// The instant that chrono reads from a text as a `DateTime<UTC>`, if it reads one.
pub uninterp spec fn utc_reading(s: Seq<char>) -> Option<UtcFields>;

/// The text with its leading whitespace removed, as `str::trim_left` gives it.
pub uninterp spec fn leading_whitespace_trimmed(s: Seq<char>) -> Seq<char>;

/// `str::trim_left` (the trim that chrono applies before each field).
/// Claimed: the result is a function of the text, and a text that starts
/// with `+` or `-` (not whitespace) is left as it is.
#[verifier::external_body]
#[allow(deprecated)]
fn trim_leading_whitespace(s: &str) -> (res: &str)
    ensures
        res@ == leading_whitespace_trimmed(s@),
        s@.len() > 0 && (s@[0] == '+' || s@[0] == '-') ==> res@ == s@,
{
    s.trim_left()
}

/// The number that the run of digits starting at `j` denotes, read onto `acc`.
pub open spec fn run_value(s: Seq<char>, j: int, acc: nat) -> nat
    decreases s.len() - j,
{
    if 0 <= j < s.len() && digit_value(s[j]) is Some {
        run_value(s, j + 1, acc * 10 + digit_value(s[j]).unwrap())
    } else {
        acc
    }
}

/// Where the run of digits starting at `j` ends.
pub open spec fn run_end(s: Seq<char>, j: int) -> int
    decreases s.len() - j,
{
    if 0 <= j < s.len() && digit_value(s[j]) is Some {
        run_end(s, j + 1)
    } else {
        j
    }
}

/// chrono's last year (`+262143`, whose 31 December is its last day).
pub const LAST_YEAR: u64 = 262143;

/// The magnitude of chrono's first year (`-262144`, whose 1 January is its
/// first day).
pub const FIRST_YEAR_MAGNITUDE: u64 = 262144;

/// Years this far apart have the same calendar (400 Gregorian years are a
/// whole number of weeks and days).
pub const CALENDAR_CYCLE: u64 = 400;

/// Whether a time text (its leading whitespace removed) opens with a signed
/// year at one of chrono's ends: `Some(true)` for `+262143`, `Some(false)`
/// for `-262144`, leading zeros allowed.
pub open spec fn edge_year(t: Seq<char>) -> Option<bool> {
    if t.len() > 0 && t[0] == '+' && run_value(t, 1, 0) == LAST_YEAR {
        Some(true)
    } else if t.len() > 0 && t[0] == '-' && run_value(t, 1, 0) == FIRST_YEAR_MAGNITUDE {
        Some(false)
    } else {
        None
    }
}

/// The same text with its edge year moved one calendar cycle inward.
pub open spec fn cycle_shifted(t: Seq<char>, last: bool) -> Seq<char> {
    seq![t[0]] + decimal_digits(
        if last {
            (LAST_YEAR - CALENDAR_CYCLE) as nat
        } else {
            (FIRST_YEAR_MAGNITUDE - CALENDAR_CYCLE) as nat
        },
    ) + t.skip(run_end(t, 1))
}

/// Whether chrono, reading the (trimmed) time text `t`, would move past one
/// of its ends when it takes the text's offset away to reach UTC. This
/// happens only on the last day of `+262143` or the first of `-262144`, and
/// it shows in the cycle-shifted text, which chrono reads safely, as the UTC
/// year leaving the shifted edge year in the same direction.
pub open spec fn utc_conversion_overflows(t: Seq<char>) -> bool {
    match edge_year(t) {
        None => false,
        Some(last) => match utc_reading(cycle_shifted(t, last)) {
            None => false,
            Some(f) => if last {
                f.year as int == (LAST_YEAR - CALENDAR_CYCLE) as int + 1
            } else {
                f.year as int == -((FIRST_YEAR_MAGNITUDE - CALENDAR_CYCLE) as int) - 1
            },
        },
    }
}

/// `s.parse::<chrono::DateTime<chrono::UTC>>()`, handing out the calendar
/// fields of the instant read (`Datelike` and `Timelike` accessors). Claimed:
/// the outcome is a function of the text, and the fields lie in the ranges
/// that chrono documents for its accessors. Required: chrono does not move
/// past one of its ends when it converts to UTC, where it panics
/// (`NaiveDateTime + Duration overflowed`). Only a signed year field can
/// reach an end, chrono reads the year field first after trimming, and a
/// text whose year is moved by a whole calendar cycle parses the same way,
/// so `utc_conversion_overflows` of the trimmed text states that case.
#[verifier::external_body]
fn read_utc(s: &str) -> (res: Result<UtcFields, chrono::ParseError>)
    requires
        !utc_conversion_overflows(leading_whitespace_trimmed(s@)),
    ensures
        res is Ok <==> utc_reading(s@) is Some,
        res matches Ok(f) ==> utc_reading(s@) == Some(f) && f.in_range(),
{
    match s.parse::<chrono::DateTime<chrono::UTC>>() {
        Ok(dt) => Ok(UtcFields {
            year: dt.year(),
            month: dt.month(),
            day: dt.day(),
            hour: dt.hour(),
            minute: dt.minute(),
            second: dt.second(),
            nanosecond: dt.nanosecond(),
        }),
        Err(e) => Err(e),
    }
}

/// `ds` preceded by as many `0` as it takes to reach `width` characters.
pub open spec fn zero_padded(ds: Seq<char>, width: nat) -> Seq<char> {
    if ds.len() >= width {
        ds
    } else {
        Seq::new((width - ds.len()) as nat, |i: int| '0') + ds
    }
}

/// `%Y`: the year with at least four digits, and a sign outside 0..=9999.
pub open spec fn year_text(y: int) -> Seq<char> {
    if 0 <= y < 10000 {
        zero_padded(decimal_digits(y as nat), 4)
    } else if y < 0 {
        seq!['-'] + zero_padded(decimal_digits((-y) as nat), 4)
    } else {
        seq!['+'] + zero_padded(decimal_digits(y as nat), 4)
    }
}

/// `%m`, `%d`, `%H`, `%M`, `%S`: two digits.
pub open spec fn two_digits(v: nat) -> Seq<char> {
    zero_padded(decimal_digits(v), 2)
}

/// The second that `%S` shows: a leap second shows as 60.
pub open spec fn shown_second(f: UtcFields) -> nat {
    (f.second + f.nanosecond / 1_000_000_000) as nat
}

/// `%Y-%m-%dT%H:%M:%S`
pub open spec fn query_time_text(f: UtcFields) -> Seq<char> {
    year_text(f.year as int) + seq!['-'] + two_digits(f.month as nat) + seq!['-'] + two_digits(
        f.day as nat,
    ) + seq!['T'] + two_digits(f.hour as nat) + seq![':'] + two_digits(f.minute as nat)
        + seq![':'] + two_digits(shown_second(f))
}

/// `%Y%m%dT%H%M%S`
pub open spec fn directory_time_text(f: UtcFields) -> Seq<char> {
    year_text(f.year as int) + two_digits(f.month as nat) + two_digits(f.day as nat) + seq!['T']
        + two_digits(f.hour as nat) + two_digits(f.minute as nat) + two_digits(shown_second(f))
}

/// Appends the decimal text of `v`, zero-padded to `width`.
fn push_padded(v: u64, width: usize, out: &mut Vec<char>)
    ensures
        final(out)@ == old(out)@ + zero_padded(decimal_digits(v as nat), width as nat),
{
    let ds = decimal_chars(v);
    let ghost start = out@;
    let mut k: usize = ds.len();
    while k < width
        invariant
            ds.len() <= k <= width || (k == ds.len() && k >= width),
            out@ == start + Seq::new((k - ds.len()) as nat, |i: int| '0'),
        decreases width - k,
    {
        out.push('0');
        assert(start + Seq::new((k + 1 - ds.len()) as nat, |i: int| '0') =~= (start + Seq::new(
            (k - ds.len()) as nat,
            |i: int| '0',
        )).push('0'));
        k = k + 1;
    }
    let ghost zeros = out@;
    let n = ds.len();
    let mut i: usize = 0;
    while i < n
        invariant
            n == ds@.len(),
            i <= n,
            out@ == zeros + ds@.take(i as int),
        decreases n - i,
    {
        out.push(ds[i]);
        assert(ds@.take(i as int).push(ds@[i as int]) =~= ds@.take(i + 1));
        i = i + 1;
    }
    assert(ds@.take(n as int) =~= ds@);
    if ds.len() >= width {
        assert(Seq::new(0, |i: int| '0') + ds@ =~= ds@);
        assert(out@ =~= start + ds@);
    } else {
        assert(out@ =~= start + (Seq::new((width - ds@.len()) as nat, |i: int| '0') + ds@));
    }
}

/// Appends `%Y` of `y`.
fn push_year(y: i32, out: &mut Vec<char>)
    ensures
        final(out)@ == old(out)@ + year_text(y as int),
{
    if 0 <= y && y < 10000 {
        push_padded(y as u64, 4, out);
    } else if y < 0 {
        let ghost start = out@;
        out.push('-');
        let a: u64 = (-(y as i64)) as u64;
        push_padded(a, 4, out);
        assert(out@ =~= start + (seq!['-'] + zero_padded(decimal_digits(a as nat), 4)));
    } else {
        let ghost start = out@;
        out.push('+');
        push_padded(y as u64, 4, out);
        assert(out@ =~= start + (seq!['+'] + zero_padded(decimal_digits(y as nat), 4)));
    }
}

/// The two texts of a time: `%Y-%m-%dT%H:%M:%S` for the WMS request and
/// `%Y%m%dT%H%M%S` for the tile cache directory.
pub struct TimeLabels {
    pub query_time: String,
    pub directory: String,
}

/// Writes the two texts of the instant `f`.
pub fn time_labels(f: &UtcFields) -> (res: TimeLabels)
    ensures
        res.query_time@ == query_time_text(*f),
        res.directory@ == directory_time_text(*f),
{
    let sec: u64 = f.second as u64 + f.nanosecond as u64 / 1_000_000_000;
    let mut q: Vec<char> = Vec::new();
    push_year(f.year, &mut q);
    q.push('-');
    push_padded(f.month as u64, 2, &mut q);
    q.push('-');
    push_padded(f.day as u64, 2, &mut q);
    q.push('T');
    push_padded(f.hour as u64, 2, &mut q);
    q.push(':');
    push_padded(f.minute as u64, 2, &mut q);
    q.push(':');
    push_padded(sec, 2, &mut q);
    assert(q@ =~= query_time_text(*f));
    let mut d: Vec<char> = Vec::new();
    push_year(f.year, &mut d);
    push_padded(f.month as u64, 2, &mut d);
    push_padded(f.day as u64, 2, &mut d);
    d.push('T');
    push_padded(f.hour as u64, 2, &mut d);
    push_padded(f.minute as u64, 2, &mut d);
    push_padded(sec, 2, &mut d);
    assert(d@ =~= directory_time_text(*f));
    TimeLabels { query_time: crate::text::string_of(&q), directory: crate::text::string_of(&d) }
}

/// Why a time could not be used.
#[derive(Clone, Copy, Debug, PartialEq, Eq, Structural)]
pub enum TimeError {
    /// The time lies on one of chrono's end days and its offset takes it
    /// past that end in UTC.
    BeyondRange,
    /// chrono could not read the text as a date and time.
    Unreadable,
}

/// Reading on past the digits at `j` never makes the number smaller.
proof fn lemma_run_value_grows(s: Seq<char>, j: int, acc: nat)
    ensures
        run_value(s, j, acc) >= acc,
    decreases s.len() - j,
{
    if 0 <= j < s.len() && digit_value(s[j]) is Some {
        lemma_run_value_grows(s, j + 1, acc * 10 + digit_value(s[j]).unwrap());
    }
}

/// Where a run of digits ends: within the text, at a character that is no
/// digit or at the end.
proof fn lemma_run_end(s: Seq<char>, j: int)
    requires
        0 <= j <= s.len(),
    ensures
        j <= run_end(s, j) <= s.len(),
        run_end(s, j) < s.len() ==> digit_value(s[run_end(s, j)]) is None,
    decreases s.len() - j,
{
    if j < s.len() && digit_value(s[j]) is Some {
        lemma_run_end(s, j + 1);
    }
}

/// The six digits `ds`, put after a sign and before something that is no
/// digit, denote `v`.
proof fn lemma_six_digit_run(p: Seq<char>, ds: Seq<char>, v: nat)
    requires
        ds.len() == 6,
        p.len() >= 7,
        forall|i: int| 0 <= i < 6 ==> p[i + 1] == ds[i],
        p.len() > 7 ==> digit_value(p[7]) is None,
        digit_value(ds[0]) is Some,
        digit_value(ds[1]) is Some,
        digit_value(ds[2]) is Some,
        digit_value(ds[3]) is Some,
        digit_value(ds[4]) is Some,
        digit_value(ds[5]) is Some,
        v == ((((digit_value(ds[0]).unwrap() * 10 + digit_value(ds[1]).unwrap()) * 10
            + digit_value(ds[2]).unwrap()) * 10 + digit_value(ds[3]).unwrap()) * 10
            + digit_value(ds[4]).unwrap()) * 10 + digit_value(ds[5]).unwrap(),
    ensures
        run_value(p, 1, 0) == v,
{
    let d0 = digit_value(ds[0]).unwrap();
    let d1 = digit_value(ds[1]).unwrap();
    let d2 = digit_value(ds[2]).unwrap();
    let d3 = digit_value(ds[3]).unwrap();
    let d4 = digit_value(ds[4]).unwrap();
    let d5 = digit_value(ds[5]).unwrap();
    assert(p[1] == ds[0] && p[2] == ds[1] && p[3] == ds[2] && p[4] == ds[3] && p[5] == ds[4]
        && p[6] == ds[5]);
    let a1 = d0;
    let a2 = a1 * 10 + d1;
    let a3 = a2 * 10 + d2;
    let a4 = a3 * 10 + d3;
    let a5 = a4 * 10 + d4;
    let a6 = a5 * 10 + d5;
    assert(run_value(p, 7, a6) == a6);
    assert(run_value(p, 6, a5) == run_value(p, 7, a6));
    assert(run_value(p, 5, a4) == run_value(p, 6, a5));
    assert(run_value(p, 4, a3) == run_value(p, 5, a4));
    assert(run_value(p, 3, a2) == run_value(p, 4, a3));
    assert(run_value(p, 2, a1) == run_value(p, 3, a2));
    assert(run_value(p, 1, 0) == run_value(p, 2, a1));
}

/// The decimal text of the shifted last year.
proof fn lemma_shifted_last_digits()
    ensures
        decimal_digits(261743) == seq!['2', '6', '1', '7', '4', '3'],
{
    assert(decimal_digits(2) == seq!['2']);
    assert(decimal_digits(26) =~= seq!['2', '6']);
    assert(decimal_digits(261) =~= seq!['2', '6', '1']);
    assert(decimal_digits(2617) =~= seq!['2', '6', '1', '7']);
    assert(decimal_digits(26174) =~= seq!['2', '6', '1', '7', '4']);
    assert(decimal_digits(261743) =~= seq!['2', '6', '1', '7', '4', '3']);
}

/// The decimal text of the shifted first year's magnitude.
proof fn lemma_shifted_first_digits()
    ensures
        decimal_digits(261744) == seq!['2', '6', '1', '7', '4', '4'],
{
    assert(decimal_digits(2) == seq!['2']);
    assert(decimal_digits(26) =~= seq!['2', '6']);
    assert(decimal_digits(261) =~= seq!['2', '6', '1']);
    assert(decimal_digits(2617) =~= seq!['2', '6', '1', '7']);
    assert(decimal_digits(26174) =~= seq!['2', '6', '1', '7', '4']);
    assert(decimal_digits(261744) =~= seq!['2', '6', '1', '7', '4', '4']);
}

/// The cycle-shifted text opens with the same sign and a year inside
/// chrono's range, so it is no edge year itself.
proof fn lemma_shifted_is_not_edge(t: Seq<char>, last: bool)
    requires
        edge_year(t) == Some(last),
    ensures
        cycle_shifted(t, last).len() > 0,
        cycle_shifted(t, last)[0] == t[0],
        t[0] == '+' || t[0] == '-',
        edge_year(cycle_shifted(t, last)) is None,
{
    lemma_run_end(t, 1);
    let e = run_end(t, 1);
    let rest = t.skip(e);
    let y: nat = if last { 261743 } else { 261744 };
    let d = decimal_digits(y);
    if last {
        lemma_shifted_last_digits();
    } else {
        lemma_shifted_first_digits();
    }
    let p = cycle_shifted(t, last);
    assert(p =~= seq![t[0]] + d + rest);
    assert forall|i: int| 0 <= i < 6 implies p[i + 1] == d[i] by {}
    if p.len() > 7 {
        assert(p[7] == rest[0]);
        assert(rest[0] == t[e]);
    }
    lemma_six_digit_run(p, d, y);
}

/// Which edge year, if any, the (trimmed) characters `cs` open with, and
/// where its digits end.
fn find_edge_year(cs: &Vec<char>) -> (res: Option<(bool, usize)>)
    ensures
        match res {
            Some((last, end)) => edge_year(cs@) == Some(last) && end as int == run_end(cs@, 1)
                && 1 <= end <= cs@.len(),
            None => edge_year(cs@) is None,
        },
{
    let n = cs.len();
    if n == 0 || (cs[0] != '+' && cs[0] != '-') {
        return None;
    }
    let mut acc: u64 = 0;
    let mut j: usize = 1;
    loop
        invariant
            n == cs@.len(),
            1 <= j <= n,
            acc <= FIRST_YEAR_MAGNITUDE,
            run_value(cs@, j as int, acc as nat) == run_value(cs@, 1, 0),
            run_end(cs@, j as int) == run_end(cs@, 1),
        ensures
            1 <= j <= n,
            acc <= FIRST_YEAR_MAGNITUDE,
            run_value(cs@, j as int, acc as nat) == run_value(cs@, 1, 0),
            run_end(cs@, j as int) == run_end(cs@, 1),
            run_value(cs@, j as int, acc as nat) == acc,
            run_end(cs@, j as int) == j,
        decreases n - j,
    {
        if j == n {
            break;
        }
        let d = match crate::numbers::char_to_digit(cs[j]) {
            Some(d) => d,
            None => break,
        };
        assert(run_value(cs@, j as int, acc as nat) == run_value(cs@, j + 1, (acc * 10 + d) as nat));
        acc = acc * 10 + d;
        j = j + 1;
        if acc > FIRST_YEAR_MAGNITUDE {
            proof {
                lemma_run_value_grows(cs@, j as int, acc as nat);
            }
            return None;
        }
    }
    if cs[0] == '+' && acc == LAST_YEAR {
        Some((true, j))
    } else if cs[0] == '-' && acc == FIRST_YEAR_MAGNITUDE {
        Some((false, j))
    } else {
        None
    }
}

/// The cycle-shifted text of `cs`, whose edge year ends at `end`.
fn shift_edge_year(cs: &Vec<char>, last: bool, end: usize) -> (res: String)
    requires
        cs@.len() > 0,
        1 <= end <= cs@.len(),
        end as int == run_end(cs@, 1),
    ensures
        res@ == cycle_shifted(cs@, last),
{
    let mut out: Vec<char> = Vec::new();
    out.push(cs[0]);
    let year = if last {
        LAST_YEAR - CALENDAR_CYCLE
    } else {
        FIRST_YEAR_MAGNITUDE - CALENDAR_CYCLE
    };
    crate::numbers::push_decimal(year, &mut out);
    let n = cs.len();
    let ghost start = out@;
    let mut k: usize = end;
    while k < n
        invariant
            n == cs@.len(),
            end <= k <= n,
            out@ == start + cs@.subrange(end as int, k as int),
        decreases n - k,
    {
        out.push(cs[k]);
        assert(cs@.subrange(end as int, k as int).push(cs@[k as int]) =~= cs@.subrange(end as int, k + 1));
        k = k + 1;
    }
    assert(cs@.subrange(end as int, n as int) =~= cs@.skip(end as int));
    assert(seq![cs@[0]] + decimal_digits(year as nat) =~= Seq::empty().push(cs@[0]) + decimal_digits(year as nat));
    assert(out@ =~= seq![cs@[0]] + decimal_digits(year as nat) + cs@.skip(end as int));
    crate::text::string_of(&out)
}

/// Whether chrono's conversion of the text to UTC would pass one of its ends.
fn conversion_overflows(s: &str) -> (res: bool)
    ensures
        res == utc_conversion_overflows(leading_whitespace_trimmed(s@)),
{
    let t = trim_leading_whitespace(s);
    let cs = crate::text::chars_of(t);
    match find_edge_year(&cs) {
        None => false,
        Some((last, end)) => {
            let shifted = shift_edge_year(&cs, last, end);
            let probe = trim_leading_whitespace(shifted.as_str());
            proof {
                lemma_shifted_is_not_edge(cs@, last);
            }
            match read_utc(probe) {
                Err(_) => false,
                Ok(f) => if last {
                    f.year as i64 == (LAST_YEAR - CALENDAR_CYCLE) as i64 + 1
                } else {
                    f.year as i64 == -((FIRST_YEAR_MAGNITUDE - CALENDAR_CYCLE) as i64) - 1
                },
            }
        },
    }
}

/// Reads `s` as a `DateTime<UTC>` and writes its two texts; a time that
/// chrono would carry past one of its ends in UTC is refused before chrono
/// converts it.
pub fn read_time_labels(s: &str) -> (res: Result<TimeLabels, TimeError>)
    ensures
        utc_conversion_overflows(leading_whitespace_trimmed(s@)) ==> res == Err::<
            TimeLabels,
            TimeError,
        >(TimeError::BeyondRange),
        !utc_conversion_overflows(leading_whitespace_trimmed(s@)) ==> match utc_reading(s@) {
            None => res == Err::<TimeLabels, TimeError>(TimeError::Unreadable),
            Some(f) => res matches Ok(l) && l.query_time@ == query_time_text(f)
                && l.directory@ == directory_time_text(f),
        },
{
    if conversion_overflows(s) {
        return Err(TimeError::BeyondRange);
    }
    match read_utc(s) {
        Ok(f) => Ok(time_labels(&f)),
        Err(_) => Err(TimeError::Unreadable),
    }
}

/// A run of `0` denotes zero.
proof fn lemma_zeros_value(k: nat)
    ensures
        digits_value(Seq::new(k, |i: int| '0')) == 0,
        all_digits(Seq::new(k, |i: int| '0')),
    decreases k,
{
    let z = Seq::new(k, |i: int| '0');
    if k > 0 {
        lemma_zeros_value((k - 1) as nat);
        assert(z.drop_last() =~= Seq::new((k - 1) as nat, |i: int| '0'));
    }
    assert forall|i: int| 0 <= i < z.len() implies (#[trigger] digit_value(z[i])) is Some by {}
}

/// Leading zeros do not change the number that digits denote.
proof fn lemma_leading_zeros_value(k: nat, ds: Seq<char>)
    ensures
        digits_value(Seq::new(k, |i: int| '0') + ds) == digits_value(ds),
    decreases ds.len(),
{
    let z = Seq::new(k, |i: int| '0');
    if ds.len() == 0 {
        lemma_zeros_value(k);
        assert(z + ds =~= z);
    } else {
        lemma_leading_zeros_value(k, ds.drop_last());
        assert((z + ds).drop_last() =~= z + ds.drop_last());
        assert((z + ds).last() == ds.last());
    }
}

/// Zero-padded decimal text: digits only, at least `width` of them, denoting
/// the number.
pub proof fn lemma_zero_padded(n: nat, width: nat)
    ensures
        all_digits(zero_padded(decimal_digits(n), width)),
        digits_value(zero_padded(decimal_digits(n), width)) == n,
        zero_padded(decimal_digits(n), width).len() >= width,
        n < 10 && width == 2 ==> zero_padded(decimal_digits(n), width).len() == 2,
        10 <= n < 100 ==> zero_padded(decimal_digits(n), width).len() == if width > 2 { width } else { 2 },
{
    lemma_decimal_digits(n);
    let ds = decimal_digits(n);
    if ds.len() < width {
        let k = (width - ds.len()) as nat;
        let z = Seq::new(k, |i: int| '0');
        lemma_leading_zeros_value(k, ds);
        lemma_zeros_value(k);
        assert forall|i: int| 0 <= i < (z + ds).len() implies (#[trigger] digit_value((z + ds)[i])) is Some by {
            if i < k {
                assert((z + ds)[i] == z[i]);
            } else {
                assert((z + ds)[i] == ds[i - k]);
            }
        }
    }
    if 10 <= n < 100 {
        assert(decimal_digits(n / 10) == seq![crate::numbers::digit_char(n / 10)]);
    }
}

/// The two-digit texts of numbers below one hundred are two characters long
/// and tell the numbers apart.
proof fn lemma_two_digits(v: nat)
    requires
        v < 100,
    ensures
        two_digits(v).len() == 2,
        digits_value(two_digits(v)) == v,
{
    lemma_zero_padded(v, 2);
}

/// The `%Y` text of a year tells the year apart from every other.
proof fn lemma_year_text_injective(a: int, b: int)
    requires
        year_text(a) == year_text(b),
    ensures
        a == b,
{
    let ta = year_text(a);
    let tb = year_text(b);
    let na: nat = if a < 0 { (-a) as nat } else { a as nat };
    let nb: nat = if b < 0 { (-b) as nat } else { b as nat };
    lemma_zero_padded(na, 4);
    lemma_zero_padded(nb, 4);
    let pa = zero_padded(decimal_digits(na), 4);
    let pb = zero_padded(decimal_digits(nb), 4);
    assert(digit_value(pa[0]) is Some);
    assert(digit_value(pb[0]) is Some);
    let sa = 0 <= a < 10000;
    let sb = 0 <= b < 10000;
    if sa {
        assert(ta == pa);
    } else {
        assert(ta == seq![if a < 0 { '-' } else { '+' }] + pa);
        assert(ta[0] == if a < 0 { '-' } else { '+' });
        assert(ta.drop_first() =~= pa);
    }
    if sb {
        assert(tb == pb);
    } else {
        assert(tb == seq![if b < 0 { '-' } else { '+' }] + pb);
        assert(tb[0] == if b < 0 { '-' } else { '+' });
        assert(tb.drop_first() =~= pb);
    }
    assert(sa == sb);
    assert(pa == pb);
}

/// The part of `%Y%m%dT%H%M%S` after the year.
spec fn after_year_text(h: UtcFields) -> Seq<char> {
    two_digits(h.month as nat) + two_digits(h.day as nat) + seq!['T'] + two_digits(h.hour as nat)
        + two_digits(h.minute as nat) + two_digits(shown_second(h))
}

/// Two-digit fields at the same place of equal texts hold equal numbers.
proof fn lemma_same_field(t: Seq<char>, u: Seq<char>, at: int, v: nat, w: nat)
    requires
        t == u,
        v < 100,
        w < 100,
        0 <= at && at + 2 <= t.len(),
        t.subrange(at, at + 2) == two_digits(v),
        u.subrange(at, at + 2) == two_digits(w),
    ensures
        v == w,
{
    lemma_two_digits(v);
    lemma_two_digits(w);
}

/// Where each field stands after the year.
proof fn lemma_after_year_layout(h: UtcFields)
    requires
        h.in_range(),
    ensures
        after_year_text(h).len() == 11,
        after_year_text(h).subrange(0, 2) == two_digits(h.month as nat),
        after_year_text(h).subrange(2, 4) == two_digits(h.day as nat),
        after_year_text(h).subrange(5, 7) == two_digits(h.hour as nat),
        after_year_text(h).subrange(7, 9) == two_digits(h.minute as nat),
        after_year_text(h).subrange(9, 11) == two_digits(shown_second(h)),
{
    lemma_two_digits(h.month as nat);
    lemma_two_digits(h.day as nat);
    lemma_two_digits(h.hour as nat);
    lemma_two_digits(h.minute as nat);
    lemma_two_digits(shown_second(h));
    let t = after_year_text(h);
    assert(t.subrange(0, 2) =~= two_digits(h.month as nat));
    assert(t.subrange(2, 4) =~= two_digits(h.day as nat));
    assert(t.subrange(5, 7) =~= two_digits(h.hour as nat));
    assert(t.subrange(7, 9) =~= two_digits(h.minute as nat));
    assert(t.subrange(9, 11) =~= two_digits(shown_second(h)));
}

/// `%Y%m%dT%H%M%S` is the year followed by the rest.
proof fn lemma_directory_split(f: UtcFields)
    ensures
        directory_time_text(f) == year_text(f.year as int) + after_year_text(f),
{
    assert(directory_time_text(f) =~= year_text(f.year as int) + after_year_text(f));
}

/// Equal texts made of parts with equal-length tails split into equal parts.
proof fn lemma_split_equal_tails(a: Seq<char>, b: Seq<char>, c: Seq<char>, d: Seq<char>)
    requires
        a + b == c + d,
        b.len() == d.len(),
    ensures
        a == c,
        b == d,
{
    assert(a =~= (a + b).take(a.len() as int));
    assert(c =~= (c + d).take(c.len() as int));
    assert(b =~= (a + b).skip(a.len() as int));
    assert(d =~= (c + d).skip(c.len() as int));
}

/// Two instants, as chrono reports them, have the same `%Y%m%dT%H%M%S` text
/// only when they fall in the same second: same year, month, day, hour,
/// minute and shown second.
pub proof fn lemma_directory_time_text_injective(f: UtcFields, g: UtcFields)
    requires
        f.in_range(),
        g.in_range(),
        directory_time_text(f) == directory_time_text(g),
    ensures
        f.year == g.year,
        f.month == g.month,
        f.day == g.day,
        f.hour == g.hour,
        f.minute == g.minute,
        shown_second(f) == shown_second(g),
{
    lemma_after_year_layout(f);
    lemma_after_year_layout(g);
    lemma_directory_split(f);
    lemma_directory_split(g);
    let tf = after_year_text(f);
    let tg = after_year_text(g);
    lemma_split_equal_tails(year_text(f.year as int), tf, year_text(g.year as int), tg);
    lemma_year_text_injective(f.year as int, g.year as int);
    lemma_same_field(tf, tg, 0, f.month as nat, g.month as nat);
    lemma_same_field(tf, tg, 2, f.day as nat, g.day as nat);
    lemma_same_field(tf, tg, 5, f.hour as nat, g.hour as nat);
    lemma_same_field(tf, tg, 7, f.minute as nat, g.minute as nat);
    lemma_same_field(tf, tg, 9, shown_second(f), shown_second(g));
}

} // verus!
