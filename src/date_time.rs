//! Recording timestamps: the compact seven-byte form of directory records and
//! the seventeen-character ASCII form of volume descriptors.
use vstd::prelude::*;

verus! {

/// A calendar timestamp with its offset from UTC.
#[derive(Clone, Copy, Debug, PartialEq, Eq, Structural)]
pub struct Timestamp {
    pub year: i32,
    pub month: u8,
    pub day: u8,
    pub hour: u8,
    pub minute: u8,
    pub second: u8,
    pub hundredths: u8,
    /// Offset from UTC in units of 15 minutes.
    pub offset: i8,
}

pub open spec fn is_leap_year(y: int) -> bool {
    y % 4 == 0 && (y % 100 != 0 || y % 400 == 0)
}

pub open spec fn days_in_month(y: int, m: int) -> int {
    if m == 2 {
        if is_leap_year(y) { 29 } else { 28 }
    } else if m == 4 || m == 6 || m == 9 || m == 11 {
        30
    } else {
        31
    }
}

/// A day of the proleptic Gregorian calendar in the years -9999 to 9999.
pub open spec fn valid_calendar_date(y: int, m: int, d: int) -> bool {
    -9999 <= y <= 9999 && 1 <= m <= 12 && 1 <= d <= days_in_month(y, m)
}

pub open spec fn valid_clock(h: int, m: int, s: int) -> bool {
    0 <= h < 24 && 0 <= m < 60 && 0 <= s < 60
}

/// An offset from UTC of less than 26 hours either way.
pub open spec fn valid_offset_seconds(s: int) -> bool {
    -93599 <= s <= 93599
}

impl Timestamp {
    pub open spec fn is_valid(self) -> bool {
        &&& valid_calendar_date(self.year as int, self.month as int, self.day as int)
        &&& valid_clock(self.hour as int, self.minute as int, self.second as int)
        &&& self.hundredths < 100
        &&& valid_offset_seconds(self.offset * 900)
    }

    /// 1970-01-01 00:00:00 UTC.
    pub open spec fn spec_epoch() -> Timestamp {
        Timestamp {
            year: 1970,
            month: 1,
            day: 1,
            hour: 0,
            minute: 0,
            second: 0,
            hundredths: 0,
            offset: 0,
        }
    }

    /// 1970-01-01 00:00:00 UTC, which stands for a timestamp left unset.
    pub fn epoch() -> (r: Timestamp)
        ensures
            r == Timestamp::spec_epoch(),
    {
        Timestamp {
            year: 1970,
            month: 1,
            day: 1,
            hour: 0,
            minute: 0,
            second: 0,
            hundredths: 0,
            offset: 0,
        }
    }

    /// The timestamp is a real instant: its date exists, its clock and its
    /// offset are in range.
    pub fn check(&self) -> (r: bool)
        ensures
            r == self.is_valid(),
    {
        calendar_date_ok(self.year, self.month, self.day) && clock_ok(
            self.hour,
            self.minute,
            self.second,
        ) && self.hundredths < 100 && offset_ok(self.offset as i32 * 900)
    }
}

/// Relies on `time::Month::try_from` and `time::Date::from_calendar_date`:
/// a date is accepted exactly when its year is within -9999..=9999, its month
/// within 1..=12 and its day within the days of that month.
#[verifier::external_body]
fn calendar_date_ok(year: i32, month: u8, day: u8) -> (r: bool)
    ensures
        r == valid_calendar_date(year as int, month as int, day as int),
{
    match time::Month::try_from(month) {
        Ok(m) => time::Date::from_calendar_date(year, m, day).is_ok(),
        Err(_) => false,
    }
}

/// Relies on `time::Time::from_hms`: accepted exactly when the hour is below
/// 24 and the minute and second below 60.
#[verifier::external_body]
fn clock_ok(hour: u8, minute: u8, second: u8) -> (r: bool)
    ensures
        r == valid_clock(hour as int, minute as int, second as int),
{
    time::Time::from_hms(hour, minute, second).is_ok()
}

/// Relies on `time::UtcOffset::from_whole_seconds`: accepted exactly when the
/// offset is within 25:59:59 either way.
#[verifier::external_body]
fn offset_ok(seconds: i32) -> (r: bool)
    ensures
        r == valid_offset_seconds(seconds as int),
{
    time::UtcOffset::from_whole_seconds(seconds).is_ok()
}

/// A byte read as a two's-complement signed value.
pub open spec fn signed(b: u8) -> int {
    if b < 128 { b as int } else { b - 256 }
}

fn to_signed(b: u8) -> (r: i8)
    ensures
        r == signed(b),
{
    if b < 128 {
        b as i8
    } else {
        (b as i16 - 256) as i8
    }
}

/// The timestamp written in the seven bytes at `p`, unchecked.
pub open spec fn compact_fields(s: Seq<u8>, p: int) -> Timestamp {
    Timestamp {
        year: (1900 + s[p]) as i32,
        month: s[p + 1],
        day: s[p + 2],
        hour: s[p + 3],
        minute: s[p + 4],
        second: s[p + 5],
        hundredths: 0,
        offset: signed(s[p + 6]) as i8,
    }
}

pub open spec fn all_zero(s: Seq<u8>, p: int, n: int) -> bool {
    forall|i: int| p <= i < p + n ==> s[i] == 0
}

/// The compact timestamp at `p`: all zero stands for the epoch; otherwise it
/// must be valid.
pub open spec fn compact_time(s: Seq<u8>, p: int) -> Option<Timestamp> {
    if all_zero(s, p, 7) {
        Some(Timestamp::spec_epoch())
    } else if compact_fields(s, p).is_valid() {
        Some(compact_fields(s, p))
    } else {
        None
    }
}

/// Reads the seven-byte timestamp of a directory record at `pos`: years since
/// 1900, month, day, hour, minute, second, offset in quarter hours.
pub fn date_time(input: &[u8], pos: usize) -> (r: Option<Timestamp>)
    ensures
        pos + 7 <= input@.len() ==> r == compact_time(input@, pos as int),
        pos + 7 > input@.len() ==> r is None,
{
    if pos > input.len() || input.len() - pos < 7 {
        return None;
    }
    let mut zero = true;
    let mut i: usize = 0;
    while i < 7
        invariant
            pos + 7 <= input.len(),
            i <= 7,
            zero == all_zero(input@, pos as int, i as int),
        decreases 7 - i,
    {
        if input[pos + i] != 0 {
            zero = false;
        }
        i += 1;
    }
    if zero {
        return Some(Timestamp::epoch());
    }
    let t = Timestamp {
        year: 1900 + input[pos] as i32,
        month: input[pos + 1],
        day: input[pos + 2],
        hour: input[pos + 3],
        minute: input[pos + 4],
        second: input[pos + 5],
        hundredths: 0,
        offset: to_signed(input[pos + 6]),
    };
    if t.check() {
        Some(t)
    } else {
        None
    }
}

/// An ASCII decimal digit.
pub open spec fn is_digit(b: u8) -> bool {
    48 <= b <= 57
}

/// The number written by ASCII digits.
pub open spec fn decimal(s: Seq<u8>) -> nat
    decreases s.len(),
{
    if s.len() == 0 {
        0
    } else {
        decimal(s.drop_last()) * 10 + (s.last() - 48) as nat
    }
}

pub open spec fn pow10(n: nat) -> nat
    decreases n,
{
    if n == 0 {
        1
    } else {
        10 * pow10((n - 1) as nat)
    }
}

/// The field is `k` digits followed by spaces only.
pub open spec fn splits_at(s: Seq<u8>, k: int) -> bool {
    &&& 0 <= k <= s.len()
    &&& forall|i: int| 0 <= i < k ==> is_digit(#[trigger] s[i])
    &&& forall|i: int| k <= i < s.len() ==> #[trigger] s[i] == 32
}

/// The value of a numeric field: its leading digits, where only spaces
/// follow them (a field of spaces alone is zero).
pub open spec fn field_value(s: Seq<u8>) -> Option<nat> {
    if exists|k: int| splits_at(s, k) {
        Some(decimal(s.take(choose|k: int| splits_at(s, k))))
    } else {
        None
    }
}

proof fn lemma_splits_unique(s: Seq<u8>, k1: int, k2: int)
    requires
        splits_at(s, k1),
        splits_at(s, k2),
    ensures
        k1 == k2,
{
    if k1 < k2 {
        assert(s[k1] == 32 && is_digit(s[k1]));
    } else if k2 < k1 {
        assert(s[k2] == 32 && is_digit(s[k2]));
    }
}

/// Reads the `n`-character numeric field at `pos`.
fn ascii_field(input: &[u8], pos: usize, n: usize) -> (r: Option<u32>)
    requires
        pos + n <= input@.len(),
        n <= 4,
    ensures
        ({
            let f = field_value(input@.subrange(pos as int, pos + n));
            &&& r is Some <==> f is Some
            &&& r is Some ==> r->0 == f->0
            &&& r is Some ==> r->0 < pow10(n as nat)
        }),
{
    let ghost s = input@.subrange(pos as int, pos + n);
    let mut v: u32 = 0;
    let mut i: usize = 0;
    proof {
        reveal_with_fuel(pow10, 5);
    }
    assert(pow10(4) == 10000);
    proof {
        lemma_pow10_mono(n as nat, 4);
    }
    while i < n && 48 <= input[pos + i] && input[pos + i] <= 57
        invariant
            pos + n <= input.len(),
            n <= 4,
            s == input@.subrange(pos as int, pos + n),
            i <= n,
            forall|j: int| 0 <= j < i ==> is_digit(#[trigger] s[j]),
            v == decimal(s.take(i as int)),
            v < pow10(i as nat),
            pow10(i as nat) <= pow10(n as nat),
            pow10(n as nat) <= 10000,
        decreases n - i,
    {
        let d = input[pos + i] - 48;
        assert(s.take(i + 1).drop_last() =~= s.take(i as int));
        assert(pow10((i + 1) as nat) == 10 * pow10(i as nat));
        proof {
            lemma_pow10_mono((i + 1) as nat, n as nat);
        }
        v = v * 10 + d as u32;
        i += 1;
    }
    let k = i;
    while i < n
        invariant
            pos + n <= input.len(),
            s == input@.subrange(pos as int, pos + n),
            k <= i <= n,
            s.len() == n,
            forall|j: int| 0 <= j < k ==> is_digit(#[trigger] s[j]),
            k == n || !is_digit(s[k as int]),
            forall|j: int| k <= j < i ==> #[trigger] s[j] == 32,
        decreases n - i,
    {
        if input[pos + i] != 32 {
            proof {
                if exists|k2: int| splits_at(s, k2) {
                    let k2 = choose|k2: int| splits_at(s, k2);
                    if k2 < k {
                        assert(is_digit(s[k2]) && s[k2] == 32);
                    } else if k2 > k {
                        assert(is_digit(s[k as int]));
                        assert(false);
                    } else {
                        assert(s[i as int] == 32);
                    }
                }
            }
            return None;
        }
        i += 1;
    }
    assert(splits_at(s, k as int));
    proof {
        let c = choose|k2: int| splits_at(s, k2);
        lemma_splits_unique(s, c, k as int);
    }
    Some(v)
}

proof fn lemma_pow10_mono(a: nat, b: nat)
    requires
        a <= b,
    ensures
        pow10(a) <= pow10(b),
    decreases b - a,
{
    if a < b {
        lemma_pow10_mono(a, (b - 1) as nat);
    }
}

/// The numeric field of `n` characters at `p + o`.
pub open spec fn field_at(s: Seq<u8>, p: int, o: int, n: int) -> Option<nat> {
    field_value(s.subrange(p + o, p + o + n))
}

/// The seventeen-character timestamp at `p`, field by field, unchecked.
pub open spec fn ascii_fields(s: Seq<u8>, p: int) -> Option<Timestamp> {
    if field_at(s, p, 0, 4) is Some && field_at(s, p, 4, 2) is Some && field_at(s, p, 6, 2) is Some
        && field_at(s, p, 8, 2) is Some && field_at(s, p, 10, 2) is Some && field_at(
        s,
        p,
        12,
        2,
    ) is Some && field_at(s, p, 14, 2) is Some {
        Some(
            Timestamp {
                year: field_at(s, p, 0, 4)->0 as i32,
                month: field_at(s, p, 4, 2)->0 as u8,
                day: field_at(s, p, 6, 2)->0 as u8,
                hour: field_at(s, p, 8, 2)->0 as u8,
                minute: field_at(s, p, 10, 2)->0 as u8,
                second: field_at(s, p, 12, 2)->0 as u8,
                hundredths: field_at(s, p, 14, 2)->0 as u8,
                offset: signed(s[p + 16]) as i8,
            },
        )
    } else {
        None
    }
}

/// A timestamp that is zero in every field: the form of one left unset.
pub open spec fn is_unset(t: Timestamp) -> bool {
    t.year == 0 && t.month == 0 && t.day == 0 && t.hour == 0 && t.minute == 0 && t.second == 0
        && t.hundredths == 0 && t.offset == 0
}

/// The ASCII timestamp at `p`: an unset one stands for the epoch; otherwise
/// it must be valid.
pub open spec fn ascii_time(s: Seq<u8>, p: int) -> Option<Timestamp> {
    match ascii_fields(s, p) {
        None => None,
        Some(t) => if is_unset(t) {
            Some(Timestamp::spec_epoch())
        } else if t.is_valid() {
            Some(t)
        } else {
            None
        },
    }
}

/// Reads the seventeen-character timestamp of a volume descriptor at `pos`:
/// year (4 digits), month, day, hour, minute, second, hundredths (2 digits
/// each), then the offset from UTC in quarter hours as a signed byte.
pub fn date_time_ascii(input: &[u8], pos: usize) -> (r: Option<Timestamp>)
    ensures
        pos + 17 <= input@.len() ==> r == ascii_time(input@, pos as int),
        pos + 17 > input@.len() ==> r is None,
{
    if pos > input.len() || input.len() - pos < 17 {
        return None;
    }
    let year = match ascii_field(input, pos, 4) {
        Some(v) => v,
        None => return None,
    };
    let month = match ascii_field(input, pos + 4, 2) {
        Some(v) => v,
        None => return None,
    };
    let day = match ascii_field(input, pos + 6, 2) {
        Some(v) => v,
        None => return None,
    };
    let hour = match ascii_field(input, pos + 8, 2) {
        Some(v) => v,
        None => return None,
    };
    let minute = match ascii_field(input, pos + 10, 2) {
        Some(v) => v,
        None => return None,
    };
    let second = match ascii_field(input, pos + 12, 2) {
        Some(v) => v,
        None => return None,
    };
    let hundredths = match ascii_field(input, pos + 14, 2) {
        Some(v) => v,
        None => return None,
    };
    proof {
        reveal_with_fuel(pow10, 5);
    }
    let t = Timestamp {
        year: year as i32,
        month: month as u8,
        day: day as u8,
        hour: hour as u8,
        minute: minute as u8,
        second: second as u8,
        hundredths: hundredths as u8,
        offset: to_signed(input[pos + 16]),
    };
    assert(ascii_fields(input@, pos as int) == Some(t));
    if t.year == 0 && t.month == 0 && t.day == 0 && t.hour == 0 && t.minute == 0 && t.second == 0
        && t.hundredths == 0 && t.offset == 0 {
        Some(Timestamp::epoch())
    } else if t.check() {
        Some(t)
    } else {
        None
    }
}

} // verus!
