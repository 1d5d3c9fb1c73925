//! The grammar of a round file's name, `YYYY-MM-DD HH-MM-SS-ingame.<ext>`,
//! and the point in time that such a name denotes.
use chrono::TimeZone;
use vstd::prelude::*;

verus! {

/// Rounds are stamped in a fixed zone five hours west of UTC.
pub const UTC_OFFSET_WEST_SECONDS: i32 = 18000;

/// The calendar date and time of day written in a round file's name.
#[derive(Clone, Copy, Debug, PartialEq, Eq, Structural)]
pub struct RoundTime {
    pub year: i32,
    pub month: u32,
    pub day: u32,
    pub hour: u32,
    pub minute: u32,
    pub second: u32,
}

/// Why a file name does not denote a round timestamp.
#[derive(Clone, Copy, Debug, PartialEq, Eq, Structural)]
pub enum TimestampFormatError {
    /// The base name is not of the shape `DDDD-DD-DD DD-DD-DD-ingame`.
    MissingToken,
    /// The shape is right, but the fields name no date or time of day.
    InvalidDateTime,
}

pub open spec fn is_leap_year(y: int) -> bool {
    y % 4 == 0 && (y % 100 != 0 || y % 400 == 0)
}

pub open spec fn days_in_month(y: int, m: int) -> int {
    if m == 2 {
        if is_leap_year(y) { 29 } else { 28 }
    } else if m == 4 || m == 6 || m == 9 || m == 11 {
        30
    } else {
        31
    }
}

impl RoundTime {
    /// The fields name a real calendar date and a time of day without leap second.
    pub open spec fn is_valid(self) -> bool {
        &&& 1 <= self.month <= 12
        &&& 1 <= self.day <= days_in_month(self.year as int, self.month as int)
        &&& self.hour <= 23
        &&& self.minute <= 59
        &&& self.second <= 59
    }
}

/// Seconds since the Unix epoch of a local date and time in a zone that lies
/// `west` seconds west of UTC.
pub uninterp spec fn epoch_seconds_of(
    year: int,
    month: int,
    day: int,
    hour: int,
    minute: int,
    second: int,
    west: int,
) -> int;

pub open spec fn is_digit(b: u8) -> bool {
    48 <= b <= 57
}

pub open spec fn digit(b: u8) -> int {
    b as int - 48
}

pub open spec fn num2(s: Seq<u8>, i: int) -> int {
    10 * digit(s[i]) + digit(s[i + 1])
}

pub open spec fn num4(s: Seq<u8>, i: int) -> int {
    100 * num2(s, i) + num2(s, i + 2)
}

/// Index of the last `.` among the first `n` bytes, or -1.
pub open spec fn last_dot_before(s: Seq<u8>, n: int) -> int
    decreases n,
{
    if n <= 0 {
        -1
    } else if s[n - 1] == 46u8 {
        n - 1
    } else {
        last_dot_before(s, n - 1)
    }
}

/// Length of the base name: the name without its last extension. A leading
/// dot starts no extension.
pub open spec fn stem_len(s: Seq<u8>) -> int {
    let d = last_dot_before(s, s.len() as int);
    if d > 0 { d } else { s.len() as int }
}

/// The fixed bytes of `DDDD-DD-DD DD-DD-DD-ingame`; digits stand where this is 0.
pub open spec fn pattern() -> Seq<u8> {
    seq![0u8, 0, 0, 0, 45, 0, 0, 45, 0, 0, 32, 0, 0, 45, 0, 0, 45, 0, 0, 45, 105, 110, 103, 97, 109, 101]
}

pub open spec fn fits_pattern(s: Seq<u8>) -> bool {
    &&& stem_len(s) == pattern().len()
    &&& forall|i: int| 0 <= i < pattern().len() ==>
        if pattern()[i] == 0 { is_digit(#[trigger] s[i]) } else { s[i] == pattern()[i] }
}

/// The fields that a name of the right shape writes.
pub open spec fn fields_of(s: Seq<u8>) -> RoundTime {
    RoundTime {
        year: num4(s, 0) as i32,
        month: num2(s, 5) as u32,
        day: num2(s, 8) as u32,
        hour: num2(s, 11) as u32,
        minute: num2(s, 14) as u32,
        second: num2(s, 17) as u32,
    }
}

fn digit_at(s: &[u8], i: usize) -> (r: u32)
    requires
        i < s@.len(),
        is_digit(s@[i as int]),
    ensures
        r == digit(s@[i as int]),
{
    (s[i] - 48u8) as u32
}

fn num2_at(s: &[u8], i: usize) -> (r: u32)
    requires
        i < 25,
        i + 1 < s@.len(),
        is_digit(s@[i as int]),
        is_digit(s@[i + 1]),
    ensures
        r == num2(s@, i as int),
{
    10 * digit_at(s, i) + digit_at(s, i + 1)
}

proof fn lemma_last_dot_before_bound(s: Seq<u8>, n: int)
    requires
        n >= 0,
    ensures
        last_dot_before(s, n) < n,
        last_dot_before(s, n) >= -1,
    decreases n,
{
    if n > 0 {
        lemma_last_dot_before_bound(s, n - 1);
    }
}

fn stem_length(s: &[u8]) -> (r: usize)
    ensures
        r == stem_len(s@),
        r <= s@.len(),
{
    proof {
        lemma_last_dot_before_bound(s@, s@.len() as int);
    }
    let mut n: usize = s.len();
    while n > 0 && s[n - 1] != 46u8
        invariant
            n <= s@.len(),
            last_dot_before(s@, s@.len() as int) == last_dot_before(s@, n as int),
        decreases n,
    {
        n = n - 1;
    }
    if n > 1 {
        n - 1
    } else {
        s.len()
    }
}

fn days_in_month_of(y: i32, m: u32) -> (r: u32)
    requires
        0 <= y,
    ensures
        r == days_in_month(y as int, m as int),
{
    if m == 2 {
        if y % 4 == 0 && (y % 100 != 0 || y % 400 == 0) {
            29
        } else {
            28
        }
    } else if m == 4 || m == 6 || m == 9 || m == 11 {
        30
    } else {
        31
    }
}

/// Reads the date and time of day out of a round file's name.
pub fn parse_round_name(name: &[u8]) -> (r: Result<RoundTime, TimestampFormatError>)
    ensures
        !fits_pattern(name@) ==> r == Err::<RoundTime, _>(TimestampFormatError::MissingToken),
        fits_pattern(name@) && !fields_of(name@).is_valid() ==> r == Err::<RoundTime, _>(
            TimestampFormatError::InvalidDateTime,
        ),
        fits_pattern(name@) && fields_of(name@).is_valid() ==> r == Ok::<_, TimestampFormatError>(
            fields_of(name@),
        ),
{
    let len = stem_length(name);
    let pat: [u8; 26] = [
        0, 0, 0, 0, 45, 0, 0, 45, 0, 0, 32, 0, 0, 45, 0, 0, 45, 0, 0, 45, 105, 110, 103, 97, 109, 101,
    ];
    assert(pat@ =~= pattern());
    if len != 26 {
        return Err(TimestampFormatError::MissingToken);
    }
    let mut i: usize = 0;
    while i < 26
        invariant
            pat@ == pattern(),
            len == stem_len(name@),
            len == 26,
            len <= name@.len(),
            i <= 26,
            forall|j: int| 0 <= j < i ==>
                if pattern()[j] == 0 { is_digit(#[trigger] name@[j]) } else { name@[j] == pattern()[j] },
        decreases 26 - i,
    {
        let b = name[i];
        let ok = if pat[i] == 0 { 48 <= b && b <= 57 } else { b == pat[i] };
        if !ok {
            return Err(TimestampFormatError::MissingToken);
        }
        i = i + 1;
    }
    let y = 100 * num2_at(name, 0) + num2_at(name, 2);
    let t = RoundTime {
        year: y as i32,
        month: num2_at(name, 5),
        day: num2_at(name, 8),
        hour: num2_at(name, 11),
        minute: num2_at(name, 14),
        second: num2_at(name, 17),
    };
    assert(t == fields_of(name@));
    if 1 <= t.month && t.month <= 12 && 1 <= t.day && t.day <= days_in_month_of(t.year, t.month)
        && t.hour <= 23 && t.minute <= 59 && t.second <= 59 {
        Ok(t)
    } else {
        Err(TimestampFormatError::InvalidDateTime)
    }
}

/// Relies on chrono's `FixedOffset::west_opt`, `TimeZone::with_ymd_and_hms`,
/// `MappedLocalTime::single` and `DateTime::timestamp`: a valid local date and
/// time in a fixed zone is one instant, and an invalid one is none.
#[verifier::external_body]
fn fixed_zone_timestamp(west: i32, t: RoundTime) -> (r: Option<i64>)
    requires
        -86400 < west < 86400,
        0 <= t.year <= 9999,
    ensures
        t.is_valid() ==> r == Some(
            epoch_seconds_of(
                t.year as int,
                t.month as int,
                t.day as int,
                t.hour as int,
                t.minute as int,
                t.second as int,
                west as int,
            ) as i64,
        ),
        !t.is_valid() ==> r.is_none(),
{
    let zone = match chrono::FixedOffset::west_opt(west) {
        Some(z) => z,
        None => return None,
    };
    match zone.with_ymd_and_hms(t.year, t.month, t.day, t.hour, t.minute, t.second).single() {
        Some(d) => Some(d.timestamp()),
        None => None,
    }
}

/// The instant, in seconds since the Unix epoch, that a round file's name denotes.
pub fn round_timestamp(name: &[u8]) -> (r: Result<i64, TimestampFormatError>)
    ensures
        r == name_timestamp(name@),
{
    match parse_round_name(name) {
        Err(e) => Err(e),
        Ok(t) => {
            match fixed_zone_timestamp(UTC_OFFSET_WEST_SECONDS, t) {
                Some(s) => Ok(s),
                None => Err(TimestampFormatError::InvalidDateTime),
            }
        },
    }
}

/// What a file name denotes: its instant, or why it denotes none.
pub open spec fn name_timestamp(name: Seq<u8>) -> Result<i64, TimestampFormatError> {
    if !fits_pattern(name) {
        Err(TimestampFormatError::MissingToken)
    } else if !fields_of(name).is_valid() {
        Err(TimestampFormatError::InvalidDateTime)
    } else {
        Ok(round_epoch(fields_of(name)))
    }
}

/// The instant of a round time in the rounds' zone.
pub open spec fn round_epoch(t: RoundTime) -> i64 {
    epoch_seconds_of(
        t.year as int,
        t.month as int,
        t.day as int,
        t.hour as int,
        t.minute as int,
        t.second as int,
        UTC_OFFSET_WEST_SECONDS as int,
    ) as i64
}

} // verus!
