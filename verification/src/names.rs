//! Names for files and folders: dates, random tokens and numbers.
use crate::seconds::{whole, whole_of, Seconds};
use chrono::{Datelike, Timelike};
use rand::Rng;
use vstd::prelude::*;

verus! {

/// Pattern of a day, for the clock.
pub const DAY: &'static str = "%Y-%m-%d";

/// Pattern of a moment, for the clock.
pub const MOMENT: &'static str = "%Y-%m-%d %H-%M-%S";

/// A moment on the local calendar.
#[derive(Debug, Clone, Copy, PartialEq, Eq, Structural)]
pub struct CivilTime {
    pub year: i32,
    pub month: u32,
    pub day: u32,
    pub hour: u32,
    pub minute: u32,
    pub second: u32,
}

/// The decimal digit of `d`.
pub open spec fn digit(d: nat) -> char {
    (48 + d) as char
}

/// The decimal notation of `n`.
pub open spec fn decimal_of(n: nat) -> Seq<char>
    decreases n,
{
    if n < 10 {
        seq![digit(n)]
    } else {
        decimal_of(n / 10).push(digit(n % 10))
    }
}

/// The last two decimal digits of `n`.
pub open spec fn two_digits(n: nat) -> Seq<char> {
    seq![digit(n / 10 % 10), digit(n % 10)]
}

/// The decimal notation of `n`, with zeros in front up to four digits.
pub open spec fn four_digits(n: nat) -> Seq<char> {
    if n < 10000 {
        two_digits(n / 100) + two_digits(n)
    } else {
        decimal_of(n)
    }
}

/// A year, with a sign when it is negative or has more than four digits.
pub open spec fn year_text(year: int) -> Seq<char> {
    if year < 0 {
        seq!['-'] + four_digits((-year) as nat)
    } else if year > 9999 {
        seq!['+'] + four_digits(year as nat)
    } else {
        four_digits(year as nat)
    }
}

impl CivilTime {
    /// Whether every part but the year is one that a calendar and a clock show.
    pub open spec fn on_the_calendar(self) -> bool {
        &&& 1 <= self.month <= 12
        &&& 1 <= self.day <= 31
        &&& self.hour < 24
        &&& self.minute < 60
        &&& self.second < 60
    }

    /// The date, as in `2025-03-09`.
    pub open spec fn day_text(self) -> Seq<char> {
        year_text(self.year as int) + seq!['-'] + two_digits(self.month as nat) + seq!['-']
            + two_digits(self.day as nat)
    }

    /// The date and time, as in `2025-03-09 17-05-00`.
    pub open spec fn moment_text(self) -> Seq<char> {
        self.day_text() + seq![' '] + two_digits(self.hour as nat) + seq!['-'] + two_digits(
            self.minute as nat,
        ) + seq!['-'] + two_digits(self.second as nat)
    }
}

/// `chrono::Local::now()`, and its `format` with `pattern`: the current local time, and its text.
/// The time is whatever the clock and the time zone of the machine say. Claimed of it is that its
/// parts are ones a calendar shows, and that the text spells them as the pattern asks: numbers
/// with two digits, years with four and a sign outside 0 to 9999. Which time it is, is left
/// unsaid. A machine whose clock stands before 1970 makes it panic.
#[verifier::external_body]
fn local_time(pattern: &str) -> (r: (CivilTime, String))
    requires
        pattern@ == DAY@ || pattern@ == MOMENT@,
    ensures
        r.0.on_the_calendar(),
        pattern@ == DAY@ ==> r.1@ == r.0.day_text(),
        pattern@ == MOMENT@ ==> r.1@ == r.0.moment_text(),
{
    let t = chrono::Local::now();
    let civil = CivilTime {
        year: t.year(),
        month: t.month(),
        day: t.day(),
        hour: t.hour(),
        minute: t.minute(),
        second: t.second(),
    };
    (civil, t.format(pattern).to_string())
}

/// Whether `b` is an ASCII letter or digit.
pub open spec fn is_alphanumeric(b: u8) -> bool {
    ||| 0x30 <= b <= 0x39
    ||| 0x41 <= b <= 0x5a
    ||| 0x61 <= b <= 0x7a
}

/// `sample_iter` of `rand::rng()` with `rand::distr::Alphanumeric`: `length` random bytes, each an
/// ASCII letter or digit. Which ones is up to chance. A machine without a source of randomness makes
/// it panic.
#[verifier::external_body]
fn random_alphanumerics(length: usize) -> (r: Vec<u8>)
    requires
        length <= isize::MAX,
    ensures
        r@.len() == length,
        forall|i: int| 0 <= i < length ==> is_alphanumeric(#[trigger] r@[i]),
{
    rand::rng().sample_iter(&rand::distr::Alphanumeric).take(length).collect()
}

/// The current local time, as in `2025-03-09 17-05-00`.
pub fn get_local_time() -> (r: String)
    ensures
        exists|t: CivilTime| t.on_the_calendar() && r@ == #[trigger] t.moment_text(),
{
    local_time(MOMENT).1
}

/// The characters whose codes are `bytes`.
pub fn spelled(bytes: &[u8]) -> (r: String)
    ensures
        r@.len() == bytes@.len(),
        forall|i: int| 0 <= i < bytes@.len() ==> #[trigger] r@[i] == bytes@[i] as char,
{
    let mut r: String = String::new();
    let mut i: usize = 0;
    while i < bytes.len()
        invariant
            i <= bytes@.len(),
            r@.len() == i,
            forall|j: int| 0 <= j < i ==> #[trigger] r@[j] == bytes@[j] as char,
        decreases bytes@.len() - i,
    {
        r.push(bytes[i] as char);
        i = i + 1;
    }
    r
}

/// A random string of ASCII letters and digits.
pub fn random_string(length: usize) -> (r: String)
    requires
        length <= isize::MAX,
    ensures
        r@.len() == length,
        forall|i: int| 0 <= i < length ==> is_alphanumeric(#[trigger] r@[i] as u8) && (r@[i] as u32)
            < 0x80,
{
    let bytes: Vec<u8> = random_alphanumerics(length);
    let r: String = spelled(bytes.as_slice());
    assert forall|i: int| 0 <= i < length implies is_alphanumeric(#[trigger] r@[i] as u8) && (
    r@[i] as u32) < 0x80 by {
        assert(is_alphanumeric(bytes@[i]));
    }
    r
}

/// The decimal notation of `n`.
pub fn decimal(n: u64) -> (r: String)
    ensures
        r@ == decimal_of(n as nat),
    decreases n,
{
    let last: char = (48 + (n % 10) as u8) as char;
    let mut r: String = if n < 10 {
        String::new()
    } else {
        decimal(n / 10)
    };
    r.push(last);
    assert(r@ =~= decimal_of(n as nat));
    r
}

/// The name of the temporary folder of a day.
pub fn temp_folder_name(day: &str) -> (r: String)
    ensures
        r@ == "vibe_temp_"@ + day@,
{
    "vibe_temp_".to_string().concat(day)
}

/// The name of today's temporary folder.
pub fn todays_temp_folder_name() -> (r: String)
    ensures
        exists|t: CivilTime|
            t.on_the_calendar() && r@ == "vibe_temp_"@ + #[trigger] t.day_text(),
{
    let (t, day): (CivilTime, String) = local_time(DAY);
    assert(day@ == t.day_text());
    temp_folder_name(day.as_str())
}

/// The name of the file that a trimmed recording is kept in: a token, what was skipped, and the
/// extension of the recording, or `wav`.
pub fn trimmed_file_name(token: &str, skipped: Seconds, extension: Option<&str>) -> (r: String)
    ensures
        r@ == token@ + "-from"@ + decimal_of(whole_of(skipped) as nat) + "s."@ + match extension {
            Some(e) => e@,
            None => "wav"@,
        },
{
    let mut r: String = token.to_string();
    r.append("-from");
    r.append(decimal(whole(skipped)).as_str());
    r.append("s.");
    match extension {
        Some(e) => r.append(e),
        None => r.append("wav"),
    }
    r
}

/// The digits of decimal notation are the ASCII ones.
pub proof fn digits_are_ascii(d: nat)
    requires
        d < 10,
    ensures
        digit(d) as u32 == 0x30 + d,
{
}

/// Appending a digit to the notation of a number multiplies it by ten and adds the digit; a number
/// below ten is one digit.
pub proof fn appending_a_digit_multiplies_by_ten(n: nat, d: nat)
    requires
        d < 10,
    ensures
        decimal_of(d) == seq![(0x30 + d) as char],
        n > 0 ==> decimal_of(10 * n + d) == decimal_of(n).push((0x30 + d) as char),
{
}

/// No two numbers have the same decimal notation.
pub proof fn decimal_notation_is_unique(a: nat, b: nat)
    requires
        decimal_of(a) == decimal_of(b),
    ensures
        a == b,
    decreases a,
{
    lemma_notation_is_not_empty(a / 10);
    lemma_notation_is_not_empty(b / 10);
    assert(decimal_of(a).last() == digit(a % 10));
    assert(decimal_of(b).last() == digit(b % 10));
    digits_are_ascii(a % 10);
    digits_are_ascii(b % 10);
    if a >= 10 && b >= 10 {
        assert(decimal_of(a).drop_last() =~= decimal_of(a / 10));
        assert(decimal_of(b).drop_last() =~= decimal_of(b / 10));
        decimal_notation_is_unique(a / 10, b / 10);
    }
}

proof fn lemma_notation_is_not_empty(n: nat)
    ensures
        decimal_of(n).len() > 0,
{
}

/// A part of a date or time has two digits: tens, then ones.
pub proof fn two_digits_are_tens_and_ones(n: nat)
    requires
        n < 100,
    ensures
        two_digits(n).len() == 2,
        two_digits(n)[0] as u32 == 0x30 + n / 10,
        two_digits(n)[1] as u32 == 0x30 + n % 10,
{
    digits_are_ascii(n / 10);
    digits_are_ascii(n % 10);
}

/// The last two digits do not depend on the hundreds.
proof fn lemma_last_two_digits(hundreds: nat, rest: nat)
    requires
        rest < 100,
    ensures
        two_digits(100 * hundreds + rest) == two_digits(rest),
{
    let n = 100 * hundreds + rest;
    let tens = rest / 10;
    let ones = rest % 10;
    assert(n == 10 * (10 * hundreds + tens) + ones);
    assert(n / 10 == 10 * hundreds + tens);
    assert(n % 10 == ones);
    assert((10 * hundreds + tens) % 10 == tens % 10);
}

/// A year has four digits; one outside of that has a sign.
pub proof fn a_year_has_four_digits(year: int)
    ensures
        0 <= year <= 9999 ==> year_text(year) == two_digits((year / 100) as nat) + two_digits(
            (year % 100) as nat,
        ),
        year > 9999 ==> year_text(year) == seq!['+'] + decimal_of(year as nat),
        year < -9999 ==> year_text(year) == seq!['-'] + decimal_of((-year) as nat),
        -9999 <= year < 0 ==> year_text(year) == seq!['-'] + year_text(-year),
{
    if 0 <= year <= 9999 {
        lemma_last_two_digits((year / 100) as nat, (year % 100) as nat);
    }
}

/// A date is year, month and day, and a moment has hour, minute and second after it.
pub proof fn a_moment_is_a_day_and_a_time(t: CivilTime)
    requires
        0 <= t.year <= 9999,
    ensures
        t.day_text().len() == 10,
        t.day_text().take(4) == year_text(t.year as int),
        t.day_text()[4] == '-',
        t.day_text().subrange(5, 7) == two_digits(t.month as nat),
        t.day_text()[7] == '-',
        t.day_text().subrange(8, 10) == two_digits(t.day as nat),
        t.moment_text().len() == 19,
        t.moment_text().take(10) == t.day_text(),
        t.moment_text()[10] == ' ',
        t.moment_text().subrange(11, 13) == two_digits(t.hour as nat),
        t.moment_text()[13] == '-',
        t.moment_text().subrange(14, 16) == two_digits(t.minute as nat),
        t.moment_text()[16] == '-',
        t.moment_text().subrange(17, 19) == two_digits(t.second as nat),
{
    let d = t.day_text();
    let m = t.moment_text();
    assert(d.take(4) =~= year_text(t.year as int));
    assert(d.subrange(5, 7) =~= two_digits(t.month as nat));
    assert(d.subrange(8, 10) =~= two_digits(t.day as nat));
    assert(m.take(10) =~= d);
    assert(m.subrange(11, 13) =~= two_digits(t.hour as nat));
    assert(m.subrange(14, 16) =~= two_digits(t.minute as nat));
    assert(m.subrange(17, 19) =~= two_digits(t.second as nat));
}

} // verus!
