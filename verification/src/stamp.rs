//! The text of a calendar time, `DD/MM/YYYY HH:MM:SS`, and what holds of it.

use crate::calendar::{CalendarTime, MAX_YEAR, MIN_YEAR};
use crate::stream::{is_single_line, lemma_joined_single_line};
use vstd::prelude::*;

verus! {

/// The character of the decimal digit `d` (0 to 9).
pub open spec fn digit(d: int) -> char {
    seq!['0', '1', '2', '3', '4', '5', '6', '7', '8', '9'][d]
}

/// `n` (0 to 99) as two decimal digits, with a leading zero below ten.
pub open spec fn two_digits(n: int) -> Seq<char> {
    seq![digit(n / 10), digit(n % 10)]
}

/// `n` (0 to 9999) as four decimal digits, with leading zeros.
pub open spec fn four_digits(n: int) -> Seq<char> {
    two_digits(n / 100) + two_digits(n % 100)
}

/// `n` in decimal, without leading zeros.
pub open spec fn decimal(n: nat) -> Seq<char>
    decreases n,
{
    if n < 10 {
        seq![digit(n as int)]
    } else {
        decimal(n / 10).push(digit((n % 10) as int))
    }
}

/// The year as a timestamp shows it: four digits from 0 to 9999; outside
/// that range a sign, then at least four digits.
pub open spec fn year_text(year: int) -> Seq<char> {
    if 0 <= year <= 9999 {
        four_digits(year)
    } else if year > 9999 {
        seq!['+'] + decimal(year as nat)
    } else if year >= -9999 {
        seq!['-'] + four_digits(-year)
    } else {
        seq!['-'] + decimal((-year) as nat)
    }
}

/// The date of a calendar time: `DD/MM/YYYY`.
pub open spec fn date_text(at: CalendarTime) -> Seq<char> {
    two_digits(at.day) + seq!['/'] + two_digits(at.month) + seq!['/'] + year_text(at.year)
}

/// The time of day of a calendar time: `HH:MM:SS`.
pub open spec fn clock_text(at: CalendarTime) -> Seq<char> {
    two_digits(at.hour) + seq![':'] + two_digits(at.minute) + seq![':'] + two_digits(at.second)
}

/// The text of a calendar time: `DD/MM/YYYY HH:MM:SS`.
pub open spec fn stamp_text(at: CalendarTime) -> Seq<char> {
    date_text(at) + seq![' '] + clock_text(at)
}

/// The pattern by which a clock reading is rendered: day, month and year
/// between slashes, a space, then hour, minute and second between colons.
pub open spec fn stamp_pattern() -> Seq<char> {
    seq![
        '%', 'd', '/', '%', 'm', '/', '%', 'Y', ' ', '%', 'H', ':', '%', 'M', ':', '%', 'S',
    ]
}

/// Whether `c` is a decimal digit.
pub open spec fn is_digit(c: char) -> bool {
    '0' <= c <= '9'
}

/// Whether `text` has the shape `DD/MM/YYYY HH:MM:SS`: nineteen characters,
/// digits but for the two slashes, the space and the two colons.
pub open spec fn has_stamp_shape(text: Seq<char>) -> bool {
    &&& text.len() == 19
    &&& is_digit(text[0]) && is_digit(text[1]) && text[2] == '/'
    &&& is_digit(text[3]) && is_digit(text[4]) && text[5] == '/'
    &&& is_digit(text[6]) && is_digit(text[7]) && is_digit(text[8]) && is_digit(text[9])
    &&& text[10] == ' '
    &&& is_digit(text[11]) && is_digit(text[12]) && text[13] == ':'
    &&& is_digit(text[14]) && is_digit(text[15]) && text[16] == ':'
    &&& is_digit(text[17]) && is_digit(text[18])
}

/// The calendar time that a timestamp stands for: the valid time whose text
/// it is.
pub open spec fn time_of_stamp(text: Seq<char>) -> CalendarTime {
    choose|at: CalendarTime| at.is_valid() && stamp_text(at) == text
}

/// Whether `text` holds decimal digits only.
spec fn all_digits(text: Seq<char>) -> bool {
    forall|i: int| 0 <= i < text.len() ==> is_digit(#[trigger] text[i])
}

/// Each digit prints as a digit, and as no other digit's character.
proof fn lemma_digit(d: int)
    requires
        0 <= d <= 9,
    ensures
        is_digit(digit(d)),
        forall|e: int| 0 <= e <= 9 && #[trigger] digit(e) == digit(d) ==> e == d,
{
}

/// A number below a hundred prints as two digits.
proof fn lemma_two_digits(n: int)
    requires
        0 <= n < 100,
    ensures
        two_digits(n).len() == 2,
        all_digits(two_digits(n)),
{
    lemma_digit(n / 10);
    lemma_digit(n % 10);
}

/// A number below ten thousand prints as four digits.
proof fn lemma_four_digits(n: int)
    requires
        0 <= n <= 9999,
    ensures
        four_digits(n).len() == 4,
        all_digits(four_digits(n)),
{
    lemma_two_digits(n / 100);
    lemma_two_digits(n % 100);
}

/// A number in decimal is one digit at least, and digits only.
proof fn lemma_decimal(n: nat)
    ensures
        decimal(n).len() >= 1,
        n >= 10 ==> decimal(n).len() == decimal(n / 10).len() + 1,
        all_digits(decimal(n)),
    decreases n,
{
    if n >= 10 {
        lemma_decimal(n / 10);
        lemma_digit((n % 10) as int);
    } else {
        lemma_digit(n as int);
    }
}

/// A year within the calendar prints as an optional sign and then digits.
proof fn lemma_year_text(year: int)
    requires
        MIN_YEAR <= year <= MAX_YEAR,
    ensures
        0 <= year <= 9999 ==> year_text(year).len() == 4 && all_digits(year_text(year)),
        is_single_line(year_text(year)),
{
    if 0 <= year <= 9999 {
        lemma_four_digits(year);
    } else if year > 9999 {
        lemma_decimal(year as nat);
    } else if year >= -9999 {
        lemma_four_digits(-year);
    } else {
        lemma_decimal((-year) as nat);
    }
}

/// The time of day prints as eight characters: `HH:MM:SS`.
proof fn lemma_clock_text(at: CalendarTime)
    requires
        at.is_valid(),
    ensures
        ({
            let text = clock_text(at);
            &&& text.len() == 8
            &&& is_digit(text[0]) && is_digit(text[1]) && text[2] == ':'
            &&& is_digit(text[3]) && is_digit(text[4]) && text[5] == ':'
            &&& is_digit(text[6]) && is_digit(text[7])
            &&& is_single_line(text)
        }),
{
    lemma_two_digits(at.hour);
    lemma_two_digits(at.minute);
    lemma_two_digits(at.second);
    let (hour, minute, second) = (two_digits(at.hour), two_digits(at.minute), two_digits(at.second));
    assert(is_digit(hour[0]) && is_digit(hour[1]));
    assert(is_digit(minute[0]) && is_digit(minute[1]));
    assert(is_digit(second[0]) && is_digit(second[1]));
}

/// The date prints as `DD/MM/` and the year.
proof fn lemma_date_text(at: CalendarTime)
    requires
        at.is_valid(),
    ensures
        ({
            let text = date_text(at);
            &&& text.len() == 6 + year_text(at.year).len()
            &&& is_digit(text[0]) && is_digit(text[1]) && text[2] == '/'
            &&& is_digit(text[3]) && is_digit(text[4]) && text[5] == '/'
            &&& text.subrange(6, text.len() as int) == year_text(at.year)
            &&& is_single_line(text)
        }),
{
    lemma_two_digits(at.day);
    lemma_two_digits(at.month);
    lemma_year_text(at.year);
    let (day, month) = (two_digits(at.day), two_digits(at.month));
    assert(is_digit(day[0]) && is_digit(day[1]));
    assert(is_digit(month[0]) && is_digit(month[1]));
    let head = day + seq!['/'] + month + seq!['/'];
    assert(is_single_line(head));
    lemma_joined_single_line(head, year_text(at.year));
    assert(date_text(at) =~= head + year_text(at.year));
    assert(date_text(at).subrange(6, date_text(at).len() as int) =~= year_text(at.year));
}

/// The text of a calendar time in the years 0 to 9999 has the shape
/// `DD/MM/YYYY HH:MM:SS`.
pub proof fn lemma_stamp_shape(at: CalendarTime)
    requires
        at.is_valid(),
        0 <= at.year <= 9999,
    ensures
        has_stamp_shape(stamp_text(at)),
{
    let (date, year) = (date_text(at), year_text(at.year));
    lemma_date_text(at);
    lemma_clock_text(at);
    lemma_year_text(at.year);
    assert(is_digit(year[0]) && is_digit(year[1]) && is_digit(year[2]) && is_digit(year[3]));
    assert(date[6] == year[0] && date[7] == year[1] && date[8] == year[2] && date[9] == year[3]);
}

/// The text of a calendar time holds no line break.
pub proof fn lemma_stamp_single_line(at: CalendarTime)
    requires
        at.is_valid(),
    ensures
        is_single_line(stamp_text(at)),
{
    lemma_date_text(at);
    lemma_clock_text(at);
    lemma_joined_single_line(date_text(at), seq![' ']);
    lemma_joined_single_line(date_text(at) + seq![' '], clock_text(at));
}

/// Two numbers below a hundred that print alike in two digits are the same.
proof fn lemma_two_digits_unique(m: int, n: int)
    requires
        0 <= m < 100,
        0 <= n < 100,
        two_digits(m) == two_digits(n),
    ensures
        m == n,
{
    assert(two_digits(m)[0] == digit(m / 10) && two_digits(n)[0] == digit(n / 10));
    assert(two_digits(m)[1] == digit(m % 10) && two_digits(n)[1] == digit(n % 10));
    lemma_digit(m / 10);
    lemma_digit(m % 10);
    assert(m / 10 == n / 10);
    assert(m % 10 == n % 10);
}

/// Two numbers below ten thousand that print alike in four digits are the
/// same.
proof fn lemma_four_digits_unique(m: int, n: int)
    requires
        0 <= m <= 9999,
        0 <= n <= 9999,
        four_digits(m) == four_digits(n),
    ensures
        m == n,
{
    assert(four_digits(m).subrange(0, 2) =~= two_digits(m / 100));
    assert(four_digits(n).subrange(0, 2) =~= two_digits(n / 100));
    lemma_two_digits_unique(m / 100, n / 100);
    assert(four_digits(m).subrange(2, 4) =~= two_digits(m % 100));
    assert(four_digits(n).subrange(2, 4) =~= two_digits(n % 100));
    lemma_two_digits_unique(m % 100, n % 100);
}

/// Two numbers that print alike in decimal are the same number.
proof fn lemma_decimal_unique(m: nat, n: nat)
    requires
        decimal(m) == decimal(n),
    ensures
        m == n,
    decreases m,
{
    lemma_decimal(m);
    lemma_decimal(n);
    if m < 10 && n < 10 {
        assert(decimal(m)[0] == digit(m as int) && decimal(n)[0] == digit(n as int));
        lemma_digit(m as int);
    } else if m >= 10 && n >= 10 {
        assert(decimal(m).last() == digit((m % 10) as int));
        assert(decimal(n).last() == digit((n % 10) as int));
        lemma_digit((m % 10) as int);
        assert(m % 10 == n % 10);
        assert(decimal(m).drop_last() =~= decimal(m / 10));
        assert(decimal(n).drop_last() =~= decimal(n / 10));
        lemma_decimal_unique(m / 10, n / 10);
    } else if m < 10 {
        lemma_decimal(n / 10);
        assert(decimal(m).len() == 1 && decimal(n).len() >= 2);
    } else {
        lemma_decimal(m / 10);
        assert(decimal(n).len() == 1 && decimal(m).len() >= 2);
    }
}

/// A number from ten thousand on has at least five digits.
proof fn lemma_decimal_long(n: nat)
    requires
        n >= 10000,
    ensures
        decimal(n).len() >= 5,
{
    lemma_decimal(n);
    lemma_decimal(n / 10);
    lemma_decimal(n / 10 / 10);
    lemma_decimal(n / 10 / 10 / 10);
    lemma_decimal(n / 10 / 10 / 10 / 10);
}

/// The form in which a year is shown: 0 for four plain digits, 1 for a plus
/// sign and more digits, 2 for a minus sign and four digits, 3 for a minus
/// sign and more digits.
spec fn year_form(year: int) -> int {
    if 0 <= year <= 9999 {
        0
    } else if year > 9999 {
        1
    } else if year >= -9999 {
        2
    } else {
        3
    }
}

/// What the text of a year shows of its form: its length and its first
/// character.
proof fn lemma_year_form(year: int)
    requires
        MIN_YEAR <= year <= MAX_YEAR,
    ensures
        year_form(year) == 0 ==> is_digit(year_text(year)[0]),
        year_form(year) == 1 ==> year_text(year)[0] == '+',
        year_form(year) == 2 ==> year_text(year)[0] == '-' && year_text(year).len() == 5,
        year_form(year) == 3 ==> year_text(year)[0] == '-' && year_text(year).len() >= 6,
{
    if 0 <= year <= 9999 {
        lemma_four_digits(year);
    } else if year > 9999 {
    } else if year >= -9999 {
        lemma_four_digits(-year);
    } else {
        lemma_decimal_long((-year) as nat);
    }
}

/// Two years within the calendar that print alike are the same year.
proof fn lemma_year_unique(a: int, b: int)
    requires
        MIN_YEAR <= a <= MAX_YEAR,
        MIN_YEAR <= b <= MAX_YEAR,
        year_text(a) == year_text(b),
    ensures
        a == b,
{
    let (ta, tb) = (year_text(a), year_text(b));
    lemma_year_form(a);
    lemma_year_form(b);
    assert(year_form(a) == year_form(b));
    if year_form(a) == 0 {
        lemma_four_digits_unique(a, b);
    } else if year_form(a) == 1 {
        assert(ta.subrange(1, ta.len() as int) =~= decimal(a as nat));
        assert(tb.subrange(1, tb.len() as int) =~= decimal(b as nat));
        lemma_decimal_unique(a as nat, b as nat);
    } else if year_form(a) == 2 {
        assert(ta.subrange(1, 5) =~= four_digits(-a));
        assert(tb.subrange(1, 5) =~= four_digits(-b));
        lemma_four_digits_unique(-a, -b);
    } else {
        assert(ta.subrange(1, ta.len() as int) =~= decimal((-a) as nat));
        assert(tb.subrange(1, tb.len() as int) =~= decimal((-b) as nat));
        lemma_decimal_unique((-a) as nat, (-b) as nat);
    }
}

/// Two calendar times whose dates print alike are on the same day.
proof fn lemma_date_unique(a: CalendarTime, b: CalendarTime)
    requires
        a.is_valid(),
        b.is_valid(),
        date_text(a) == date_text(b),
    ensures
        a.day == b.day,
        a.month == b.month,
        a.year == b.year,
{
    let (ta, tb) = (date_text(a), date_text(b));
    lemma_date_text(a);
    lemma_date_text(b);
    assert(ta.subrange(0, 2) =~= two_digits(a.day));
    assert(tb.subrange(0, 2) =~= two_digits(b.day));
    lemma_two_digits_unique(a.day, b.day);
    assert(ta.subrange(3, 5) =~= two_digits(a.month));
    assert(tb.subrange(3, 5) =~= two_digits(b.month));
    lemma_two_digits_unique(a.month, b.month);
    lemma_year_unique(a.year, b.year);
}

/// Two calendar times whose times of day print alike are at the same second
/// of their days.
proof fn lemma_clock_unique(a: CalendarTime, b: CalendarTime)
    requires
        a.is_valid(),
        b.is_valid(),
        clock_text(a) == clock_text(b),
    ensures
        a.hour == b.hour,
        a.minute == b.minute,
        a.second == b.second,
{
    let (ta, tb) = (clock_text(a), clock_text(b));
    assert(ta.subrange(0, 2) =~= two_digits(a.hour));
    assert(tb.subrange(0, 2) =~= two_digits(b.hour));
    lemma_two_digits_unique(a.hour, b.hour);
    assert(ta.subrange(3, 5) =~= two_digits(a.minute));
    assert(tb.subrange(3, 5) =~= two_digits(b.minute));
    lemma_two_digits_unique(a.minute, b.minute);
    assert(ta.subrange(6, 8) =~= two_digits(a.second));
    assert(tb.subrange(6, 8) =~= two_digits(b.second));
    lemma_two_digits_unique(a.second, b.second);
}

/// Two calendar times with the same text are the same time.
pub proof fn lemma_stamp_unique(a: CalendarTime, b: CalendarTime)
    requires
        a.is_valid(),
        b.is_valid(),
        stamp_text(a) == stamp_text(b),
    ensures
        a == b,
{
    let (ta, tb) = (stamp_text(a), stamp_text(b));
    let end = ta.len() as int;
    lemma_clock_text(a);
    lemma_clock_text(b);
    assert(ta.subrange(0, end - 9) =~= date_text(a));
    assert(tb.subrange(0, end - 9) =~= date_text(b));
    lemma_date_unique(a, b);
    assert(ta.subrange(end - 8, end) =~= clock_text(a));
    assert(tb.subrange(end - 8, end) =~= clock_text(b));
    lemma_clock_unique(a, b);
}

/// A timestamp stands for the calendar time that it was made from.
pub proof fn lemma_time_of_stamp(at: CalendarTime)
    requires
        at.is_valid(),
    ensures
        time_of_stamp(stamp_text(at)) == at,
{
    lemma_stamp_unique(time_of_stamp(stamp_text(at)), at);
}

/// Timestamps keep the order of the clock readings that they were made from:
/// where one reading is no later than another, the time that its timestamp
/// stands for is no later than that of the other's.
pub proof fn lemma_stamps_keep_order(earlier: CalendarTime, later: CalendarTime)
    requires
        earlier.is_valid(),
        later.is_valid(),
        earlier.not_after(later),
    ensures
        time_of_stamp(stamp_text(earlier)).not_after(time_of_stamp(stamp_text(later))),
{
    lemma_time_of_stamp(earlier);
    lemma_time_of_stamp(later);
}

} // verus!
