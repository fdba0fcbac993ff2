use vstd::prelude::*;
use vstd::string::StringSliceAdditionalSpecFns;
use vstd::utf8::encode_utf8;
use crate::config::calendar::{
    date_to_epoch_day, days_before_month, epoch_day, is_calendar_day, is_clock_time,
    second_of_day, time_to_second_of_day,
};
use crate::config::error::{ConfigError, DateField};
use crate::packet::types::{TimeRange, Timestamp};

verus! {

/// Whether the byte is one of the ASCII digits.
pub open spec fn is_digit(byte: u8) -> bool {
    48 <= byte <= 57
}

/// The number that a run of ASCII digits writes in base ten.
pub open spec fn digits_value(digits: Seq<u8>) -> int
    decreases digits.len(),
{
    if digits.len() == 0 {
        0
    } else {
        digits_value(digits.drop_last()) * 10 + (digits.last() - 48)
    }
}

/// Whether the bytes are ASCII digits, at least one.
pub open spec fn is_number(digits: Seq<u8>) -> bool {
    digits.len() > 0 && forall|i: int| 0 <= i < digits.len() ==> is_digit(#[trigger] digits[i])
}

/// Whether the field begins with a sign that it may have: a plus sign, or a
/// minus sign in a signed field.
pub open spec fn has_sign(field: Seq<u8>, signed: bool) -> bool {
    field.len() > 0 && (field[0] == 43 || (signed && field[0] == 45))
}

/// The number that a field of an entry denotes, if it denotes one: a sign
/// may come first, and then there are digits and nothing else, at least one.
pub open spec fn field_value(field: Seq<u8>, signed: bool) -> Option<int> {
    if has_sign(field, signed) {
        if !is_number(field.skip(1)) {
            None
        } else if field[0] == 45 {
            Some(-digits_value(field.skip(1)))
        } else {
            Some(digits_value(field.skip(1)))
        }
    } else if is_number(field) {
        Some(digits_value(field))
    } else {
        None
    }
}

/// The instant of a calendar day and a time of that day in UTC, in
/// microseconds since 1970-01-01T00:00:00Z.
pub open spec fn instant_of(
    year: int,
    month: int,
    day: int,
    hour: int,
    minute: int,
    second: int,
) -> int {
    (epoch_day(year, month, day) * 86400 + second_of_day(hour, minute, second)) * 1000000
}

/// What an entry of the form YYYYMMDDHHMMSS denotes.
///
/// The entry has fourteen bytes. Its six fields are read as numbers from
/// left to right, and the first that is no number is reported. The numbers
/// must then name a day of the calendar and a time of day.
pub open spec fn datetime_of(entry: Seq<u8>) -> Result<Timestamp, ConfigError> {
    let year = field_value(entry.subrange(0, 4), true);
    let month = field_value(entry.subrange(4, 6), false);
    let day = field_value(entry.subrange(6, 8), false);
    let hour = field_value(entry.subrange(8, 10), false);
    let minute = field_value(entry.subrange(10, 12), false);
    let second = field_value(entry.subrange(12, 14), false);
    if entry.len() != 14 {
        Err(ConfigError::InvalidInputLength(entry.len() as usize))
    } else if year is None {
        Err(ConfigError::ParseError(DateField::Year))
    } else if month is None {
        Err(ConfigError::ParseError(DateField::Month))
    } else if day is None {
        Err(ConfigError::ParseError(DateField::Day))
    } else if hour is None {
        Err(ConfigError::ParseError(DateField::Hour))
    } else if minute is None {
        Err(ConfigError::ParseError(DateField::Minute))
    } else if second is None {
        Err(ConfigError::ParseError(DateField::Second))
    } else if !is_calendar_day(year->Some_0, month->Some_0, day->Some_0) {
        Err(ConfigError::ParseError(DateField::Date))
    } else if !is_clock_time(hour->Some_0, minute->Some_0, second->Some_0) {
        Err(ConfigError::ParseError(DateField::Time))
    } else {
        Ok(
            instant_of(
                year->Some_0,
                month->Some_0,
                day->Some_0,
                hour->Some_0,
                minute->Some_0,
                second->Some_0,
            ) as Timestamp,
        )
    }
}

/// The number of at most four digits is below ten thousand.
proof fn lemma_digits_bounded(digits: Seq<u8>)
    requires
        digits.len() <= 4,
        forall|i: int| 0 <= i < digits.len() ==> is_digit(#[trigger] digits[i]),
    ensures
        0 <= digits_value(digits),
        digits.len() <= 0 ==> digits_value(digits) == 0,
        digits.len() <= 1 ==> digits_value(digits) <= 9,
        digits.len() <= 2 ==> digits_value(digits) <= 99,
        digits.len() <= 3 ==> digits_value(digits) <= 999,
        digits_value(digits) <= 9999,
    decreases digits.len(),
{
    if digits.len() > 0 {
        assert(is_digit(digits[digits.len() - 1]));
        lemma_digits_bounded(digits.drop_last());
    }
}

/// Reads `bytes[from..to]` as a number.
fn read_field(bytes: &[u8], from: usize, to: usize, signed: bool) -> (number: Option<i32>)
    requires
        from < to <= bytes.len(),
        to - from <= 4,
    ensures
        number is Some <==> field_value(bytes@.subrange(from as int, to as int), signed) is Some,
        number is Some ==> number->Some_0 == field_value(
            bytes@.subrange(from as int, to as int),
            signed,
        )->Some_0,
        number is Some ==> -999 <= number->Some_0 <= 9999,
        number is Some && !signed ==> 0 <= number->Some_0,
        number is Some && to - from <= 2 ==> number->Some_0 <= 99,
{
    let ghost field = bytes@.subrange(from as int, to as int);
    let first = bytes[from];
    assert(first == field[0]);
    let plus = first == 43;
    let minus = signed && first == 45;
    let start = if plus || minus {
        from + 1
    } else {
        from
    };
    let ghost digits = bytes@.subrange(start as int, to as int);
    assert(has_sign(field, signed) == (plus || minus));
    assert(digits =~= if plus || minus {
        field.skip(1)
    } else {
        field
    });
    if start == to {
        return None;
    }
    let mut value: i32 = 0;
    let mut at = start;
    while at < to
        invariant
            start <= at <= to <= bytes.len(),
            to - start <= 4,
            from <= start,
            field == bytes@.subrange(from as int, to as int),
            digits == bytes@.subrange(start as int, to as int),
            has_sign(field, signed) == (plus || minus),
            digits == if plus || minus {
                field.skip(1)
            } else {
                field
            },
            forall|i: int| 0 <= i < at - start ==> is_digit(#[trigger] digits[i]),
            value == digits_value(digits.take(at - start)),
            0 <= value <= 9999,
        decreases to - at,
    {
        let byte = bytes[at];
        assert(byte == digits[at - start]);
        if byte < 48 || byte > 57 {
            assert(!is_digit(digits[at - start]));
            return None;
        }
        proof {
            let seen = digits.take(at - start + 1);
            assert(seen.drop_last() =~= digits.take(at - start));
            assert(seen.last() == byte);
            lemma_digits_bounded(seen);
        }
        value = value * 10 + (byte - 48) as i32;
        at = at + 1;
    }
    proof {
        assert(digits.take(at - start) =~= digits);
        lemma_digits_bounded(digits);
    }
    if minus {
        Some(-value)
    } else {
        Some(value)
    }
}

/// The days before a month of any year are fewer than a year's.
proof fn lemma_days_before_month_bounded(year: int, month: int)
    requires
        1 <= month <= 12,
    ensures
        0 <= days_before_month(year, month) <= 335,
{
    reveal_with_fuel(days_before_month, 13);
}

/// Reads an entry of the form YYYYMMDDHHMMSS as an instant in UTC.
pub fn parse_datetime_input(input: &str) -> (parsed: Result<Timestamp, ConfigError>)
    ensures
        parsed == datetime_of(input.spec_bytes()),
{
    let bytes = input.as_bytes();
    if bytes.len() != 14 {
        return Err(ConfigError::InvalidInputLength(bytes.len()));
    }
    let year = match read_field(bytes, 0, 4, true) {
        Some(number) => number,
        None => { return Err(ConfigError::ParseError(DateField::Year)); },
    };
    let month = match read_field(bytes, 4, 6, false) {
        Some(number) => number as u32,
        None => { return Err(ConfigError::ParseError(DateField::Month)); },
    };
    let day = match read_field(bytes, 6, 8, false) {
        Some(number) => number as u32,
        None => { return Err(ConfigError::ParseError(DateField::Day)); },
    };
    let hour = match read_field(bytes, 8, 10, false) {
        Some(number) => number as u32,
        None => { return Err(ConfigError::ParseError(DateField::Hour)); },
    };
    let minute = match read_field(bytes, 10, 12, false) {
        Some(number) => number as u32,
        None => { return Err(ConfigError::ParseError(DateField::Minute)); },
    };
    let second = match read_field(bytes, 12, 14, false) {
        Some(number) => number as u32,
        None => { return Err(ConfigError::ParseError(DateField::Second)); },
    };
    let days = match date_to_epoch_day(year, month, day) {
        Some(number) => number,
        None => { return Err(ConfigError::ParseError(DateField::Date)); },
    };
    let seconds = match time_to_second_of_day(hour, minute, second) {
        Some(number) => number,
        None => { return Err(ConfigError::ParseError(DateField::Time)); },
    };
    proof {
        lemma_days_before_month_bounded(year as int, month as int);
    }
    Ok((days as i64 * 86400 + seconds as i64) * 1000000)
}

/// What is left of a text when the white space at both of its ends is taken away.
pub uninterp spec fn trimmed(text: Seq<char>) -> Seq<char>;

/// The text without the white space at its ends.
///
/// Calls `str::trim`. Taken on trust: the result depends on the characters
/// of the text alone.
#[verifier::external_body]
fn trim(text: &str) -> (core: &str)
    ensures
        core@ == trimmed(text@),
{
    text.trim()
}

/// The time range that an operator entered for a bounded replay.
#[derive(Debug, Clone, Copy, PartialEq, Eq)]
pub struct DateTimeInput {
    range: TimeRange,
}

impl DateTimeInput {
    /// The range between the two instants that were entered.
    pub closed spec fn span(self) -> TimeRange {
        self.range
    }

    /// An input is nothing but its range.
    pub proof fn lemma_span(self, other: DateTimeInput)
        ensures
            self.span() == other.span() ==> self == other,
    {
    }

    /// Reads one line that an operator typed: the white space around the
    /// entry is dropped, and the entry is read as an instant.
    pub fn parse_line(line: &str) -> (parsed: Result<Timestamp, ConfigError>)
        ensures
            parsed == datetime_of(encode_utf8(trimmed(line@))),
    {
        parse_datetime_input(trim(line))
    }

    /// Accepts the two instants when the end is after the start, and refuses them otherwise.
    pub fn new(start: Timestamp, end: Timestamp) -> (made: Result<DateTimeInput, ConfigError>)
        ensures
            match made {
                Ok(input) => start < end && input.span().start_at() == start
                    && input.span().end_at() == end,
                Err(refusal) => start >= end && refusal == ConfigError::InvalidDateOrder(
                    start,
                    end,
                ),
            },
    {
        match TimeRange::new(start, end) {
            Ok(range) => Ok(DateTimeInput { range }),
            Err(refusal) => Err(refusal),
        }
    }

    /// The instant at which the replay begins.
    pub fn start_datetime(&self) -> (at: Timestamp)
        ensures
            at == self.span().start_at(),
            at < self.span().end_at(),
    {
        self.range.start()
    }

    /// The instant at which the replay ends.
    pub fn end_datetime(&self) -> (at: Timestamp)
        ensures
            at == self.span().end_at(),
            at > self.span().start_at(),
    {
        self.range.end()
    }

    /// The range to query the store with.
    pub fn range(&self) -> (range: TimeRange)
        ensures
            range == self.span(),
    {
        self.range
    }
}

/// How far the entry of a time range has come. The start is asked for until
/// one is accepted, then the end is asked for until one is accepted that
/// lies after the start.
#[derive(Debug, PartialEq, Eq)]
pub enum DateTimePrompt {
    /// The start is asked for.
    Start,
    /// The start is known and the end is asked for.
    End { start: Timestamp },
    /// Both are known.
    Done(DateTimeInput),
}

impl DateTimePrompt {
    /// Whether `next` is what follows when `entry` was read from the line
    /// that answered the prompt: where the prompt then stands, and the
    /// complaint to show if the entry was refused.
    pub open spec fn follows(
        self,
        entry: Result<Timestamp, ConfigError>,
        next: (DateTimePrompt, Option<ConfigError>),
    ) -> bool {
        match self {
            DateTimePrompt::Start => match entry {
                Ok(start) => next == (DateTimePrompt::End { start }, None::<ConfigError>),
                Err(refusal) => next == (DateTimePrompt::Start, Some(refusal)),
            },
            DateTimePrompt::End { start } => match entry {
                Ok(end) => if start < end {
                    &&& next.0 matches DateTimePrompt::Done(input)
                    &&& input.span().start_at() == start
                    &&& input.span().end_at() == end
                    &&& next.1 is None
                } else {
                    next == (
                        DateTimePrompt::End { start },
                        Some(ConfigError::InvalidDateOrder(start, end)),
                    )
                },
                Err(refusal) => next == (DateTimePrompt::End { start }, Some(refusal)),
            },
            DateTimePrompt::Done(input) => next == (
                DateTimePrompt::Done(input),
                None::<ConfigError>,
            ),
        }
    }

    /// Takes the line that answered the prompt.
    pub fn answer(self, line: &str) -> (next: (DateTimePrompt, Option<ConfigError>))
        ensures
            self.follows(datetime_of(encode_utf8(trimmed(line@))), next),
    {
        match self {
            DateTimePrompt::Start => match DateTimeInput::parse_line(line) {
                Ok(start) => (DateTimePrompt::End { start }, None),
                Err(refusal) => (DateTimePrompt::Start, Some(refusal)),
            },
            DateTimePrompt::End { start } => match DateTimeInput::parse_line(line) {
                Ok(end) => match DateTimeInput::new(start, end) {
                    Ok(input) => (DateTimePrompt::Done(input), None),
                    Err(refusal) => (DateTimePrompt::End { start }, Some(refusal)),
                },
                Err(refusal) => (DateTimePrompt::End { start }, Some(refusal)),
            },
            DateTimePrompt::Done(input) => (DateTimePrompt::Done(input), None),
        }
    }
}

} // verus!
