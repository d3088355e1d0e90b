//! Instants and parse failures shared by the tokenizer and the parsers.

use vstd::prelude::*;
use vstd::string::*;

verus! {

/// What went wrong while reading a lease database.
#[derive(Clone, Copy, Debug, PartialEq, Eq, Structural)]
pub enum ErrorKind {
    /// A token was required but the input had ended.
    UnexpectedEnd,
    /// A value of a statement was required; a terminator or a brace was found.
    ExpectedValue,
    /// A statement terminator was required; another token was found.
    ExpectedTerminator,
    /// A token inside a lease block does not start a statement.
    UnexpectedOption,
    /// A token at the top level does not start a declaration.
    UnexpectedToken,
    /// The token after a leased address is not an opening brace.
    ExpectedOpenBrace,
    /// The statements of a lease block are not followed by a closing brace.
    ExpectedCloseBrace,
    /// The weekday of an instant is not a digit from 0 to 6.
    InvalidWeekday,
    /// The date of an instant is not a calendar date written `YYYY/MM/DD`.
    InvalidDate,
    /// The time of an instant is not a time of day written `HH:MM:SS`.
    InvalidTime,
    /// A word is not one of the lease option keywords.
    UnrecognizedOption,
    /// A word is not one of the declaration keywords.
    UnsupportedDeclaration,
}

/// A parse failure: its kind and the text that caused it (empty at the end
/// of the input).
#[derive(Debug, PartialEq, Eq)]
pub struct ParseError {
    pub kind: ErrorKind,
    pub found: String,
}

/// The mathematical value of a [`ParseError`].
pub ghost struct ParseErrorView {
    pub kind: ErrorKind,
    pub found: Seq<char>,
}

impl View for ParseError {
    type V = ParseErrorView;

    open spec fn view(&self) -> ParseErrorView {
        ParseErrorView { kind: self.kind, found: self.found@ }
    }
}

impl Clone for ParseError {
    fn clone(&self) -> (r: ParseError)
        ensures
            r@ == self@,
    {
        ParseError { kind: self.kind, found: self.found.clone() }
    }
}

/// The failure reported when a required token is missing at the end of input.
pub open spec fn end_of_input() -> ParseErrorView {
    ParseErrorView { kind: ErrorKind::UnexpectedEnd, found: Seq::empty() }
}

/// The words that open the message of each kind of failure.
pub open spec fn kind_prefix(kind: ErrorKind) -> Seq<char> {
    match kind {
        ErrorKind::UnexpectedEnd => "Unexpected end of input"@,
        ErrorKind::ExpectedValue => "Expected a value, found "@,
        ErrorKind::ExpectedTerminator => "Expected semicolon, found "@,
        ErrorKind::UnexpectedOption => "Unexpected option "@,
        ErrorKind::UnexpectedToken => "Unexpected "@,
        ErrorKind::ExpectedOpenBrace => "Expected '{', got "@,
        ErrorKind::ExpectedCloseBrace => "Expected end of section with '}', got "@,
        ErrorKind::InvalidWeekday => "Invalid weekday "@,
        ErrorKind::InvalidDate => "Invalid date "@,
        ErrorKind::InvalidTime => "Invalid time "@,
        ErrorKind::UnrecognizedOption => "Not a recognized lease option: "@,
        ErrorKind::UnsupportedDeclaration => "Declaration is not supported: "@,
    }
}

impl ParseError {
    /// A failure of the given kind caused by the given text.
    pub fn new(kind: ErrorKind, found: &str) -> (e: ParseError)
        ensures
            e@ == (ParseErrorView { kind, found: found@ }),
    {
        ParseError { kind, found: found.to_owned() }
    }

    /// The failure for a missing token at the end of the input.
    pub fn at_end() -> (e: ParseError)
        ensures
            e@ == end_of_input(),
    {
        ParseError { kind: ErrorKind::UnexpectedEnd, found: String::new() }
    }

    /// The human-readable message: the kind's opening words, then the text
    /// that caused the failure.
    pub fn to_string(&self) -> (s: String)
        ensures
            s@ == kind_prefix(self.kind) + self.found@,
    {
        let prefix: &str = match self.kind {
            ErrorKind::UnexpectedEnd => "Unexpected end of input",
            ErrorKind::ExpectedValue => "Expected a value, found ",
            ErrorKind::ExpectedTerminator => "Expected semicolon, found ",
            ErrorKind::UnexpectedOption => "Unexpected option ",
            ErrorKind::UnexpectedToken => "Unexpected ",
            ErrorKind::ExpectedOpenBrace => "Expected '{', got ",
            ErrorKind::ExpectedCloseBrace => "Expected end of section with '}', got ",
            ErrorKind::InvalidWeekday => "Invalid weekday ",
            ErrorKind::InvalidDate => "Invalid date ",
            ErrorKind::InvalidTime => "Invalid time ",
            ErrorKind::UnrecognizedOption => "Not a recognized lease option: ",
            ErrorKind::UnsupportedDeclaration => "Declaration is not supported: ",
        };
        let mut s = prefix.to_owned();
        s.append(self.found.as_str());
        s
    }
}

/// Decides whether two texts are the same sequence of characters.
pub fn same_text(a: &str, b: &str) -> (r: bool)
    ensures
        r == (a@ == b@),
{
    a.to_owned() == b.to_owned()
}

/// A point in time as a lease database writes it: a weekday, a calendar date
/// and a time of day. Instants are ordered by date and time; the weekday is
/// kept but takes no part in the order.
#[derive(Clone, Copy, Debug, PartialEq, Eq, Structural)]
pub struct Date {
    pub weekday: u8,
    pub year: u16,
    pub month: u8,
    pub day: u8,
    pub hour: u8,
    pub minute: u8,
    pub second: u8,
}

/// Whether `c` is one of the ten decimal digits.
pub open spec fn is_digit(c: char) -> bool {
    '0' <= c && c <= '9'
}

/// The number that the decimal digit `c` stands for.
pub open spec fn digit_value(c: char) -> int {
    c as int - '0' as int
}

/// The number written by the two digits of `s` at `i` and `i + 1`.
pub open spec fn pair_value(s: Seq<char>, i: int) -> int {
    digit_value(s[i]) * 10 + digit_value(s[i + 1])
}

/// Whether `s` has the shape `DD?DD?DD` after `lead` leading digits, with
/// `sep` in place of each `?`.
pub open spec fn has_shape(s: Seq<char>, lead: int, sep: char) -> bool {
    &&& s.len() == lead + 6
    &&& forall|i: int| 0 <= i < lead ==> is_digit(#[trigger] s[i])
    &&& s[lead] == sep
    &&& is_digit(s[lead + 1])
    &&& is_digit(s[lead + 2])
    &&& s[lead + 3] == sep
    &&& is_digit(s[lead + 4])
    &&& is_digit(s[lead + 5])
}

/// Whether `s` is a weekday: one digit from 0 to 6.
pub open spec fn weekday_ok(s: Seq<char>) -> bool {
    s.len() == 1 && '0' <= s[0] && s[0] <= '6'
}

/// The year written by the first four characters of a date.
pub open spec fn year_value(s: Seq<char>) -> int {
    pair_value(s, 0) * 100 + pair_value(s, 2)
}

/// Whether `s` is a calendar date `YYYY/MM/DD` with a month from 1 to 12 and
/// a day from 1 to 31.
pub open spec fn date_ok(s: Seq<char>) -> bool {
    &&& has_shape(s, 4, '/')
    &&& 1 <= pair_value(s, 5) <= 12
    &&& 1 <= pair_value(s, 8) <= 31
}

/// Whether `s` is a time of day `HH:MM:SS` with an hour below 24, a minute
/// below 60 and a second of at most 60 (a leap second).
pub open spec fn time_ok(s: Seq<char>) -> bool {
    &&& has_shape(s, 2, ':')
    &&& pair_value(s, 0) <= 23
    &&& pair_value(s, 3) <= 59
    &&& pair_value(s, 6) <= 60
}

/// The instant that three well-formed texts denote.
pub open spec fn date_of(weekday: Seq<char>, date: Seq<char>, time: Seq<char>) -> Date {
    Date {
        weekday: digit_value(weekday[0]) as u8,
        year: year_value(date) as u16,
        month: pair_value(date, 5) as u8,
        day: pair_value(date, 8) as u8,
        hour: pair_value(time, 0) as u8,
        minute: pair_value(time, 3) as u8,
        second: pair_value(time, 6) as u8,
    }
}

/// What building an instant from three texts gives: the instant, or the
/// failure for the first text that is malformed.
pub open spec fn instant_from(weekday: Seq<char>, date: Seq<char>, time: Seq<char>) -> Result<
    Date,
    ParseErrorView,
> {
    if !weekday_ok(weekday) {
        Err(ParseErrorView { kind: ErrorKind::InvalidWeekday, found: weekday })
    } else if !date_ok(date) {
        Err(ParseErrorView { kind: ErrorKind::InvalidDate, found: date })
    } else if !time_ok(time) {
        Err(ParseErrorView { kind: ErrorKind::InvalidTime, found: time })
    } else {
        Ok(date_of(weekday, date, time))
    }
}

/// Reads the digit at `i`, if the character there is one.
fn digit_at(s: &str, i: usize) -> (d: Option<u8>)
    requires
        i < s@.len(),
    ensures
        d is Some <==> is_digit(s@[i as int]),
        d is Some ==> d.unwrap() as int == digit_value(s@[i as int]) && d.unwrap() <= 9,
{
    let c = s.get_char(i);
    if '0' <= c && c <= '9' {
        Some(((c as u32) - ('0' as u32)) as u8)
    } else {
        None
    }
}

/// Reads the two-digit number at `i`, if two digits stand there.
fn pair_at(s: &str, i: usize) -> (d: Option<u8>)
    requires
        i <= 8,
        i + 1 < s@.len(),
    ensures
        d is Some <==> is_digit(s@[i as int]) && is_digit(s@[i + 1]),
        d is Some ==> d.unwrap() as int == pair_value(s@, i as int) && d.unwrap() <= 99,
{
    match (digit_at(s, i), digit_at(s, i + 1)) {
        (Some(hi), Some(lo)) => Some(hi * 10 + lo),
        _ => None,
    }
}

/// Reads the two numbers behind the separators of a text of shape
/// `..?DD?DD`, where `lead` characters come before the first separator.
fn tail_pairs(s: &str, lead: usize, sep: char) -> (r: Option<(u8, u8)>)
    requires
        lead <= 4,
        s@.len() == lead + 6,
    ensures
        r is Some <==> {
            &&& s@[lead as int] == sep
            &&& is_digit(s@[lead + 1])
            &&& is_digit(s@[lead + 2])
            &&& s@[lead + 3] == sep
            &&& is_digit(s@[lead + 4])
            &&& is_digit(s@[lead + 5])
        },
        r is Some ==> r.unwrap().0 as int == pair_value(s@, lead + 1) && r.unwrap().1 as int
            == pair_value(s@, lead + 4),
{
    if s.get_char(lead) != sep || s.get_char(lead + 3) != sep {
        return None;
    }
    match (pair_at(s, lead + 1), pair_at(s, lead + 4)) {
        (Some(a), Some(b)) => Some((a, b)),
        _ => None,
    }
}

impl Date {
    /// Whether this instant lies strictly before `other`.
    pub open spec fn before(self, other: Date) -> bool {
        ||| self.year < other.year
        ||| self.year == other.year && self.month < other.month
        ||| self.year == other.year && self.month == other.month && self.day < other.day
        ||| self.year == other.year && self.month == other.month && self.day == other.day
            && self.hour < other.hour
        ||| self.year == other.year && self.month == other.month && self.day == other.day
            && self.hour == other.hour && self.minute < other.minute
        ||| self.year == other.year && self.month == other.month && self.day == other.day
            && self.hour == other.hour && self.minute == other.minute && self.second
            < other.second
    }

    /// Whether this instant and `other` are the same date and time.
    pub open spec fn same_instant(self, other: Date) -> bool {
        !self.before(other) && !other.before(self)
    }

    /// Builds the instant that a weekday, a date and a time denote, or fails
    /// with the first of the three that is malformed.
    pub fn from(weekday: &str, date: &str, time: &str) -> (r: Result<Date, ParseError>)
        ensures
            match instant_from(weekday@, date@, time@) {
                Ok(d) => r == Ok::<Date, ParseError>(d),
                Err(e) => r is Err && r.unwrap_err()@ == e,
            },
    {
        if weekday.unicode_len() != 1 {
            return Err(ParseError::new(ErrorKind::InvalidWeekday, weekday));
        }
        let wd = match digit_at(weekday, 0) {
            Some(d) if d <= 6 => d,
            _ => { return Err(ParseError::new(ErrorKind::InvalidWeekday, weekday)); },
        };
        if date.unicode_len() != 10 {
            return Err(ParseError::new(ErrorKind::InvalidDate, date));
        }
        let (century, years) = match (pair_at(date, 0), pair_at(date, 2)) {
            (Some(a), Some(b)) => (a, b),
            _ => { return Err(ParseError::new(ErrorKind::InvalidDate, date)); },
        };
        let (month, day) = match tail_pairs(date, 4, '/') {
            Some((m, d)) if 1 <= m && m <= 12 && 1 <= d && d <= 31 => (m, d),
            _ => { return Err(ParseError::new(ErrorKind::InvalidDate, date)); },
        };
        if time.unicode_len() != 8 {
            return Err(ParseError::new(ErrorKind::InvalidTime, time));
        }
        let hour = match pair_at(time, 0) {
            Some(h) if h <= 23 => h,
            _ => { return Err(ParseError::new(ErrorKind::InvalidTime, time)); },
        };
        let (minute, second) = match tail_pairs(time, 2, ':') {
            Some((m, s)) if m <= 59 && s <= 60 => (m, s),
            _ => { return Err(ParseError::new(ErrorKind::InvalidTime, time)); },
        };
        let year: u16 = (century as u16) * 100 + (years as u16);
        Ok(Date { weekday: wd, year, month, day, hour, minute, second })
    }

    /// Decides whether this instant lies strictly before `other`.
    pub fn is_before(&self, other: &Date) -> (r: bool)
        ensures
            r == self.before(*other),
    {
        if self.year != other.year {
            self.year < other.year
        } else if self.month != other.month {
            self.month < other.month
        } else if self.day != other.day {
            self.day < other.day
        } else if self.hour != other.hour {
            self.hour < other.hour
        } else if self.minute != other.minute {
            self.minute < other.minute
        } else {
            self.second < other.second
        }
    }

    /// Decides whether this instant lies strictly after `other`.
    pub fn is_after(&self, other: &Date) -> (r: bool)
        ensures
            r == other.before(*self),
    {
        other.is_before(self)
    }
}

/// The order of instants is a strict order, total up to the weekday: no
/// instant is before itself, `before` is transitive, and of two instants
/// one is before the other unless they are the same date and time.
pub proof fn instants_are_ordered(a: Date, b: Date, c: Date)
    ensures
        !a.before(a),
        a.before(b) && b.before(c) ==> a.before(c),
        a.before(b) ==> !b.before(a),
        a.before(b) || b.before(a) || (a.year == b.year && a.month == b.month && a.day == b.day
            && a.hour == b.hour && a.minute == b.minute && a.second == b.second),
{
}

} // verus!
