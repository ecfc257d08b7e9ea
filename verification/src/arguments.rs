//! The values of command-line arguments.

use vstd::prelude::*;

use crate::clock::Duration;
use crate::text::{decimal, wide_decimal_text};

verus! {

/// `std::num::ParseIntError`: why a text is no number.
#[verifier::external_type_specification]
#[verifier::external_body]
pub struct ExParseIntError(std::num::ParseIntError);

/// The value of one decimal digit.
pub open spec fn digit_value(digit: char) -> Option<nat> {
    if '0' <= digit <= '9' {
        Some((digit as u32 - '0' as u32) as nat)
    } else {
        None
    }
}

/// The number that decimal digits write; nothing where there are none, or where
/// another character stands among them.
pub open spec fn digits_value(digits: Seq<char>) -> Option<nat>
    decreases digits.len(),
{
    if digits.len() == 0 {
        None
    } else {
        match digit_value(digits.last()) {
            None => None,
            Some(last) => if digits.len() == 1 {
                Some(last)
            } else {
                match digits_value(digits.drop_last()) {
                    None => None,
                    Some(rest) => Some(rest * 10 + last),
                }
            },
        }
    }
}

/// The number that a text writes: decimal digits, after an optional plus sign.
pub open spec fn number_read(text: Seq<char>) -> Option<nat> {
    if text.len() > 0 && text[0] == '+' {
        digits_value(text.drop_first())
    } else {
        digits_value(text)
    }
}

/// Why `str::parse` refuses a text, where it reads an unsigned number of at most
/// `largest`.
pub uninterp spec fn number_error(text: Seq<char>, largest: nat) -> std::num::ParseIntError;

/// How a refused number is put into words.
pub uninterp spec fn number_error_words(error: std::num::ParseIntError) -> Seq<char>;

/// `str::parse::<usize>`: the number that a text writes in decimal, if it fits. The
/// error depends on the text and on what fits, and has a name.
#[verifier::external_body]
fn parse_usize(text: &str) -> (result: Result<usize, std::num::ParseIntError>)
    ensures
        match result {
            Ok(number) => number_read(text@) == Some(number as nat),
            Err(error) => {
                &&& error == number_error(text@, usize::MAX as nat)
                &&& number_read(text@) matches Some(number) ==> number > usize::MAX
            },
        },
{
    text.parse::<usize>()
}

/// `str::parse::<u64>`: the number that a text writes in decimal, if it fits. The
/// error depends on the text and on what fits, and has a name.
#[verifier::external_body]
fn parse_u64(text: &str) -> (result: Result<u64, std::num::ParseIntError>)
    ensures
        match result {
            Ok(number) => number_read(text@) == Some(number as nat),
            Err(error) => {
                &&& error == number_error(text@, u64::MAX as nat)
                &&& number_read(text@) matches Some(number) ==> number > u64::MAX
            },
        },
{
    text.parse::<u64>()
}

/// `ParseIntError::to_string`: the error in words, which depend on it alone and have
/// a name.
#[verifier::external_body]
fn parse_error_text(error: &std::num::ParseIntError) -> (text: String)
    ensures
        text@ == number_error_words(*error),
{
    error.to_string()
}

/// The sizes that a Space may have.
pub open spec fn documented_size(size: nat) -> bool {
    size == 8 || size == 32 || size == 64 || size == 128 || size == 256
}

/// How many participants a Space has: one of the documented sizes.
pub fn parse_participants_per_space(value: &str) -> (result: Result<usize, String>)
    ensures
        match number_read(value@) {
            Some(number) if number <= usize::MAX => if documented_size(number) {
                result matches Ok(parsed) && parsed == number
            } else {
                result matches Err(message) && message@
                    == "participants per Space must be 8, 32, 64, 128, or 256"@
            },
            _ => result matches Err(message) && message@ == number_error_words(
                number_error(value@, usize::MAX as nat),
            ),
        },
{
    match parse_usize(value) {
        Err(error) => Err(parse_error_text(&error)),
        Ok(parsed) => if parsed == 8 || parsed == 32 || parsed == 64 || parsed == 128 || parsed
            == 256 {
            Ok(parsed)
        } else {
            Err("participants per Space must be 8, 32, 64, 128, or 256".to_owned())
        },
    }
}

/// How many participants there are: at least one, at most ten thousand.
pub fn parse_participants(value: &str) -> (result: Result<usize, String>)
    ensures
        match number_read(value@) {
            Some(number) if number <= usize::MAX => if 1 <= number <= 10_000 {
                result matches Ok(parsed) && parsed == number
            } else {
                result matches Err(message) && message@
                    == "participants must be between 1 and 10000"@
            },
            _ => result matches Err(message) && message@ == number_error_words(
                number_error(value@, usize::MAX as nat),
            ),
        },
{
    match parse_usize(value) {
        Err(error) => Err(parse_error_text(&error)),
        Ok(parsed) => if 1 <= parsed && parsed <= 10_000 {
            Ok(parsed)
        } else {
            Err("participants must be between 1 and 10000".to_owned())
        },
    }
}

/// The number part of a duration, and how many milliseconds its unit has.
pub open spec fn duration_parts(text: Seq<char>) -> Option<(Seq<char>, nat)> {
    let n = text.len() as int;
    if n >= 2 && text[n - 2] == 'm' && text[n - 1] == 's' {
        Some((text.take(n - 2), 1))
    } else if n >= 1 && text[n - 1] == 's' {
        Some((text.take(n - 1), 1_000))
    } else if n >= 1 && text[n - 1] == 'm' {
        Some((text.take(n - 1), 60_000))
    } else {
        None
    }
}

/// A duration: a number and one of the units ms, s and m.
pub fn parse_duration(value: &str) -> (result: Result<Duration, String>)
    ensures
        match duration_parts(value@) {
            None => result matches Err(message) && message@
                == "use a duration suffix: ms, s, or m"@,
            Some((number, unit)) => match number_read(number) {
                Some(amount) if amount <= u64::MAX => if amount * unit <= u64::MAX {
                    result matches Ok(span) && span@ == amount * unit * 1_000_000
                } else {
                    result matches Err(message) && message@ == "duration is too large"@
                },
                _ => result matches Err(message) && message@ == number_error_words(
                    number_error(number, u64::MAX as nat),
                ),
            },
        },
{
    let n: usize = value.unicode_len();
    let (number, unit): (&str, u64) = if n >= 2 && value.get_char(n - 2) == 'm' && value.get_char(
        n - 1,
    ) == 's' {
        (value.substring_char(0, n - 2), 1)
    } else if n >= 1 && value.get_char(n - 1) == 's' {
        (value.substring_char(0, n - 1), 1_000)
    } else if n >= 1 && value.get_char(n - 1) == 'm' {
        (value.substring_char(0, n - 1), 60_000)
    } else {
        return Err("use a duration suffix: ms, s, or m".to_owned());
    };
    match parse_u64(number) {
        Err(error) => Err(parse_error_text(&error)),
        Ok(amount) => match amount.checked_mul(unit) {
            Some(millis) => Ok(Duration::from_millis(millis)),
            None => Err("duration is too large".to_owned()),
        },
    }
}

/// The whole milliseconds of a span, as far as they fit.
pub fn duration_millis(span: Duration) -> (millis: u64)
    ensures
        millis == if span@ / 1_000_000 <= u64::MAX {
            span@ / 1_000_000
        } else {
            u64::MAX as nat
        },
{
    let nanos: u128 = span.as_nanos();
    let millis: u128 = nanos / 1_000_000;
    if millis <= u64::MAX as u128 {
        millis as u64
    } else {
        u64::MAX
    }
}

/// A span as an argument, in milliseconds.
pub fn duration_argument(span: Duration) -> (text: String)
    ensures
        text@ == decimal(span@ / 1_000_000) + "ms"@,
{
    let nanos: u128 = span.as_nanos();
    let mut text = wide_decimal_text(nanos / 1_000_000);
    text.append("ms");
    text
}

proof fn lemma_decimal_read(n: nat)
    ensures
        digits_value(decimal(n)) == Some(n),
        decimal(n).len() > 0,
        '0' <= decimal(n)[0] <= '9',
    decreases n,
{
    if n >= 10 {
        lemma_decimal_read(n / 10);
        assert(decimal(n).drop_last() =~= decimal(n / 10));
        assert(decimal(n)[0] == decimal(n / 10)[0]);
    }
}

/// What is written as an argument is read back: whole milliseconds, as far as
/// they fit.
pub proof fn a_duration_argument_is_read_back(millis: nat)
    requires
        millis <= u64::MAX,
    ensures
        duration_parts(decimal(millis) + "ms"@) == Some((decimal(millis), 1nat)),
        number_read(decimal(millis)) == Some(millis),
{
    reveal_strlit("ms");
    lemma_decimal_read(millis);
    let text = decimal(millis) + "ms"@;
    assert(text.take(text.len() - 2) =~= decimal(millis));
}

/// A number with a unit is as many milliseconds, seconds or minutes.
pub proof fn a_duration_counts_its_unit(
    number: nat,
    millis: &str,
    seconds: &str,
    minutes: &str,
    in_millis: Result<Duration, String>,
    in_seconds: Result<Duration, String>,
    in_minutes: Result<Duration, String>,
)
    requires
        number * 60_000 <= u64::MAX,
        millis@ == decimal(number) + seq!['m', 's'],
        seconds@ == decimal(number) + seq!['s'],
        minutes@ == decimal(number) + seq!['m'],
        call_ensures(parse_duration, (millis,), in_millis),
        call_ensures(parse_duration, (seconds,), in_seconds),
        call_ensures(parse_duration, (minutes,), in_minutes),
    ensures
        in_millis matches Ok(span) && span@ == number * 1_000_000,
        in_seconds matches Ok(span) && span@ == number * 1_000_000_000,
        in_minutes matches Ok(span) && span@ == number * 60 * 1_000_000_000,
{
    lemma_decimal_read(number);
    lemma_decimal_digits(number);
    let digits = decimal(number);
    let n = digits.len() as int;
    assert(millis@.take(n) =~= digits);
    assert(seconds@.take(n) =~= digits);
    assert(minutes@.take(n) =~= digits);
    assert(millis@.len() == n + 2);
    assert(millis@[n] == 'm' && millis@[n + 1] == 's');
    assert(seconds@[n - 1] == digits[n - 1]);
    assert(minutes@[n] == 'm');
    assert(number_read(digits) == Some(number));
    let unit: nat = 1;
    assert(number * unit == number) by (nonlinear_arith)
        requires
            unit == 1,
    ;
    assert(duration_parts(millis@) == Some((digits, unit)));
    assert(number * unit <= u64::MAX);
}

proof fn lemma_decimal_digits(n: nat)
    ensures
        forall|i: int| 0 <= i < decimal(n).len() ==> '0' <= #[trigger] decimal(n)[i] <= '9',
        decimal(n).len() > 0,
    decreases n,
{
    if n >= 10 {
        lemma_decimal_digits(n / 10);
        let rest = decimal(n / 10);
        assert forall|i: int| 0 <= i < decimal(n).len() implies '0' <= #[trigger] decimal(n)[i]
            <= '9' by {
            if i < rest.len() {
                assert(decimal(n)[i] == rest[i]);
            }
        }
    }
}

/// A number of participants is taken from 1 to 10000, both included, and the size of a
/// Space where it is 8, 32, 64, 128 or 256. What is taken is the number that was written.
pub proof fn a_number_is_taken_as_written(
    number: nat,
    value: &str,
    participants: Result<usize, String>,
    size: Result<usize, String>,
)
    requires
        value@ == decimal(number),
        call_ensures(parse_participants, (value,), participants),
        call_ensures(parse_participants_per_space, (value,), size),
    ensures
        participants is Ok <==> 1 <= number <= 10_000,
        participants matches Ok(parsed) ==> parsed == number,
        size is Ok <==> number == 8 || number == 32 || number == 64 || number == 128 || number
            == 256,
        size matches Ok(parsed) ==> parsed == number,
{
    lemma_decimal_read(number);
    assert(number_read(decimal(number)) == Some(number));
}

} // verus!
