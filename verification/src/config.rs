//! Reading the settings from their written form: durations such as `1m` or
//! `10s`, and counts.

use vstd::prelude::*;
use vstd::string::*;
use crate::settings::Settings;
use crate::text::characters;

verus! {

/// Whether a character is a decimal digit.
pub open spec fn is_digit(c: char) -> bool {
    48 <= c as u32 <= 57
}

/// The number that a string of decimal digits writes.
pub open spec fn number_of(digits: Seq<char>) -> nat
    decreases digits.len(),
{
    if digits.len() == 0 {
        0
    } else {
        number_of(digits.drop_last()) * 10 + (digits.last() as u32 - 48) as nat
    }
}

/// How many decimal digits a text begins with.
pub open spec fn leading_digits(text: Seq<char>) -> nat
    decreases text.len(),
{
    if text.len() == 0 || !is_digit(text.first()) {
        0
    } else {
        1 + leading_digits(text.drop_first())
    }
}

/// The nanoseconds of a unit of time: `ms`, `s`, `m`, `h` or `d`.
pub open spec fn unit_nanos(unit: Seq<char>) -> Option<nat> {
    if unit == seq!['m', 's'] {
        Some(1_000_000)
    } else if unit == seq!['s'] {
        Some(1_000_000_000)
    } else if unit == seq!['m'] {
        Some(60_000_000_000)
    } else if unit == seq!['h'] {
        Some(3_600_000_000_000)
    } else if unit == seq!['d'] {
        Some(86_400_000_000_000)
    } else {
        None
    }
}

/// The duration that a text writes, in nanoseconds: a decimal number followed
/// directly by a unit. There is none where the number or the unit is missing,
/// where anything else stands in the text, or where the duration does not fit
/// 64 bits.
pub open spec fn duration_of(text: Seq<char>) -> Option<u64> {
    let digits = leading_digits(text) as int;
    if digits == 0 {
        None
    } else {
        match unit_nanos(text.skip(digits)) {
            Some(nanos) => if number_of(text.take(digits)) * nanos <= u64::MAX {
                Some((number_of(text.take(digits)) * nanos) as u64)
            } else {
                None
            },
            None => None,
        }
    }
}

/// The count that a text writes: a decimal number and nothing else, if it fits
/// 32 bits.
pub open spec fn count_of(text: Seq<char>) -> Option<u32> {
    if text.len() > 0 && leading_digits(text) == text.len() && number_of(text) <= u32::MAX {
        Some(number_of(text) as u32)
    } else {
        None
    }
}

proof fn lemma_leading_digits(text: Seq<char>, n: int)
    requires
        0 <= n <= text.len(),
        forall|i: int| 0 <= i < n ==> is_digit(#[trigger] text[i]),
        n < text.len() ==> !is_digit(text[n]),
    ensures
        leading_digits(text) == n,
    decreases n,
{
    if n > 0 {
        let rest = text.drop_first();
        assert forall|i: int| 0 <= i < n - 1 implies is_digit(#[trigger] rest[i]) by {
            assert(rest[i] == text[i + 1]);
        }
        if n - 1 < rest.len() {
            assert(rest[n - 1] == text[n]);
        }
        lemma_leading_digits(rest, n - 1);
    }
}

/// Reads the decimal number that `chars` begins with: how many digits it has,
/// and its value if that fits 64 bits.
fn read_number(chars: &Vec<char>) -> (read: (usize, Option<u64>))
    ensures
        read.0 == leading_digits(chars@),
        read.0 <= chars@.len(),
        match read.1 {
            Some(value) => value == number_of(chars@.take(read.0 as int)),
            None => number_of(chars@.take(read.0 as int)) > u64::MAX,
        },
{
    let mut i: usize = 0;
    let mut value: u64 = 0;
    let mut fits = true;
    proof {
        assert(chars@.take(0) =~= Seq::<char>::empty());
    }
    while i < chars.len() && chars[i] as u32 >= 48 && chars[i] as u32 <= 57
        invariant
            i <= chars.len(),
            forall|k: int| 0 <= k < i ==> is_digit(#[trigger] chars@[k]),
            fits ==> value == number_of(chars@.take(i as int)),
            !fits ==> number_of(chars@.take(i as int)) > u64::MAX,
        decreases chars.len() - i,
    {
        let digit = (chars[i] as u32 - 48) as u64;
        proof {
            assert(chars@.take(i + 1).drop_last() =~= chars@.take(i as int));
            assert(chars@.take(i + 1).last() == chars@[i as int]);
        }
        if fits {
            if value <= (u64::MAX - digit) / 10 {
                value = value * 10 + digit;
            } else {
                fits = false;
            }
        }
        i += 1;
    }
    proof {
        lemma_leading_digits(chars@, i as int);
    }
    if fits {
        (i, Some(value))
    } else {
        (i, None)
    }
}

fn unit_of(chars: &Vec<char>, from: usize) -> (nanos: Option<u64>)
    requires
        from <= chars@.len(),
    ensures
        match nanos {
            Some(n) => unit_nanos(chars@.skip(from as int)) == Some(n as nat),
            None => unit_nanos(chars@.skip(from as int)).is_none(),
        },
{
    let ghost unit = chars@.skip(from as int);
    let left = chars.len() - from;
    if left == 1 {
        let c = chars[from];
        proof {
            assert(unit =~= seq![c]);
            assert(seq![c][0] == c);
        }
        if c == 's' {
            Some(1_000_000_000)
        } else if c == 'm' {
            Some(60_000_000_000)
        } else if c == 'h' {
            Some(3_600_000_000_000)
        } else if c == 'd' {
            Some(86_400_000_000_000)
        } else {
            proof {
                assert(unit != seq!['m', 's']) by {
                    assert(seq!['m', 's'].len() == 2);
                }
                assert(unit != seq!['s']) by {
                    assert(seq!['s'][0] == 's');
                }
                assert(unit != seq!['m']) by {
                    assert(seq!['m'][0] == 'm');
                }
                assert(unit != seq!['h']) by {
                    assert(seq!['h'][0] == 'h');
                }
                assert(unit != seq!['d']) by {
                    assert(seq!['d'][0] == 'd');
                }
            }
            None
        }
    } else if left == 2 {
        let c = chars[from];
        let d = chars[from + 1];
        proof {
            assert(unit =~= seq![c, d]);
            assert(unit.len() == 2);
            assert(seq!['s'].len() == 1);
            assert(seq!['m'].len() == 1);
            assert(seq!['h'].len() == 1);
            assert(seq!['d'].len() == 1);
        }
        if c == 'm' && d == 's' {
            Some(1_000_000)
        } else {
            proof {
                assert(unit != seq!['m', 's']) by {
                    assert(seq!['m', 's'][0] == 'm');
                    assert(seq!['m', 's'][1] == 's');
                    assert(unit[0] == c);
                    assert(unit[1] == d);
                }
            }
            None
        }
    } else {
        proof {
            assert(unit.len() == left);
            assert(seq!['m', 's'].len() == 2);
            assert(seq!['s'].len() == 1);
            assert(seq!['m'].len() == 1);
            assert(seq!['h'].len() == 1);
            assert(seq!['d'].len() == 1);
        }
        None
    }
}

/// Reads a duration such as `500ms`, `10s`, `1m`, `2h` or `1d`, in
/// nanoseconds.
pub fn parse_duration(text: &str) -> (parsed: Option<u64>)
    ensures
        parsed == duration_of(text@),
{
    let chars = characters(text);
    let (digits, number) = read_number(&chars);
    if digits == 0 {
        return None;
    }
    match unit_of(&chars, digits) {
        Some(nanos) => match number {
            Some(value) => {
                if value <= u64::MAX / nanos {
                    proof {
                        assert(value * nanos <= u64::MAX) by (nonlinear_arith)
                            requires
                                value <= u64::MAX / nanos,
                                nanos > 0,
                        ;
                    }
                    Some(value * nanos)
                } else {
                    proof {
                        assert(value * nanos > u64::MAX) by (nonlinear_arith)
                            requires
                                value > u64::MAX / nanos,
                                nanos > 0,
                        ;
                    }
                    None
                }
            },
            None => {
                proof {
                    let n = number_of(chars@.take(digits as int));
                    assert(n * nanos > u64::MAX) by (nonlinear_arith)
                        requires
                            n > u64::MAX,
                            nanos >= 1,
                    ;
                }
                None
            },
        },
        None => None,
    }
}

/// Reads a count such as `3`.
pub fn parse_count(text: &str) -> (parsed: Option<u32>)
    ensures
        parsed == count_of(text@),
{
    let chars = characters(text);
    let (digits, number) = read_number(&chars);
    proof {
        assert(chars@.take(chars@.len() as int) =~= chars@);
    }
    if digits == 0 || digits < chars.len() {
        return None;
    }
    match number {
        Some(value) => if value <= u32::MAX as u64 {
            Some(value as u32)
        } else {
            None
        },
        None => None,
    }
}

/// The written settings, each as it was found under its key, if it was.
#[derive(Debug)]
pub struct Properties {
    /// `jmap.push.attempts.interval`
    pub attempts_interval: Option<String>,
    /// `jmap.push.attempts.max`
    pub attempts_max: Option<String>,
    /// `jmap.push.retry.interval`
    pub retry_interval: Option<String>,
    /// `jmap.push.timeout.request`
    pub timeout_request: Option<String>,
    /// `jmap.push.timeout.verify`
    pub timeout_verify: Option<String>,
    /// `jmap.push.throttle`
    pub throttle: Option<String>,
}

/// The setting whose written form cannot be read.
#[derive(Clone, Copy, Debug, PartialEq, Eq, Structural)]
pub enum InvalidProperty {
    AttemptsInterval,
    AttemptsMax,
    RetryInterval,
    TimeoutRequest,
    TimeoutVerify,
    Throttle,
}

impl InvalidProperty {
    /// The key under which the setting is written.
    pub fn key(&self) -> (key: &'static str)
        ensures
            key@ == (match *self {
                InvalidProperty::AttemptsInterval => "jmap.push.attempts.interval"@,
                InvalidProperty::AttemptsMax => "jmap.push.attempts.max"@,
                InvalidProperty::RetryInterval => "jmap.push.retry.interval"@,
                InvalidProperty::TimeoutRequest => "jmap.push.timeout.request"@,
                InvalidProperty::TimeoutVerify => "jmap.push.timeout.verify"@,
                InvalidProperty::Throttle => "jmap.push.throttle"@,
            }),
    {
        match self {
            InvalidProperty::AttemptsInterval => "jmap.push.attempts.interval",
            InvalidProperty::AttemptsMax => "jmap.push.attempts.max",
            InvalidProperty::RetryInterval => "jmap.push.retry.interval",
            InvalidProperty::TimeoutRequest => "jmap.push.timeout.request",
            InvalidProperty::TimeoutVerify => "jmap.push.timeout.verify",
            InvalidProperty::Throttle => "jmap.push.throttle",
        }
    }
}

/// The duration of a written setting, or `default` where nothing is written;
/// none where what is written is no duration.
pub open spec fn duration_or(written: Option<String>, default: u64) -> Option<u64> {
    match written {
        Some(text) => duration_of(text@),
        None => Some(default),
    }
}

/// The count of a written setting, or `default` where nothing is written; none
/// where what is written is no count.
pub open spec fn count_or(written: Option<String>, default: u32) -> Option<u32> {
    match written {
        Some(text) => count_of(text@),
        None => Some(default),
    }
}

/// The settings that the properties write, with the standard value for each
/// one that is not written; or the first setting, in the order of the fields,
/// that cannot be read.
pub open spec fn settings_of(properties: Properties) -> Result<Settings, InvalidProperty> {
    if duration_or(properties.attempts_interval, 60_000_000_000).is_none() {
        Err(InvalidProperty::AttemptsInterval)
    } else if count_or(properties.attempts_max, 3).is_none() {
        Err(InvalidProperty::AttemptsMax)
    } else if duration_or(properties.retry_interval, 1_000_000_000).is_none() {
        Err(InvalidProperty::RetryInterval)
    } else if duration_or(properties.timeout_request, 10_000_000_000).is_none() {
        Err(InvalidProperty::TimeoutRequest)
    } else if duration_or(properties.timeout_verify, 60_000_000_000).is_none() {
        Err(InvalidProperty::TimeoutVerify)
    } else if duration_or(properties.throttle, 1_000_000_000).is_none() {
        Err(InvalidProperty::Throttle)
    } else {
        Ok(
            Settings {
                push_attempt_interval: duration_or(
                    properties.attempts_interval,
                    60_000_000_000,
                ).unwrap(),
                push_attempts_max: count_or(properties.attempts_max, 3).unwrap(),
                push_retry_interval: duration_or(properties.retry_interval, 1_000_000_000).unwrap(),
                push_timeout: duration_or(properties.timeout_request, 10_000_000_000).unwrap(),
                push_verify_timeout: duration_or(
                    properties.timeout_verify,
                    60_000_000_000,
                ).unwrap(),
                push_throttle: duration_or(properties.throttle, 1_000_000_000).unwrap(),
            },
        )
    }
}

fn read_duration(written: &Option<String>, default: u64) -> (read: Option<u64>)
    ensures
        read == duration_or(*written, default),
{
    match written {
        Some(text) => parse_duration(text.as_str()),
        None => Some(default),
    }
}

fn read_count(written: &Option<String>, default: u32) -> (read: Option<u32>)
    ensures
        read == count_or(*written, default),
{
    match written {
        Some(text) => parse_count(text.as_str()),
        None => Some(default),
    }
}

impl Settings {
    /// Reads the settings from their written form.
    pub fn from_properties(properties: &Properties) -> (settings: Result<Settings, InvalidProperty>)
        ensures
            settings == settings_of(*properties),
    {
        let standard = Settings::standard();
        let push_attempt_interval = match read_duration(
            &properties.attempts_interval,
            standard.push_attempt_interval,
        ) {
            Some(value) => value,
            None => {
                return Err(InvalidProperty::AttemptsInterval);
            },
        };
        let push_attempts_max = match read_count(
            &properties.attempts_max,
            standard.push_attempts_max,
        ) {
            Some(value) => value,
            None => {
                return Err(InvalidProperty::AttemptsMax);
            },
        };
        let push_retry_interval = match read_duration(
            &properties.retry_interval,
            standard.push_retry_interval,
        ) {
            Some(value) => value,
            None => {
                return Err(InvalidProperty::RetryInterval);
            },
        };
        let push_timeout = match read_duration(&properties.timeout_request, standard.push_timeout) {
            Some(value) => value,
            None => {
                return Err(InvalidProperty::TimeoutRequest);
            },
        };
        let push_verify_timeout = match read_duration(
            &properties.timeout_verify,
            standard.push_verify_timeout,
        ) {
            Some(value) => value,
            None => {
                return Err(InvalidProperty::TimeoutVerify);
            },
        };
        let push_throttle = match read_duration(&properties.throttle, standard.push_throttle) {
            Some(value) => value,
            None => {
                return Err(InvalidProperty::Throttle);
            },
        };
        Ok(
            Settings {
                push_attempt_interval,
                push_attempts_max,
                push_retry_interval,
                push_timeout,
                push_verify_timeout,
                push_throttle,
            },
        )
    }
}

} // verus!
