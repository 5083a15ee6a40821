//! The settings that the service reads once at its start: the port it
//! listens on, the number of permits it hands out, and the directory it
//! writes its logs to.

use vstd::prelude::*;

verus! {

/// The port that the service listens on where none is configured.
pub const DEFAULT_PORT: u16 = 3030;

/// The number of permits where none is configured and the host does not tell
/// how many units it runs in parallel.
pub const FALLBACK_BUDGET: usize = 4;

/// The directory for the logs where none is configured and this one exists.
pub const DEFAULT_LOG_DIRECTORY: &'static str = "/var/log/prolog_service";

/// The directory for the logs where none is configured and the default one
/// does not exist.
pub const FALLBACK_LOG_DIRECTORY: &'static str = "./logs";

/// Whether `c` is one of the digits `0` to `9`.
pub open spec fn is_digit(c: char) -> bool {
    '0' <= c <= '9'
}

/// Whether `digits` is made of digits only.
pub open spec fn all_digits(digits: Seq<char>) -> bool {
    forall|i: int| 0 <= i < digits.len() ==> is_digit(#[trigger] digits[i])
}

/// The number that `digits` is the decimal writing of.
pub open spec fn digits_value(digits: Seq<char>) -> nat
    decreases digits.len(),
{
    if digits.len() == 0 {
        0
    } else {
        digits_value(digits.drop_last()) * 10 + (digits.last() as nat - '0' as nat) as nat
    }
}

/// The part of `text` that holds its digits: all of it but a `+` in front.
pub open spec fn unsigned_part(text: Seq<char>) -> Seq<char> {
    if text.len() > 0 && text[0] == '+' {
        text.skip(1)
    } else {
        text
    }
}

/// The number up to `limit` that `text` writes, if it writes one: an optional
/// `+`, then one digit or more, leading zeros allowed, the number no larger
/// than `limit`. Nothing else may stand in `text`, not even a blank.
pub open spec fn number_of(text: Seq<char>, limit: nat) -> Option<nat> {
    let digits = unsigned_part(text);
    if digits.len() > 0 && all_digits(digits) && digits_value(digits) <= limit {
        Some(digits_value(digits))
    } else {
        None
    }
}

/// The port on which the service listens: the configured one where that text
/// writes a number up to 65535, [`DEFAULT_PORT`] where it does not or nothing
/// is configured.
pub open spec fn listening_port_of(configured: Option<Seq<char>>) -> u16 {
    match configured {
        Some(text) => match number_of(text, u16::MAX as nat) {
            Some(port) => port as u16,
            None => DEFAULT_PORT,
        },
        None => DEFAULT_PORT,
    }
}

/// The number of permits of the service: the configured one where that text
/// writes a number that fits the machine's word, else the number of units
/// that the host runs in parallel where that is known, else
/// [`FALLBACK_BUDGET`].
pub open spec fn concurrency_budget_of(
    configured: Option<Seq<char>>,
    parallelism: Option<usize>,
) -> usize {
    let fallback = match parallelism {
        Some(units) => units,
        None => FALLBACK_BUDGET,
    };
    match configured {
        Some(text) => match number_of(text, usize::MAX as nat) {
            Some(budget) => budget as usize,
            None => fallback,
        },
        None => fallback,
    }
}

/// The view of a text that may be missing.
pub open spec fn text_view(text: Option<&str>) -> Option<Seq<char>> {
    match text {
        Some(text) => Some(text@),
        None => None,
    }
}

/// A number does not get smaller when digits are written behind it.
proof fn lemma_value_grows(digits: Seq<char>, n: int)
    requires
        0 <= n <= digits.len(),
    ensures
        digits_value(digits.take(n)) <= digits_value(digits),
    decreases digits.len() - n,
{
    if n == digits.len() {
        assert(digits.take(n) =~= digits);
    } else {
        lemma_value_grows(digits, n + 1);
        assert(digits.take(n + 1).drop_last() =~= digits.take(n));
    }
}

/// Reads from `text` a number up to `limit`.
pub fn parse_number(text: &str, limit: u64) -> (number: Option<u64>)
    ensures
        match number {
            Some(n) => number_of(text@, limit as nat) == Some(n as nat),
            None => number_of(text@, limit as nat) is None,
        },
{
    let n = text.unicode_len();
    let start: usize = if n > 0 && text.get_char(0) == '+' {
        1
    } else {
        0
    };
    let ghost digits = unsigned_part(text@);
    assert(digits =~= text@.skip(start as int));
    if start == n {
        return None;
    }
    let mut value: u64 = 0;
    let mut i: usize = start;
    while i < n
        invariant
            start <= i <= n,
            n == text@.len(),
            digits == text@.skip(start as int),
            digits == unsigned_part(text@),
            all_digits(digits.take(i - start)),
            value == digits_value(digits.take(i - start)),
            value <= limit,
        decreases n - i,
    {
        let c = text.get_char(i);
        if c < '0' || c > '9' {
            assert(!is_digit(digits[i - start]));
            return None;
        }
        let digit = (c as u64) - ('0' as u64);
        proof {
            let longer = digits.take(i - start + 1);
            assert(longer.drop_last() =~= digits.take(i - start));
            assert(longer.last() == c);
            assert(digits_value(longer) == value * 10 + digit);
            assert forall|k: int| 0 <= k < longer.len() implies is_digit(#[trigger] longer[k]) by {
                if k < i - start {
                    assert(longer[k] == digits.take(i - start)[k]);
                }
            }
            lemma_value_grows(digits, i - start + 1);
        }
        if digit > limit || value > (limit - digit) / 10 {
            return None;
        }
        value = value * 10 + digit;
        i += 1;
    }
    assert(digits.take(n - start) =~= digits);
    Some(value)
}

/// The port on which the service listens, given the text that configures it,
/// if there is one.
pub fn listening_port(configured: Option<&str>) -> (port: u16)
    ensures
        port == listening_port_of(text_view(configured)),
{
    match configured {
        Some(text) => match parse_number(text, 65535) {
            Some(port) => port as u16,
            None => DEFAULT_PORT,
        },
        None => DEFAULT_PORT,
    }
}

/// The directory for the logs: the configured one where there is one, else
/// [`DEFAULT_LOG_DIRECTORY`] where that exists, else
/// [`FALLBACK_LOG_DIRECTORY`].
pub open spec fn log_directory_of(configured: Option<Seq<char>>, default_exists: bool) -> Seq<
    char,
> {
    match configured {
        Some(directory) => directory,
        None => if default_exists {
            DEFAULT_LOG_DIRECTORY@
        } else {
            FALLBACK_LOG_DIRECTORY@
        },
    }
}

/// The directory for the logs, given the one that is configured, if there is
/// one, and whether the default one exists.
pub fn log_directory(configured: Option<&str>, default_exists: bool) -> (directory: String)
    ensures
        directory@ == log_directory_of(text_view(configured), default_exists),
{
    match configured {
        Some(directory) => String::from_str(directory),
        None => if default_exists {
            String::from_str(DEFAULT_LOG_DIRECTORY)
        } else {
            String::from_str(FALLBACK_LOG_DIRECTORY)
        },
    }
}

/// The number of permits of the service, given the text that configures it,
/// if there is one, and the number of units that the host runs in parallel,
/// if that is known.
pub fn concurrency_budget(configured: Option<&str>, parallelism: Option<usize>) -> (budget: usize)
    ensures
        budget == concurrency_budget_of(text_view(configured), parallelism),
{
    let fallback = match parallelism {
        Some(units) => units,
        None => FALLBACK_BUDGET,
    };
    match configured {
        Some(text) => match parse_number(text, usize::MAX as u64) {
            Some(budget) => budget as usize,
            None => fallback,
        },
        None => fallback,
    }
}

} // verus!
