//! The command line of the analyzer: a file path, then optional flags.
//!
//! `--min-length N` sets the minimum length and `--starts-with C` the prefix;
//! each takes the argument that follows it, whatever that argument is. A
//! value that is no decimal number, or is too large, leaves the minimum
//! length unset; an empty prefix argument leaves the prefix unset. A later
//! flag overrides an earlier one. Anything else is ignored.

use vstd::prelude::*;
use crate::chars::chars_of;
use crate::filter::Configuration;
use crate::order::same_word;
use crate::report::{decimal_digits, digit_char};

verus! {

/// Whether `c` is one of the ten ASCII digits.
pub open spec fn is_digit(c: char) -> bool {
    '0' <= c <= '9'
}

/// The number that a sequence of ASCII digits denotes in base ten.
pub open spec fn decimal_value(digits: Seq<char>) -> nat
    decreases digits.len(),
{
    if digits.len() == 0 {
        0
    } else {
        10 * decimal_value(digits.drop_last()) + (digits.last() as nat - '0' as nat) as nat
    }
}

/// The digits of a length argument: the argument without a leading `+`.
pub open spec fn digits_of(arg: Seq<char>) -> Seq<char> {
    if arg.len() > 0 && arg[0] == '+' {
        arg.drop_first()
    } else {
        arg
    }
}

/// The length that an argument denotes: it is one or more ASCII digits,
/// after an optional `+`, and their value fits in `usize`.
pub open spec fn parsed_length(arg: Seq<char>) -> Option<usize> {
    let digits = digits_of(arg);
    if digits.len() > 0 && (forall|i: int| 0 <= i < digits.len() ==> is_digit(#[trigger] digits[i]))
        && decimal_value(digits) <= usize::MAX {
        Some(decimal_value(digits) as usize)
    } else {
        None
    }
}

/// The prefix that an argument denotes: its first character, if it has one.
pub open spec fn parsed_prefix(arg: Seq<char>) -> Option<char> {
    if arg.len() > 0 {
        Some(arg[0])
    } else {
        None
    }
}

/// The configuration after reading the flags of `args` from position `from`
/// on, starting from `config`.
pub open spec fn with_flags(args: Seq<Seq<char>>, from: int, config: Configuration) -> Configuration
    decreases args.len() - from,
{
    if from < 0 || from >= args.len() {
        config
    } else if args[from] == "--min-length"@ {
        if from + 1 < args.len() {
            with_flags(
                args,
                from + 2,
                (Configuration {
                    min_length: parsed_length(args[from + 1]),
                    start_prefix: config.start_prefix,
                }),
            )
        } else {
            config
        }
    } else if args[from] == "--starts-with"@ {
        if from + 1 < args.len() {
            with_flags(
                args,
                from + 2,
                (Configuration {
                    min_length: config.min_length,
                    start_prefix: parsed_prefix(args[from + 1]),
                }),
            )
        } else {
            config
        }
    } else {
        with_flags(args, from + 1, config)
    }
}

/// The value of a prefix of the digits is at most the value of all of them.
pub proof fn decimal_value_grows(digits: Seq<char>, k: int)
    requires
        0 <= k <= digits.len(),
        forall|i: int| 0 <= i < digits.len() ==> is_digit(#[trigger] digits[i]),
    ensures
        decimal_value(digits.take(k)) <= decimal_value(digits),
    decreases digits.len() - k,
{
    if k == digits.len() {
        assert(digits.take(k) =~= digits);
    } else {
        assert(digits.take(k + 1).drop_last() =~= digits.take(k));
        assert(is_digit(digits[k]));
        assert(digits.take(k + 1).last() == digits[k]);
        decimal_value_grows(digits, k + 1);
    }
}

/// A number written in base ten consists of digits that denote it.
pub proof fn decimal_digits_denote(n: nat)
    ensures
        decimal_digits(n).len() > 0,
        forall|i: int|
            0 <= i < decimal_digits(n).len() ==> is_digit(#[trigger] decimal_digits(n)[i]),
        decimal_digits(n)[0] != '+',
        decimal_value(decimal_digits(n)) == n,
    decreases n,
{
    let digits = decimal_digits(n);
    if n < 10 {
        assert(digits.drop_last() =~= Seq::<char>::empty());
        assert(decimal_value(digits.drop_last()) == 0);
        assert(digits.last() == digit_char(n));
    } else {
        decimal_digits_denote(n / 10);
        assert(digits.drop_last() =~= decimal_digits(n / 10));
        assert(digits.last() == digit_char(n % 10));
    }
}

/// Reading a length that was written in base ten gives the length back.
pub proof fn written_length_reads_back(n: usize)
    ensures
        parsed_length(decimal_digits(n as nat)) == Some(n),
{
    decimal_digits_denote(n as nat);
}

/// Reads a length: ASCII digits after an optional `+`.
pub fn parse_length(arg: &Vec<char>) -> (length: Option<usize>)
    ensures
        length == parsed_length(arg@),
{
    let start: usize = if arg.len() > 0 && arg[0] == '+' {
        1
    } else {
        0
    };
    let ghost digits = digits_of(arg@);
    if arg.len() == start {
        return None;
    }
    let mut value: usize = 0;
    let mut i: usize = start;
    while i < arg.len()
        invariant
            start <= i <= arg@.len(),
            digits == digits_of(arg@),
            digits.len() == arg@.len() - start,
            forall|k: int| 0 <= k < digits.len() ==> digits[k] == arg@[k + start],
            forall|k: int| 0 <= k < i - start ==> is_digit(#[trigger] digits[k]),
            value == decimal_value(digits.take(i - start)),
        decreases arg@.len() - i,
    {
        let c: char = arg[i];
        if !('0' <= c && c <= '9') {
            proof {
                assert(!is_digit(digits[i - start]));
            }
            return None;
        }
        let digit: usize = (c as u32 - '0' as u32) as usize;
        proof {
            assert(digits.take(i - start + 1).drop_last() =~= digits.take(i - start));
            assert(digits.take(i - start + 1).last() == c);
        }
        if value > (usize::MAX - digit) / 10 {
            proof {
                if forall|k: int| 0 <= k < digits.len() ==> is_digit(#[trigger] digits[k]) {
                    decimal_value_grows(digits, i - start + 1);
                }
            }
            return None;
        }
        value = value * 10 + digit;
        i += 1;
    }
    proof {
        assert(digits.take(i - start) =~= digits);
    }
    Some(value)
}

/// Reads a prefix: the first character of the argument.
pub fn parse_prefix(arg: &Vec<char>) -> (prefix: Option<char>)
    ensures
        prefix == parsed_prefix(arg@),
{
    if arg.len() > 0 {
        Some(arg[0])
    } else {
        None
    }
}

/// The arguments as sequences of characters.
pub open spec fn arguments_of(args: Seq<String>) -> Seq<Seq<char>> {
    Seq::new(args.len(), |i: int| args[i]@)
}

/// What the command line asks for.
#[derive(Debug)]
pub struct Arguments {
    /// The file whose text is analyzed.
    pub file_path: String,
    /// The constraints on the tokens that are counted.
    pub config: Configuration,
}

/// Why a command line was refused.
#[derive(Debug, Clone, Copy, PartialEq, Eq)]
pub enum UsageError {
    /// No file path follows the program's name.
    MissingFilePath,
}

/// Reads a command line: the program's name, the file path, then flags.
/// It is refused exactly when the file path is missing.
pub fn parse_arguments(args: &Vec<String>) -> (parsed: Result<Arguments, UsageError>)
    ensures
        match parsed {
            Err(e) => args@.len() < 2 && e == UsageError::MissingFilePath,
            Ok(a) => args@.len() >= 2 && a.file_path@ == args@[1]@ && a.config == with_flags(
                arguments_of(args@),
                2,
                (Configuration { min_length: None, start_prefix: None }),
            ),
        },
{
    if args.len() < 2 {
        return Err(UsageError::MissingFilePath);
    }
    let file_path = args[1].clone();
    let min_flag = chars_of("--min-length");
    let prefix_flag = chars_of("--starts-with");
    let mut config = Configuration { min_length: None, start_prefix: None };
    let ghost all = arguments_of(args@);
    let ghost initial = config;
    let mut i: usize = 2;
    while i < args.len()
        invariant
            2 <= i <= args@.len(),
            all == arguments_of(args@),
            min_flag@ == "--min-length"@,
            prefix_flag@ == "--starts-with"@,
            with_flags(all, i as int, config) == with_flags(all, 2, initial),
        decreases args@.len() - i,
    {
        let flag = chars_of(args[i].as_str());
        proof {
            assert(all[i as int] == flag@);
        }
        if same_word(&flag, &min_flag) {
            if i + 1 < args.len() {
                let value = chars_of(args[i + 1].as_str());
                proof {
                    assert(all[i + 1] == value@);
                }
                config = Configuration {
                    min_length: parse_length(&value),
                    start_prefix: config.start_prefix,
                };
                i += 2;
            } else {
                i += 1;
            }
        } else if same_word(&flag, &prefix_flag) {
            if i + 1 < args.len() {
                let value = chars_of(args[i + 1].as_str());
                proof {
                    assert(all[i + 1] == value@);
                }
                config = Configuration {
                    min_length: config.min_length,
                    start_prefix: parse_prefix(&value),
                };
                i += 2;
            } else {
                i += 1;
            }
        } else {
            i += 1;
        }
    }
    Ok(Arguments { file_path, config })
}

} // verus!
