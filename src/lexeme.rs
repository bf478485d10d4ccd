use crate::error::BasicError;
use vstd::prelude::*;
use vstd::string::StringSliceAdditionalSpecFns;

verus! {

/// What a numeric lexeme reads as, once the spaces in it are ignored.
#[derive(PartialEq, Eq, Structural, Debug, Clone, Copy)]
pub enum Decimal {
    /// The lexeme holds no digit, or a character that is neither a digit nor a space.
    Malformed,
    /// A run of digits whose value exceeds the limit asked for.
    TooLarge,
    /// A run of digits whose value is within the limit.
    Value(u64),
}

pub open spec fn is_digit(c: char) -> bool {
    '0' <= c && c <= '9'
}

/// The characters of `s` other than spaces, in order.
pub open spec fn without_spaces(s: Seq<char>) -> Seq<char>
    decreases s.len(),
{
    if s.len() == 0 {
        Seq::empty()
    } else if s.last() == ' ' {
        without_spaces(s.drop_last())
    } else {
        without_spaces(s.drop_last()).push(s.last())
    }
}

pub open spec fn all_digits(d: Seq<char>) -> bool {
    forall|i: int| 0 <= i < d.len() ==> is_digit(#[trigger] d[i])
}

/// The value of a run of decimal digits, most significant first.
pub open spec fn digits_value(d: Seq<char>) -> nat
    decreases d.len(),
{
    if d.len() == 0 {
        0
    } else {
        digits_value(d.drop_last()) * 10 + (d.last() as nat - '0' as nat) as nat
    }
}

/// How the lexeme `s` reads as a decimal number bounded by `limit`.
pub open spec fn decimal_of(s: Seq<char>, limit: nat) -> Decimal {
    let d = without_spaces(s);
    if d.len() == 0 || !all_digits(d) {
        Decimal::Malformed
    } else if digits_value(d) > limit {
        Decimal::TooLarge
    } else {
        Decimal::Value(digits_value(d) as u64)
    }
}

/// The character at position `i` of an ASCII string.
pub(crate) fn char_at(s: &str, i: usize) -> (c: char)
    requires
        s.is_ascii(),
        i < s@.len(),
    ensures
        c == s@[i as int],
{
    proof {
        vstd::string::is_ascii_spec_bytes(s);
    }
    let b = s.as_bytes();
    b[i] as char
}

/// Reads the digits of `s` (spaces are ignored) as a number no larger than `limit`.
pub fn parse_decimal(s: &str, limit: u64) -> (r: Decimal)
    ensures
        r == decimal_of(s@, limit as nat),
{
    if !s.is_ascii() {
        proof {
            // a non-ASCII character is neither a digit nor a space
            let k = choose|k: int| 0 <= k < s@.len() && !('\0' <= #[trigger] s@[k] <= '\u{7f}');
            lemma_kept(s@, k);
            let d = without_spaces(s@);
            let j = choose|j: int| 0 <= j < d.len() && d[j] == s@[k];
            assert(!is_digit(d[j]));
        }
        return Decimal::Malformed;
    }
    proof {
        vstd::string::is_ascii_spec_bytes(s);
    }
    let n = s.as_bytes().len();
    let mut i: usize = 0;
    let mut seen_digit = false;
    let mut digits_only = true;
    let mut too_large = false;
    let mut value: u64 = 0;
    while i < n
        invariant
            n == s@.len(),
            s.is_ascii(),
            i <= n,
            seen_digit == (without_spaces(s@.take(i as int)).len() > 0),
            digits_only == all_digits(without_spaces(s@.take(i as int))),
            digits_only ==> too_large == (digits_value(without_spaces(s@.take(i as int))) > limit),
            digits_only && !too_large ==> value == digits_value(
                without_spaces(s@.take(i as int)),
            ),
        decreases n - i,
    {
        let c = char_at(s, i);
        let ghost before = without_spaces(s@.take(i as int));
        assert(s@.take(i + 1).drop_last() =~= s@.take(i as int));
        assert(s@.take(i + 1).last() == c);
        if c != ' ' {
            seen_digit = true;
            if '0' <= c && c <= '9' {
                if digits_only && !too_large {
                    let digit = (c as u64) - ('0' as u64);
                    if digit > limit || value > (limit - digit) / 10 {
                        too_large = true;
                        proof {
                            lemma_exceeds(value as nat, digit as nat, limit as nat);
                        }
                    } else {
                        proof {
                            lemma_fits(value as nat, digit as nat, limit as nat);
                        }
                        value = value * 10 + digit;
                    }
                }
                proof {
                    lemma_push_digits(before, c);
                }
            } else {
                digits_only = false;
                proof {
                    assert(!is_digit(before.push(c)[before.len() as int]));
                }
            }
        }
        i = i + 1;
    }
    assert(s@.take(n as int) =~= s@);
    if !seen_digit || !digits_only {
        Decimal::Malformed
    } else if too_large {
        Decimal::TooLarge
    } else {
        Decimal::Value(value)
    }
}

/// The largest line number a program may use.
pub const MAX_LINE_NUMBER: u16 = 63999;

/// The line number that the lexeme `s` spells.
pub open spec fn line_number_of(s: Seq<char>) -> Result<u16, BasicError> {
    match decimal_of(s, MAX_LINE_NUMBER as nat) {
        Decimal::Value(v) => Ok(v as u16),
        Decimal::TooLarge => Err(BasicError::LineNumberTooLarge),
        Decimal::Malformed => Err(BasicError::ParseLineNumber),
    }
}

/// The number that the literal lexeme `s` spells.
pub open spec fn number_of(s: Seq<char>) -> Result<i64, BasicError> {
    match decimal_of(s, i64::MAX as nat) {
        Decimal::Value(v) => Ok(v as i64),
        _ => Err(BasicError::ParseFloat),
    }
}

/// Reads a line number; spaces in the lexeme are ignored.
pub fn parse_line_number(lexeme: &str) -> (r: Result<u16, BasicError>)
    ensures
        r == line_number_of(lexeme@),
{
    match parse_decimal(lexeme, MAX_LINE_NUMBER as u64) {
        Decimal::Value(v) => Ok(v as u16),
        Decimal::TooLarge => Err(BasicError::LineNumberTooLarge),
        Decimal::Malformed => Err(BasicError::ParseLineNumber),
    }
}

/// Reads a numeric literal; spaces in the lexeme are ignored.
pub fn parse_number(lexeme: &str) -> (r: Result<i64, BasicError>)
    ensures
        r == number_of(lexeme@),
{
    match parse_decimal(lexeme, i64::MAX as u64) {
        Decimal::Value(v) => Ok(v as i64),
        _ => Err(BasicError::ParseFloat),
    }
}

/// A run of digits holds no space to ignore.
proof fn lemma_digits_kept(d: Seq<char>)
    requires
        all_digits(d),
    ensures
        without_spaces(d) == d,
    decreases d.len(),
{
    if d.len() > 0 {
        assert(d.last() == d[d.len() - 1]);
        assert(all_digits(d.drop_last())) by {
            assert forall|i: int| 0 <= i < d.drop_last().len() implies is_digit(#[trigger] d.drop_last()[i]) by {
                assert(d.drop_last()[i] == d[i]);
            }
        }
        lemma_digits_kept(d.drop_last());
        assert(d.drop_last().push(d.last()) =~= d);
    }
}

/// A line number made of digits is refused as too large exactly when its value exceeds the
/// largest line number; otherwise it is accepted with that value.
pub proof fn lemma_line_number_bound(d: Seq<char>)
    requires
        d.len() > 0,
        all_digits(d),
    ensures
        digits_value(d) > MAX_LINE_NUMBER ==> line_number_of(d) == Err::<u16, BasicError>(
            BasicError::LineNumberTooLarge,
        ),
        digits_value(d) <= MAX_LINE_NUMBER ==> line_number_of(d) == Ok::<u16, BasicError>(
            digits_value(d) as u16,
        ),
{
    lemma_digits_kept(d);
}

proof fn lemma_push_digits(d: Seq<char>, c: char)
    requires
        is_digit(c),
    ensures
        all_digits(d.push(c)) == all_digits(d),
        digits_value(d.push(c)) == digits_value(d) * 10 + (c as nat - '0' as nat),
{
    assert(d.push(c).drop_last() =~= d);
    if all_digits(d) {
        assert forall|i: int| 0 <= i < d.push(c).len() implies is_digit(#[trigger] d.push(c)[i]) by {
            if i < d.len() {
                assert(d.push(c)[i] == d[i]);
            }
        }
    } else {
        let k = choose|k: int| 0 <= k < d.len() && !is_digit(#[trigger] d[k]);
        assert(d.push(c)[k] == d[k]);
    }
}

proof fn lemma_exceeds(value: nat, digit: nat, limit: nat)
    requires
        digit <= 9,
        digit > limit || value > (limit - digit) / 10,
    ensures
        value * 10 + digit > limit,
{
    if digit > limit {
        return;
    }
    assert(value * 10 + digit > limit) by (nonlinear_arith)
        requires
            digit <= limit,
            value > (limit - digit) / 10,
    ;
}

proof fn lemma_fits(value: nat, digit: nat, limit: nat)
    requires
        digit <= 9,
        digit <= limit,
        value <= (limit - digit) / 10,
    ensures
        value * 10 + digit <= limit,
{
    assert(value * 10 + digit <= limit) by (nonlinear_arith)
        requires
            digit <= limit,
            value <= (limit - digit) / 10,
    ;
}

/// A character of `s` other than a space stays among the characters kept.
proof fn lemma_kept(s: Seq<char>, k: int)
    requires
        0 <= k < s.len(),
        s[k] != ' ',
    ensures
        without_spaces(s).contains(s[k]),
    decreases s.len(),
{
    let d = without_spaces(s);
    let d0 = without_spaces(s.drop_last());
    if k == s.len() - 1 {
        assert(d =~= d0.push(s[k]));
        assert(d[d.len() - 1] == s[k]);
    } else {
        lemma_kept(s.drop_last(), k);
        assert(s.drop_last()[k] == s[k]);
        let j = choose|j: int| 0 <= j < d0.len() && d0[j] == s[k];
        if s.last() != ' ' {
            assert(d =~= d0.push(s.last()));
            assert(d[j] == d0[j]);
        }
    }
}

} // verus!
