use vstd::prelude::*;
use vstd::string::StringExecFns;

verus! {

/// Why a text is no unsigned decimal number within a limit.
#[derive(Debug, Clone, Copy, PartialEq, Eq, Structural)]
pub enum NumberError {
    /// The text is empty.
    Empty,
    /// A character other than a decimal digit occurs, or no digit at all.
    InvalidDigit,
    /// The digits name a number above the limit.
    TooLarge,
}

impl NumberError {
    /// The cause as a sentence.
    pub open spec fn message(self) -> Seq<char> {
        match self {
            NumberError::Empty => "cannot parse integer from empty string"@,
            NumberError::InvalidDigit => "invalid digit found in string"@,
            NumberError::TooLarge => "number too large to fit in target type"@,
        }
    }

    /// The cause as a sentence.
    pub fn describe(&self) -> (sentence: String)
        ensures
            sentence@ == self.message(),
    {
        match self {
            NumberError::Empty => String::from_str("cannot parse integer from empty string"),
            NumberError::InvalidDigit => String::from_str("invalid digit found in string"),
            NumberError::TooLarge => String::from_str("number too large to fit in target type"),
        }
    }
}

/// Whether `c` is one of the ten decimal digits.
pub open spec fn is_digit(c: char) -> bool {
    '0' <= c <= '9'
}

/// The number that a decimal digit stands for.
pub open spec fn digit_value(c: char) -> nat {
    (c as u32 - '0' as u32) as nat
}

/// The number that a sequence of decimal digits names; 0 for the empty
/// sequence.
pub open spec fn decimal_value(digits: Seq<char>) -> nat
    decreases digits.len(),
{
    if digits.len() == 0 {
        0
    } else {
        decimal_value(digits.drop_last()) * 10 + digit_value(digits.last())
    }
}

/// The first position at or after `from` that holds no decimal digit, or the
/// length of `s`.
pub open spec fn digits_end(s: Seq<char>, from: int) -> int
    decreases s.len() - from,
{
    if 0 <= from < s.len() && is_digit(s[from]) {
        digits_end(s, from + 1)
    } else {
        from
    }
}

/// The text without the `+` that may stand in front of the digits.
pub open spec fn unsigned_digits(text: Seq<char>) -> Seq<char> {
    if text.len() > 0 && text[0] == '+' {
        text.drop_first()
    } else {
        text
    }
}

/// The number that `text` names: an optional `+`, then decimal digits that
/// name a number of at most `max`. Where the digits pass `max` before a
/// character that is no digit occurs, the number counts as too large.
pub open spec fn unsigned_rule(text: Seq<char>, max: nat) -> Result<nat, NumberError> {
    let digits = unsigned_digits(text);
    let leading = digits.take(digits_end(digits, 0));
    if text.len() == 0 {
        Err(NumberError::Empty)
    } else if digits.len() == 0 {
        Err(NumberError::InvalidDigit)
    } else if decimal_value(leading) > max {
        Err(NumberError::TooLarge)
    } else if leading.len() < digits.len() {
        Err(NumberError::InvalidDigit)
    } else {
        Ok(decimal_value(digits))
    }
}

/// What `digits_end` returns, stated without recursion: only digits stand
/// between `from` and the result, and the result is the end or no digit.
pub proof fn lemma_digits_end_bounds(s: Seq<char>, from: int)
    requires
        0 <= from <= s.len(),
    ensures
        from <= digits_end(s, from) <= s.len(),
        forall|k: int| from <= k < digits_end(s, from) ==> is_digit(s[k]),
        digits_end(s, from) < s.len() ==> !is_digit(s[digits_end(s, from)]),
    decreases s.len() - from,
{
    if from < s.len() && is_digit(s[from]) {
        lemma_digits_end_bounds(s, from + 1);
    }
}

/// A longer run of digits names no smaller number.
pub proof fn lemma_decimal_value_grows(digits: Seq<char>, shorter: int, longer: int)
    requires
        0 <= shorter <= longer <= digits.len(),
    ensures
        decimal_value(digits.take(shorter)) <= decimal_value(digits.take(longer)),
    decreases longer - shorter,
{
    if shorter < longer {
        lemma_decimal_value_grows(digits, shorter, longer - 1);
        assert(digits.take(longer).drop_last() =~= digits.take(longer - 1));
    }
}

/// Reads `chars[from..to]` as an unsigned decimal number of at most `max`.
/// A range that does not lie within `chars` holds no text.
pub fn parse_unsigned(chars: &[char], from: usize, to: usize, max: u64) -> (r: Result<
    u64,
    NumberError,
>)
    ensures
        from <= to <= chars@.len() ==> match (
            r,
            unsigned_rule(chars@.subrange(from as int, to as int), max as nat),
        ) {
            (Ok(n), Ok(value)) => n == value,
            (Err(e), Err(cause)) => e == cause,
            _ => false,
        },
        !(from <= to <= chars@.len()) ==> r == Err::<u64, NumberError>(NumberError::Empty),
{
    if from > to || to > chars.len() {
        return Err(NumberError::Empty);
    }
    let ghost text = chars@.subrange(from as int, to as int);
    if from == to {
        return Err(NumberError::Empty);
    }
    let first: usize = if chars[from] == '+' {
        from + 1
    } else {
        from
    };
    let ghost digits = unsigned_digits(text);
    if first == to {
        return Err(NumberError::InvalidDigit);
    }
    let mut value: u64 = 0;
    let mut i: usize = first;
    while i < to
        invariant
            from <= first <= i <= to <= chars@.len(),
            first < to,
            text.len() > 0,
            text == chars@.subrange(from as int, to as int),
            digits == unsigned_digits(text),
            digits == chars@.subrange(first as int, to as int),
            value == decimal_value(digits.take(i - first)),
            value <= max,
            digits_end(digits, 0) == digits_end(digits, i - first),
        decreases to - i,
    {
        let c = chars[i];
        if c < '0' || c > '9' {
            return Err(NumberError::InvalidDigit);
        }
        let d: u64 = (c as u32 - '0' as u32) as u64;
        proof {
            assert(digits.take(i - first + 1).drop_last() =~= digits.take(i - first));
            lemma_digits_end_bounds(digits, i - first + 1);
        }
        if d > max || value > (max - d) / 10 {
            proof {
                lemma_decimal_value_grows(digits, i - first + 1, digits_end(digits, 0));
            }
            return Err(NumberError::TooLarge);
        }
        value = value * 10 + d;
        i += 1;
    }
    proof {
        assert(digits.take(digits.len() as int) =~= digits);
    }
    Ok(value)
}

/// The decimal digit that stands for `d`, a number below ten.
pub open spec fn digit_char(d: nat) -> char {
    ('0' as u8 + d) as char
}

/// The decimal digits of `n`, without leading zeros; `0` for zero.
pub open spec fn digits_of(n: nat) -> Seq<char>
    decreases n,
{
    if n < 10 {
        seq![digit_char(n)]
    } else {
        digits_of(n / 10).push(digit_char(n % 10))
    }
}

/// Writes `n` in decimal digits.
pub fn render_unsigned(n: usize) -> (text: String)
    ensures
        text@ == digits_of(n as nat),
{
    let mut reversed: Vec<char> = Vec::new();
    let mut rest: usize = n;
    while rest >= 10
        invariant
            digits_of(n as nat) == digits_of(rest as nat) + reversed@.reverse(),
        decreases rest,
    {
        let d: u8 = (rest % 10) as u8;
        reversed.push((48u8 + d) as char);
        rest = rest / 10;
    }
    let mut text = String::new();
    text.push((48u8 + rest as u8) as char);
    let mut i: usize = reversed.len();
    while i > 0
        invariant
            i <= reversed@.len(),
            rest < 10,
            digits_of(n as nat) == digits_of(rest as nat) + reversed@.reverse(),
            text@ == digits_of(rest as nat) + reversed@.reverse().take(reversed@.len() - i),
        decreases i,
    {
        i -= 1;
        text.push(reversed[i]);
    }
    text
}

} // verus!
