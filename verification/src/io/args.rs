//! Values on a command line.

use vstd::prelude::*;

use crate::text::{dec, digit};

verus! {

/// Why a text is no number.
#[derive(Debug, Clone, Copy, PartialEq, Eq, Structural)]
pub enum NumberError {
    Empty,
    InvalidDigit,
    Overflow,
}

impl NumberError {
    /// The message of an error.
    pub open spec fn text(self) -> Seq<char> {
        match self {
            NumberError::Empty => "cannot parse integer from empty string"@,
            NumberError::InvalidDigit => "invalid digit found in string"@,
            NumberError::Overflow => "number too large to fit in target type"@,
        }
    }

    /// The message of an error.
    pub fn message(self) -> (r: &'static str)
        ensures
            r@ == self.text(),
    {
        match self {
            NumberError::Empty => "cannot parse integer from empty string",
            NumberError::InvalidDigit => "invalid digit found in string",
            NumberError::Overflow => "number too large to fit in target type",
        }
    }
}

/// The value of a digit, decimal or hexadecimal.
pub open spec fn digit_value(c: char, radix: int) -> Option<int> {
    if '0' <= c && c <= '9' {
        Some(c as int - 48)
    } else if radix == 16 && 'a' <= c && c <= 'f' {
        Some(c as int - 87)
    } else if radix == 16 && 'A' <= c && c <= 'F' {
        Some(c as int - 55)
    } else {
        None
    }
}

/// The number `a`, followed by the digit `c`.
pub open spec fn step(a: u32, c: char, radix: int) -> Result<u32, NumberError> {
    match digit_value(c, radix) {
        None => Err(NumberError::InvalidDigit),
        Some(d) => if a * radix + d > u32::MAX {
            Err(NumberError::Overflow)
        } else {
            Ok((a * radix + d) as u32)
        },
    }
}

/// The number that the characters `from..n` spell.
pub open spec fn value_upto(s: Seq<char>, from: int, n: int, radix: int) -> Result<u32, NumberError>
    decreases n - from,
{
    if n <= from {
        Ok(0)
    } else {
        match value_upto(s, from, n - 1, radix) {
            Err(e) => Err(e),
            Ok(a) => step(a, s[n - 1], radix),
        }
    }
}

/// The number that the characters from `from` on spell, a plus sign before it
/// allowed.
pub open spec fn number_from(s: Seq<char>, from: int, radix: int) -> Result<u32, NumberError> {
    if from >= s.len() {
        Err(NumberError::Empty)
    } else if s[from] == '+' {
        if from + 1 == s.len() {
            Err(NumberError::InvalidDigit)
        } else {
            value_upto(s, from + 1, s.len() as int, radix)
        }
    } else {
        value_upto(s, from, s.len() as int, radix)
    }
}

/// Whether a number is written in hexadecimal.
pub open spec fn is_hex(s: Seq<char>) -> bool {
    s.len() >= 2 && s[0] == '0' && (s[1] == 'x' || s[1] == 'X')
}

/// The number that a text spells, in hexadecimal behind `0x`.
pub open spec fn number_of(s: Seq<char>) -> Result<u32, NumberError> {
    if is_hex(s) {
        number_from(s, 2, 16)
    } else {
        number_from(s, 0, 10)
    }
}

/// The value of a digit.
fn value_of(c: char, radix: u32) -> (r: Option<u32>)
    ensures
        match digit_value(c, radix as int) {
            Some(d) => r is Some && r->0 == d && d < 16,
            None => r is None,
        },
{
    if '0' <= c && c <= '9' {
        Some(c as u32 - 48)
    } else if radix == 16 && 'a' <= c && c <= 'f' {
        Some(c as u32 - 87)
    } else if radix == 16 && 'A' <= c && c <= 'F' {
        Some(c as u32 - 55)
    } else {
        None
    }
}

proof fn failure_stays(s: Seq<char>, from: int, n: int, m: int, radix: int, e: NumberError)
    requires
        n <= m,
        value_upto(s, from, n, radix) == Err::<u32, NumberError>(e),
    ensures
        value_upto(s, from, m, radix) == Err::<u32, NumberError>(e),
    decreases m - n,
{
    if n < m {
        failure_stays(s, from, n, m - 1, radix, e);
    }
}

/// The number that the characters from `from` on spell.
fn read_digits(s: &str, from: usize, n: usize, radix: u32) -> (r: Result<u32, NumberError>)
    requires
        from <= n,
        n == s@.len(),
        radix == 10 || radix == 16,
    ensures
        r == value_upto(s@, from as int, n as int, radix as int),
{
    let mut a: u32 = 0;
    let mut i: usize = from;
    while i < n
        invariant
            from <= i <= n,
            n == s@.len(),
            radix == 10 || radix == 16,
            value_upto(s@, from as int, i as int, radix as int) == Ok::<u32, NumberError>(a),
        decreases n - i,
    {
        match value_of(s.get_char(i), radix) {
            None => {
                proof {
                    failure_stays(
                        s@,
                        from as int,
                        i + 1,
                        n as int,
                        radix as int,
                        NumberError::InvalidDigit,
                    );
                }
                return Err(NumberError::InvalidDigit);
            },
            Some(d) => {
                let next: u64 = a as u64 * radix as u64 + d as u64;
                if next > u32::MAX as u64 {
                    proof {
                        failure_stays(
                            s@,
                            from as int,
                            i + 1,
                            n as int,
                            radix as int,
                            NumberError::Overflow,
                        );
                    }
                    return Err(NumberError::Overflow);
                }
                a = next as u32;
            },
        }
        i = i + 1;
    }
    Ok(a)
}

/// The number that the characters from `from` on spell, a plus sign allowed.
fn read_number(s: &str, from: usize, n: usize, radix: u32) -> (r: Result<u32, NumberError>)
    requires
        from <= n,
        n == s@.len(),
        radix == 10 || radix == 16,
    ensures
        r == number_from(s@, from as int, radix as int),
{
    if from == n {
        return Err(NumberError::Empty);
    }
    if s.get_char(from) == '+' {
        if from + 1 == n {
            return Err(NumberError::InvalidDigit);
        }
        return read_digits(s, from + 1, n, radix);
    }
    read_digits(s, from, n, radix)
}

/// The number that a text spells: in decimal, or in hexadecimal behind `0x`.
pub fn parse_u32(value: &str) -> (r: Result<u32, NumberError>)
    ensures
        r == number_of(value@),
{
    let n: usize = value.unicode_len();
    if n >= 2 && value.get_char(0) == '0' && (value.get_char(1) == 'x' || value.get_char(1)
        == 'X') {
        return read_number(value, 2, n, 16);
    }
    read_number(value, 0, n, 10)
}

proof fn decimal_value(n: u32)
    ensures
        ({
            let s = dec(n as nat);
            &&& s.len() > 0
            &&& forall|i: int| 0 <= i < s.len() ==> '0' <= #[trigger] s[i] && s[i] <= '9'
            &&& value_upto(s, 0, s.len() as int, 10) == Ok::<u32, NumberError>(n)
        }),
    decreases n,
{
    let s = dec(n as nat);
    let c = digit((n % 10) as int);
    assert(c as int == 48 + n % 10);
    if n < 10 {
        assert(s =~= seq![c]);
        assert(value_upto(s, 0, 0, 10) == Ok::<u32, NumberError>(0u32));
    } else {
        decimal_value(n / 10);
        let t = dec((n / 10) as nat);
        assert(s =~= t.push(c));
        prefix_value(t, c, t.len() as int);
        assert(s[s.len() - 1] == c);
        assert forall|i: int| 0 <= i < s.len() implies '0' <= #[trigger] s[i] && s[i] <= '9' by {
            if i < t.len() {
                assert(s[i] == t[i]);
            }
        }
    }
}

proof fn prefix_value(t: Seq<char>, c: char, n: int)
    requires
        0 <= n <= t.len(),
    ensures
        value_upto(t.push(c), 0, n, 10) == value_upto(t, 0, n, 10),
    decreases n,
{
    if n > 0 {
        prefix_value(t, c, n - 1);
    }
}

/// A number that is written in decimal is read back.
pub proof fn decimal_is_read_back(n: u32)
    ensures
        number_of(dec(n as nat)) == Ok::<u32, NumberError>(n),
{
    decimal_value(n);
    let s = dec(n as nat);
    if s.len() >= 2 {
        assert('0' <= s[1] && s[1] <= '9');
    }
    assert('0' <= s[0] && s[0] <= '9');
}

} // verus!
