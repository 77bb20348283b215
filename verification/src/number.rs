//! Decimal parsing of unsigned integers with the outcomes and messages of
//! `str::parse` for `u32`, `u64` and `usize`.

use vstd::prelude::*;

verus! {

/// Why a text is not an unsigned decimal in range.
#[derive(Debug, Clone, Copy, PartialEq, Eq)]
pub enum NumberError {
    /// The text is empty.
    Empty,
    /// A character other than an ASCII digit (after an optional `+`).
    InvalidDigit,
    /// The value exceeds the target type's maximum.
    TooLarge,
}

impl NumberError {
    pub open spec fn spec_message(self) -> Seq<char> {
        match self {
            NumberError::Empty => "cannot parse integer from empty string"@,
            NumberError::InvalidDigit => "invalid digit found in string"@,
            NumberError::TooLarge => "number too large to fit in target type"@,
        }
    }

    /// The description `Display` gives the matching std parse error.
    pub fn message(self) -> (r: &'static str)
        ensures
            r@ == self.spec_message(),
    {
        match self {
            NumberError::Empty => "cannot parse integer from empty string",
            NumberError::InvalidDigit => "invalid digit found in string",
            NumberError::TooLarge => "number too large to fit in target type",
        }
    }
}

/// The value of an ASCII digit.
pub open spec fn digit_value(c: char) -> Option<nat> {
    if '0' <= c && c <= '9' {
        Some((c as nat - '0' as nat) as nat)
    } else {
        None
    }
}

/// Read the digits of `d` left to right onto `acc`: the first non-digit is
/// an invalid digit, and a running value above `max` is too large, whichever
/// comes first.
pub open spec fn scan_digits(d: Seq<char>, acc: nat, max: nat) -> Result<nat, NumberError>
    decreases d.len(),
{
    if d.len() == 0 {
        Ok(acc)
    } else {
        match digit_value(d[0]) {
            None => Err(NumberError::InvalidDigit),
            Some(v) => {
                let next = acc * 10 + v;
                if next > max {
                    Err(NumberError::TooLarge)
                } else {
                    scan_digits(d.skip(1), next, max)
                }
            },
        }
    }
}

/// An unsigned decimal not above `max`: empty text is an error of its own;
/// a lone sign is an invalid digit; one leading `+` is allowed.
pub open spec fn unsigned_decimal(s: Seq<char>, max: nat) -> Result<nat, NumberError> {
    if s.len() == 0 {
        Err(NumberError::Empty)
    } else if s.len() == 1 && (s[0] == '+' || s[0] == '-') {
        Err(NumberError::InvalidDigit)
    } else if s[0] == '+' {
        scan_digits(s.skip(1), 0, max)
    } else {
        scan_digits(s, 0, max)
    }
}

/// Parse `s` as an unsigned decimal not above `max`.
pub fn parse_unsigned(s: &str, max: u64) -> (r: Result<u64, NumberError>)
    ensures
        r matches Ok(v) ==> unsigned_decimal(s@, max as nat) == Ok::<nat, NumberError>(v as nat) && v <= max,
        r matches Err(e) ==> unsigned_decimal(s@, max as nat) == Err::<nat, NumberError>(e),
{
    let n = s.unicode_len();
    if n == 0 {
        return Err(NumberError::Empty);
    }
    let first = s.get_char(0);
    if n == 1 && (first == '+' || first == '-') {
        return Err(NumberError::InvalidDigit);
    }
    let start: usize = if first == '+' { 1 } else { 0 };
    let ghost d = s@.skip(start as int);
    proof {
        assert(s@.skip(0) =~= s@);
        assert(unsigned_decimal(s@, max as nat) == scan_digits(d, 0, max as nat));
    }
    let mut i: usize = start;
    let mut acc: u64 = 0;
    while i < n
        invariant
            n == s@.len(),
            start <= i <= n,
            d == s@.skip(start as int),
            acc <= max,
            unsigned_decimal(s@, max as nat) == scan_digits(d, 0, max as nat),
            scan_digits(d, 0, max as nat) == scan_digits(s@.skip(i as int), acc as nat, max as nat),
        decreases n - i,
    {
        let c = s.get_char(i);
        proof {
            assert(s@.skip(i as int)[0] == c);
            assert(s@.skip(i as int).skip(1) =~= s@.skip(i + 1));
        }
        if !('0' <= c && c <= '9') {
            proof {
                assert(digit_value(c) is None);
            }
            return Err(NumberError::InvalidDigit);
        }
        let v = (c as u32 - '0' as u32) as u128;
        proof {
            assert(digit_value(c) == Some((v as nat)));
        }
        let next: u128 = (acc as u128) * 10 + v;
        if next > max as u128 {
            return Err(NumberError::TooLarge);
        }
        acc = next as u64;
        i += 1;
    }
    proof {
        assert(s@.skip(i as int).len() == 0);
    }
    Ok(acc)
}

} // verus!
