//! Decimal integers as they stand in file names, bounds and key tables:
//! an optional sign and ASCII digits, read from and written to bytes.

use vstd::prelude::*;

verus! {

/// Why a byte string is not a decimal integer of the wanted type.
#[derive(Clone, Copy, Debug, PartialEq, Eq, Structural)]
pub enum IntParseError {
    /// The string is empty.
    Empty,
    /// No digit follows the sign, or a byte is not a digit.
    InvalidDigit,
    /// The number is above the type's largest value.
    PosOverflow,
    /// The number is below the type's smallest value.
    NegOverflow,
}

pub open spec fn is_digit(b: u8) -> bool {
    0x30 <= b <= 0x39
}

pub open spec fn all_digits(s: Seq<u8>) -> bool {
    forall|i: int| 0 <= i < s.len() ==> is_digit(#[trigger] s[i])
}

/// The number that a string of digits writes, the most significant first.
pub open spec fn digits_value(s: Seq<u8>) -> nat
    decreases s.len(),
{
    if s.len() == 0 {
        0
    } else {
        digits_value(s.drop_last()) * 10 + (s.last() - 0x30) as nat
    }
}

/// Reading of `s` as an integer between `min` and `max`. A `+` may lead;
/// a `-` may lead where `min` is negative. At least one digit follows and
/// nothing but digits. A malformed string is reported as such even if its
/// digits would also be out of range.
pub open spec fn spec_parse_int(s: Seq<u8>, min: int, max: int) -> Result<int, IntParseError> {
    if s.len() == 0 {
        Err(IntParseError::Empty)
    } else {
        let negative = s[0] == 0x2d && min < 0;
        let digits = if s[0] == 0x2b || negative {
            s.subrange(1, s.len() as int)
        } else {
            s
        };
        if digits.len() == 0 || !all_digits(digits) {
            Err(IntParseError::InvalidDigit)
        } else {
            let value = if negative {
                -(digits_value(digits) as int)
            } else {
                digits_value(digits) as int
            };
            if value > max {
                Err(IntParseError::PosOverflow)
            } else if value < min {
                Err(IntParseError::NegOverflow)
            } else {
                Ok(value)
            }
        }
    }
}

pub open spec fn spec_parse_i32(s: Seq<u8>) -> Result<i32, IntParseError> {
    match spec_parse_int(s, i32::MIN as int, i32::MAX as int) {
        Ok(v) => Ok(v as i32),
        Err(e) => Err(e),
    }
}

pub open spec fn spec_parse_u16(s: Seq<u8>) -> Result<u16, IntParseError> {
    match spec_parse_int(s, 0, u16::MAX as int) {
        Ok(v) => Ok(v as u16),
        Err(e) => Err(e),
    }
}

pub open spec fn spec_parse_u8(s: Seq<u8>) -> Result<u8, IntParseError> {
    match spec_parse_int(s, 0, u8::MAX as int) {
        Ok(v) => Ok(v as u8),
        Err(e) => Err(e),
    }
}

/// The digits of `v`, without leading zeros; `0` is written "0".
pub open spec fn spec_decimal(v: nat) -> Seq<u8>
    decreases v,
{
    if v < 10 {
        seq![(0x30 + v) as u8]
    } else {
        spec_decimal(v / 10).push((0x30 + v % 10) as u8)
    }
}

pub proof fn lemma_digits_value_push(s: Seq<u8>, d: u8)
    ensures
        digits_value(s.push(d)) == digits_value(s) * 10 + (d - 0x30) as nat,
{
    assert(s.push(d).drop_last() =~= s);
}

/// A number is read back from its own digits.
pub proof fn lemma_decimal_digits(v: nat)
    ensures
        spec_decimal(v).len() >= 1,
        all_digits(spec_decimal(v)),
        digits_value(spec_decimal(v)) == v,
    decreases v,
{
    if v < 10 {
        let s = seq![(0x30 + v) as u8];
        assert(s.drop_last() =~= Seq::<u8>::empty());
        assert(digits_value(s.drop_last()) == 0);
    } else {
        lemma_decimal_digits(v / 10);
        lemma_digits_value_push(spec_decimal(v / 10), (0x30 + v % 10) as u8);
    }
}

/// Writing a `u16` and reading the digits gives the number back.
pub proof fn lemma_parse_decimal_u16(v: u16)
    ensures
        spec_parse_u16(spec_decimal(v as nat)) == Ok::<u16, IntParseError>(v),
{
    lemma_decimal_digits(v as nat);
    let s = spec_decimal(v as nat);
    assert(is_digit(s[0]));
}

/// Whether `s` from `start` on is one digit or more and digits only, and
/// the number they write, capped at `2^32`.
fn scan_digits(s: &[u8], start: usize) -> (r: (bool, u64))
    requires
        start <= s.len(),
    ensures
        r.0 == (start < s.len() && all_digits(s@.subrange(start as int, s.len() as int))),
        r.0 ==> r.1 == if digits_value(s@.subrange(start as int, s.len() as int)) < 0x1_0000_0000 {
            digits_value(s@.subrange(start as int, s.len() as int))
        } else {
            0x1_0000_0000
        },
{
    if start >= s.len() {
        return (false, 0);
    }
    let mut acc: u64 = 0;
    let mut i: usize = start;
    while i < s.len()
        invariant
            start <= i <= s.len(),
            all_digits(s@.subrange(start as int, i as int)),
            acc <= 0x1_0000_0000,
            acc == if digits_value(s@.subrange(start as int, i as int)) < 0x1_0000_0000 {
                digits_value(s@.subrange(start as int, i as int))
            } else {
                0x1_0000_0000
            },
        decreases s.len() - i,
    {
        let b: u8 = s[i];
        if b < 0x30 || b > 0x39 {
            proof {
                let whole = s@.subrange(start as int, s.len() as int);
                assert(whole[i - start] == b);
            }
            return (false, 0);
        }
        proof {
            let before = s@.subrange(start as int, i as int);
            let after = s@.subrange(start as int, i + 1);
            assert(after =~= before.push(b));
            lemma_digits_value_push(before, b);
        }
        let next: u64 = acc * 10 + (b - 0x30) as u64;
        acc = if next < 0x1_0000_0000 {
            next
        } else {
            0x1_0000_0000
        };
        i += 1;
    }
    proof {
        assert(s@.subrange(start as int, i as int) =~= s@.subrange(start as int, s.len() as int));
    }
    (true, acc)
}

/// Reads a decimal `i32`.
pub fn parse_i32(s: &[u8]) -> (r: Result<i32, IntParseError>)
    ensures
        r == spec_parse_i32(s@),
{
    if s.len() == 0 {
        return Err(IntParseError::Empty);
    }
    let negative: bool = s[0] == 0x2d;
    let start: usize = if s[0] == 0x2b || negative {
        1
    } else {
        0
    };
    proof {
        assert(s@.subrange(0, s.len() as int) =~= s@);
    }
    let (ok, magnitude) = scan_digits(s, start);
    if !ok {
        return Err(IntParseError::InvalidDigit);
    }
    if negative {
        if magnitude > 0x8000_0000 {
            Err(IntParseError::NegOverflow)
        } else {
            Ok((-(magnitude as i64)) as i32)
        }
    } else {
        if magnitude > 0x7fff_ffff {
            Err(IntParseError::PosOverflow)
        } else {
            Ok(magnitude as i32)
        }
    }
}

/// Reads a decimal `u16`.
pub fn parse_u16(s: &[u8]) -> (r: Result<u16, IntParseError>)
    ensures
        r == spec_parse_u16(s@),
{
    if s.len() == 0 {
        return Err(IntParseError::Empty);
    }
    let start: usize = if s[0] == 0x2b {
        1
    } else {
        0
    };
    proof {
        assert(s@.subrange(0, s.len() as int) =~= s@);
    }
    let (ok, magnitude) = scan_digits(s, start);
    if !ok {
        return Err(IntParseError::InvalidDigit);
    }
    if magnitude > 0xffff {
        Err(IntParseError::PosOverflow)
    } else {
        Ok(magnitude as u16)
    }
}

/// Reads a decimal `u8`.
pub fn parse_u8(s: &[u8]) -> (r: Result<u8, IntParseError>)
    ensures
        r == spec_parse_u8(s@),
{
    if s.len() == 0 {
        return Err(IntParseError::Empty);
    }
    let start: usize = if s[0] == 0x2b {
        1
    } else {
        0
    };
    proof {
        assert(s@.subrange(0, s.len() as int) =~= s@);
    }
    let (ok, magnitude) = scan_digits(s, start);
    if !ok {
        return Err(IntParseError::InvalidDigit);
    }
    if magnitude > 0xff {
        Err(IntParseError::PosOverflow)
    } else {
        Ok(magnitude as u8)
    }
}

/// Appends the decimal digits of `v` to `out`.
pub fn push_decimal(out: &mut Vec<u8>, v: u64)
    ensures
        final(out)@ == old(out)@ + spec_decimal(v as nat),
{
    let mut digits: Vec<u8> = Vec::new();
    let mut rest: u64 = v;
    // The digits come out least significant first.
    while rest >= 10
        invariant
            spec_decimal(v as nat) == spec_decimal(rest as nat) + digits@.reverse(),
        decreases rest,
    {
        let d: u8 = 0x30 + (rest % 10) as u8;
        proof {
            let old_rev = digits@.reverse();
            assert(digits@.push(d).reverse() =~= seq![d] + old_rev);
            assert(spec_decimal(rest as nat) == spec_decimal((rest / 10) as nat).push(d));
            assert(spec_decimal((rest / 10) as nat).push(d) + old_rev =~= spec_decimal(
                (rest / 10) as nat,
            ) + (seq![d] + old_rev));
        }
        digits.push(d);
        rest = rest / 10;
    }
    let first: u8 = 0x30 + rest as u8;
    proof {
        assert(spec_decimal(rest as nat) == seq![first]);
        assert(digits@.reverse().len() == 0 ==> digits@.reverse() =~= Seq::<u8>::empty());
    }
    out.push(first);
    let ghost base = old(out)@.push(first);
    let n: usize = digits.len();
    let mut k: usize = n;
    while k > 0
        invariant
            k <= n,
            n == digits.len(),
            out@ == base + digits@.reverse().subrange(0, n - k),
        decreases k,
    {
        k -= 1;
        proof {
            let rev = digits@.reverse();
            assert(rev[n - 1 - k] == digits@[k as int]);
            assert(rev.subrange(0, n - k) =~= rev.subrange(0, n - 1 - k).push(digits@[k as int]));
        }
        out.push(digits[k]);
    }
    proof {
        let rev = digits@.reverse();
        assert(rev.subrange(0, n as int) =~= rev);
        assert(old(out)@ + spec_decimal(v as nat) =~= base + rev);
    }
}

} // verus!
