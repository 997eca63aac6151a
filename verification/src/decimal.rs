//! Decimal notation of unsigned integers: writing and reading.

use crate::text::to_chars;
use vstd::prelude::*;

verus! {

/// Why a text is no decimal number of the wanted size.
#[derive(Debug, Clone, Copy, PartialEq, Eq, Structural, Hash)]
pub enum ParseIntError {
    /// The text is empty.
    Empty,
    /// A character is no decimal digit.
    InvalidDigit,
    /// The number is too large.
    PosOverflow,
}

/// Whether `c` is one of the digits `0` to `9`.
pub open spec fn is_digit(c: char) -> bool {
    '0' <= c && c <= '9'
}

/// The value of a decimal digit.
pub open spec fn digit_value(c: char) -> nat {
    (c as u32 - '0' as u32) as nat
}

/// The digit that stands for `d`, which is below ten.
pub open spec fn digit_char(d: nat) -> char {
    (d + 48) as u8 as char
}

/// The decimal notation of `n`, without leading zeros.
pub open spec fn decimal(n: nat) -> Seq<char>
    decreases n,
{
    if n < 10 {
        seq![digit_char(n)]
    } else {
        decimal(n / 10).push(digit_char(n % 10))
    }
}

/// The number that a sequence of decimal digits denotes.
pub open spec fn digits_value(s: Seq<char>) -> nat
    decreases s.len(),
{
    if s.len() == 0 {
        0
    } else {
        digits_value(s.drop_last()) * 10 + digit_value(s.last())
    }
}

/// Whether every character of `s` is a decimal digit.
pub open spec fn all_digits(s: Seq<char>) -> bool {
    forall|i: int| 0 <= i < s.len() ==> is_digit(#[trigger] s[i])
}

/// Reads digits from left to right. The first character that is no digit
/// gives `InvalidDigit`, the first digit with which the number exceeds `max`
/// gives `PosOverflow`, whichever comes first.
pub open spec fn scan_digits(s: Seq<char>, max: nat) -> Result<nat, ParseIntError>
    decreases s.len(),
{
    if s.len() == 0 {
        Ok(0)
    } else {
        match scan_digits(s.drop_last(), max) {
            Err(e) => Err(e),
            Ok(value) => if !is_digit(s.last()) {
                Err(ParseIntError::InvalidDigit)
            } else if value * 10 + digit_value(s.last()) > max {
                Err(ParseIntError::PosOverflow)
            } else {
                Ok(value * 10 + digit_value(s.last()))
            },
        }
    }
}

/// What reading `s` as a decimal number of at most `max` gives: an optional
/// `+`, then one digit or more.
pub open spec fn parse_decimal_spec(s: Seq<char>, max: nat) -> Result<nat, ParseIntError> {
    if s.len() == 0 {
        Err(ParseIntError::Empty)
    } else {
        let digits = if s[0] == '+' {
            s.drop_first()
        } else {
            s
        };
        if digits.len() == 0 {
            Err(ParseIntError::InvalidDigit)
        } else {
            scan_digits(digits, max)
        }
    }
}

/// A scan succeeds exactly on digits whose number is within `max`, and then
/// gives that number.
pub proof fn lemma_scan_digits(s: Seq<char>, max: nat)
    ensures
        scan_digits(s, max) is Ok <==> all_digits(s) && digits_value(s) <= max,
        scan_digits(s, max) matches Ok(v) ==> v == digits_value(s),
    decreases s.len(),
{
    if s.len() > 0 {
        let front = s.drop_last();
        lemma_scan_digits(front, max);
        if all_digits(s) {
            assert forall|i: int| 0 <= i < front.len() implies is_digit(#[trigger] front[i]) by {
                assert(front[i] == s[i]);
            }
        }
        if all_digits(front) && is_digit(s.last()) {
            assert forall|i: int| 0 <= i < s.len() implies is_digit(#[trigger] s[i]) by {
                if i < front.len() {
                    assert(front[i] == s[i]);
                }
            }
        }
    }
}

/// The notation of a number is made of digits and denotes that number.
pub proof fn lemma_decimal_digits(n: nat)
    ensures
        all_digits(decimal(n)),
        digits_value(decimal(n)) == n,
        decimal(n).len() >= 1,
    decreases n,
{
    if n < 10 {
        let s = decimal(n);
        assert(s.drop_last() =~= Seq::<char>::empty());
        assert(digits_value(s.drop_last()) == 0);
    } else {
        lemma_decimal_digits(n / 10);
        let s = decimal(n);
        assert(s.drop_last() =~= decimal(n / 10));
    }
}

/// Reading what was written gives the number back.
pub proof fn lemma_parse_decimal_round_trip(n: nat, max: nat)
    requires
        n <= max,
    ensures
        parse_decimal_spec(decimal(n), max) == Ok::<nat, ParseIntError>(n),
{
    lemma_decimal_digits(n);
    lemma_scan_digits(decimal(n), max);
    let s = decimal(n);
    assert(is_digit(s[0]));
}

fn push_decimal(n: u64, out: &mut String)
    ensures
        final(out)@ == old(out)@ + decimal(n as nat),
    decreases n,
{
    if n >= 10 {
        push_decimal(n / 10, out);
    }
    let d: u8 = (n % 10) as u8;
    out.push((d + 48) as char);
    proof {
        if n >= 10 {
            assert(final(out)@ =~= old(out)@ + decimal(n as nat));
        } else {
            assert(final(out)@ =~= old(out)@ + decimal(n as nat));
        }
    }
}

/// Writes `n` in decimal notation.
pub fn u64_to_string(n: u64) -> (r: String)
    ensures
        r@ == decimal(n as nat),
{
    let mut r = String::new();
    push_decimal(n, &mut r);
    assert(Seq::<char>::empty() + decimal(n as nat) =~= decimal(n as nat));
    r
}

/// The number of digits in the decimal notation of `n`.
pub fn decimal_width(n: u64) -> (r: usize)
    ensures
        r == decimal(n as nat).len(),
        1 <= r <= 20,
{
    let mut rest: u64 = n;
    let mut width: usize = 1;
    assert(rest * pow10(0) == rest) by (nonlinear_arith)
        requires
            pow10(0) == 1,
    ;
    while rest >= 10
        invariant
            1 <= width <= 20,
            width + decimal(rest as nat).len() == decimal(n as nat).len() + 1,
            rest * pow10((width - 1) as nat) <= n,
        decreases rest,
    {
        proof {
            lemma_pow10_step((width - 1) as nat);
            assert((rest / 10) * pow10(width as nat) <= rest * pow10((width - 1) as nat)) by (nonlinear_arith)
                requires
                    pow10(width as nat) == 10 * pow10((width - 1) as nat),
                    rest >= 0,
                    pow10((width - 1) as nat) >= 0,
            ;
            lemma_pow10_bound(width as nat, (rest / 10) as nat, n as nat);
        }
        rest = rest / 10;
        width += 1;
    }
    width
}

/// Ten to the power `k`.
pub open spec fn pow10(k: nat) -> nat
    decreases k,
{
    if k == 0 {
        1
    } else {
        10 * pow10((k - 1) as nat)
    }
}

proof fn lemma_pow10_step(k: nat)
    ensures
        pow10(k + 1) == 10 * pow10(k),
        pow10(k) >= 1,
    decreases k,
{
    if k > 0 {
        lemma_pow10_step((k - 1) as nat);
    }
}

proof fn lemma_pow10_bound(k: nat, factor: nat, n: nat)
    requires
        factor >= 1,
        factor * pow10(k) <= n,
        n <= u64::MAX,
    ensures
        k < 20,
    decreases k,
{
    lemma_pow10_step(k);
    if k >= 20 {
        lemma_pow10_grows(20, k);
        assert(pow10(20) == 100000000000000000000nat) by {
            reveal_with_fuel(pow10, 21);
        }
        assert(factor * pow10(k) >= pow10(k)) by (nonlinear_arith)
            requires
                factor >= 1,
                pow10(k) >= 1,
        ;
    }
}

proof fn lemma_pow10_grows(a: nat, b: nat)
    requires
        a <= b,
    ensures
        pow10(a) <= pow10(b),
    decreases b,
{
    if a < b {
        lemma_pow10_grows(a, (b - 1) as nat);
        lemma_pow10_step((b - 1) as nat);
    }
}

/// Reads the characters `v[from..]` as digits of a number of at most `max`.
fn scan(v: &Vec<char>, from: usize, max: u64) -> (r: Result<u64, ParseIntError>)
    requires
        from <= v.len(),
        max >= 9,
    ensures
        match r {
            Ok(n) => scan_digits(v@.skip(from as int), max as nat) == Ok::<nat, ParseIntError>(
                n as nat,
            ),
            Err(e) => scan_digits(v@.skip(from as int), max as nat) == Err::<nat, ParseIntError>(e),
        },
{
    let ghost s = v@.skip(from as int);
    let mut value: u64 = 0;
    let mut i: usize = from;
    assert(s.take(0) =~= Seq::<char>::empty());
    while i < v.len()
        invariant
            from <= i <= v.len(),
            max >= 9,
            s == v@.skip(from as int),
            value <= max,
            scan_digits(s.take(i - from), max as nat) == Ok::<nat, ParseIntError>(value as nat),
        decreases v.len() - i,
    {
        let c = v[i];
        proof {
            let next = s.take(i + 1 - from);
            assert(next.drop_last() =~= s.take(i - from));
            assert(next.last() == c);
        }
        if !('0' <= c && c <= '9') {
            proof {
                lemma_scan_fails(s, i + 1 - from, max as nat);
            }
            return Err(ParseIntError::InvalidDigit);
        }
        let d: u64 = (c as u32 - '0' as u32) as u64;
        if value > (max - d) / 10 {
            proof {
                assert(value * 10 + d > max) by (nonlinear_arith)
                    requires
                        value > (max - d) / 10,
                        max >= d,
                ;
                lemma_scan_fails(s, i + 1 - from, max as nat);
            }
            return Err(ParseIntError::PosOverflow);
        }
        assert(value * 10 + d <= max) by (nonlinear_arith)
            requires
                value <= (max - d) / 10,
                max >= d,
        ;
        value = value * 10 + d;
        i += 1;
    }
    assert(s.take(v.len() - from) =~= s);
    Ok(value)
}

/// A scan that failed on a prefix fails in the same way on the whole.
proof fn lemma_scan_fails(s: Seq<char>, k: int, max: nat)
    requires
        0 <= k <= s.len(),
        scan_digits(s.take(k), max) is Err,
    ensures
        scan_digits(s, max) == scan_digits(s.take(k), max),
    decreases s.len() - k,
{
    if k < s.len() {
        assert(s.drop_last().take(k) =~= s.take(k));
        lemma_scan_fails(s.drop_last(), k, max);
    } else {
        assert(s.take(k) =~= s);
    }
}

/// Reads a decimal number of at most `max`.
fn parse_decimal(s: &str, max: u64) -> (r: Result<u64, ParseIntError>)
    requires
        max >= 9,
    ensures
        match r {
            Ok(n) => parse_decimal_spec(s@, max as nat) == Ok::<nat, ParseIntError>(n as nat),
            Err(e) => parse_decimal_spec(s@, max as nat) == Err::<nat, ParseIntError>(e),
        },
{
    let v = to_chars(s);
    if v.len() == 0 {
        return Err(ParseIntError::Empty);
    }
    let from: usize = if v[0] == '+' {
        1
    } else {
        0
    };
    proof {
        assert(v@.skip(0) =~= v@);
        assert(v@.skip(1) =~= v@.drop_first());
    }
    if from == v.len() {
        return Err(ParseIntError::InvalidDigit);
    }
    scan(&v, from, max)
}

/// Reads a decimal `u64`: an optional `+`, then digits.
pub fn parse_u64(s: &str) -> (r: Result<u64, ParseIntError>)
    ensures
        match r {
            Ok(n) => parse_decimal_spec(s@, u64::MAX as nat) == Ok::<nat, ParseIntError>(n as nat),
            Err(e) => parse_decimal_spec(s@, u64::MAX as nat) == Err::<nat, ParseIntError>(e),
        },
{
    parse_decimal(s, u64::MAX)
}

/// Reads a decimal `u32`: an optional `+`, then digits.
pub fn parse_u32(s: &str) -> (r: Result<u32, ParseIntError>)
    ensures
        match r {
            Ok(n) => parse_decimal_spec(s@, u32::MAX as nat) == Ok::<nat, ParseIntError>(n as nat),
            Err(e) => parse_decimal_spec(s@, u32::MAX as nat) == Err::<nat, ParseIntError>(e),
        },
{
    match parse_decimal(s, 0xffff_ffff) {
        Ok(n) => Ok(n as u32),
        Err(e) => Err(e),
    }
}

impl ParseIntError {
    /// The text that says what went wrong.
    pub open spec fn message(self) -> Seq<char> {
        match self {
            ParseIntError::Empty => "cannot parse integer from empty string"@,
            ParseIntError::InvalidDigit => "invalid digit found in string"@,
            ParseIntError::PosOverflow => "number too large to fit in target type"@,
        }
    }

    /// Says what went wrong.
    pub fn to_string(&self) -> (r: String)
        ensures
            r@ == self.message(),
    {
        match self {
            ParseIntError::Empty => "cannot parse integer from empty string".to_string(),
            ParseIntError::InvalidDigit => "invalid digit found in string".to_string(),
            ParseIntError::PosOverflow => "number too large to fit in target type".to_string(),
        }
    }
}

} // verus!
