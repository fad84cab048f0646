//! Decimal integers: parsing with the exact outcome of `str::parse` for
//! `u16` and `i64`, and formatting as `to_string` writes them.

use vstd::prelude::*;
use crate::text::{chars_of, string_of};

verus! {

/// Why a decimal integer could not be parsed (the kinds of `core::num::IntErrorKind`
/// that decimal parsing produces).
#[derive(Debug, Clone, Copy, PartialEq, Eq, Structural)]
pub enum IntParseError {
    /// The text is empty.
    Empty,
    /// A character is not a decimal digit, or the text is a lone sign.
    InvalidDigit,
    /// The value is above the largest value of the type.
    PosOverflow,
    /// The value is below the smallest value of the type.
    NegOverflow,
}

impl IntParseError {
    /// The message that `ParseIntError`'s `Display` shows for this kind.
    pub fn message(&self) -> (m: &'static str)
        ensures
            m@ == match *self {
                IntParseError::Empty => "cannot parse integer from empty string"@,
                IntParseError::InvalidDigit => "invalid digit found in string"@,
                IntParseError::PosOverflow => "number too large to fit in target type"@,
                IntParseError::NegOverflow => "number too small to fit in target type"@,
            },
    {
        match self {
            IntParseError::Empty => "cannot parse integer from empty string",
            IntParseError::InvalidDigit => "invalid digit found in string",
            IntParseError::PosOverflow => "number too large to fit in target type",
            IntParseError::NegOverflow => "number too small to fit in target type",
        }
    }
}

/// An ASCII decimal digit.
pub open spec fn is_ascii_digit(c: char) -> bool {
    '0' <= c && c <= '9'
}

/// The value of an ASCII decimal digit.
pub open spec fn digit_value(c: char) -> int {
    (c as int) - 48
}

/// One step of decimal accumulation: the next digit `c` after the value `acc`.
pub open spec fn accumulate(acc: int, c: char, negative: bool, lo: int, hi: int) -> Result<int, IntParseError> {
    if !is_ascii_digit(c) {
        Err(IntParseError::InvalidDigit)
    } else if negative {
        if acc * 10 - digit_value(c) < lo {
            Err(IntParseError::NegOverflow)
        } else {
            Ok(acc * 10 - digit_value(c))
        }
    } else {
        if acc * 10 + digit_value(c) > hi {
            Err(IntParseError::PosOverflow)
        } else {
            Ok(acc * 10 + digit_value(c))
        }
    }
}

/// Reads the digits `d` left to right, starting from the value `acc`; the
/// first character that is no digit, or that leaves `lo..=hi`, decides the error.
pub open spec fn scan_digits(d: Seq<char>, acc: int, negative: bool, lo: int, hi: int) -> Result<int, IntParseError>
    decreases d.len(),
{
    if d.len() == 0 {
        Ok(acc)
    } else {
        match accumulate(acc, d[0], negative, lo, hi) {
            Ok(next) => scan_digits(d.drop_first(), next, negative, lo, hi),
            Err(e) => Err(e),
        }
    }
}

/// The outcome of parsing `s` as a decimal integer of the type whose range
/// is `lo..=hi` (`str::parse`): an optional `+`, or `-` where the type is
/// signed, then one or more ASCII digits.
pub open spec fn parse_integer(s: Seq<char>, signed: bool, lo: int, hi: int) -> Result<int, IntParseError> {
    if s.len() == 0 {
        Err(IntParseError::Empty)
    } else if (s[0] == '+' || s[0] == '-') && s.len() == 1 {
        Err(IntParseError::InvalidDigit)
    } else if s[0] == '+' {
        scan_digits(s.drop_first(), 0, false, lo, hi)
    } else if s[0] == '-' && signed {
        scan_digits(s.drop_first(), 0, true, lo, hi)
    } else {
        scan_digits(s, 0, false, lo, hi)
    }
}

/// The outcome of `s.parse::<u16>()`.
pub open spec fn parse_u16_spec(s: Seq<char>) -> Result<int, IntParseError> {
    parse_integer(s, false, 0, 65535)
}

/// The outcome of `s.parse::<i64>()`.
pub open spec fn parse_i64_spec(s: Seq<char>) -> Result<int, IntParseError> {
    parse_integer(s, true, i64::MIN as int, i64::MAX as int)
}

proof fn lemma_scan_in_range(d: Seq<char>, acc: int, negative: bool, lo: int, hi: int)
    requires
        lo <= acc <= hi,
        negative ==> acc <= 0,
        !negative ==> acc >= 0,
    ensures
        scan_digits(d, acc, negative, lo, hi) matches Ok(v) ==> lo <= v <= hi,
        negative && acc <= 0 ==> (scan_digits(d, acc, negative, lo, hi) matches Ok(v) ==> v <= 0),
        !negative && acc >= 0 ==> (scan_digits(d, acc, negative, lo, hi) matches Ok(v) ==> v >= 0),
    decreases d.len(),
{
    if d.len() > 0 {
        if let Ok(next) = accumulate(acc, d[0], negative, lo, hi) {
            lemma_scan_in_range(d.drop_first(), next, negative, lo, hi);
        }
    }
}

fn digit_exec(c: char) -> (r: Option<i128>)
    ensures
        r is Some <==> is_ascii_digit(c),
        r matches Some(v) ==> v == digit_value(c) && 0 <= v <= 9,
{
    if '0' <= c && c <= '9' {
        Some((c as u32 - 48) as i128)
    } else {
        None
    }
}

fn scan_digits_exec(d: &Vec<char>, from: usize, negative: bool, lo: i128, hi: i128) -> (r: Result<i128, IntParseError>)
    requires
        from <= d@.len(),
        -0x1_0000_0000_0000_0000 <= lo <= 0 <= hi <= 0x1_0000_0000_0000_0000,
    ensures
        r matches Ok(v) ==> scan_digits(d@.skip(from as int), 0, negative, lo as int, hi as int) == Ok::<int, IntParseError>(v as int),
        r matches Err(e) ==> scan_digits(d@.skip(from as int), 0, negative, lo as int, hi as int) == Err::<int, IntParseError>(e),
{
    let mut i: usize = from;
    let mut acc: i128 = 0;
    while i < d.len()
        invariant
            from <= i <= d@.len(),
            -0x1_0000_0000_0000_0000 <= lo <= 0 <= hi <= 0x1_0000_0000_0000_0000,
            lo <= acc <= hi,
            negative ==> acc <= 0,
            !negative ==> acc >= 0,
            scan_digits(d@.skip(from as int), 0, negative, lo as int, hi as int) == scan_digits(
                d@.skip(i as int),
                acc as int,
                negative,
                lo as int,
                hi as int,
            ),
        decreases d@.len() - i,
    {
        assert(d@.skip(i as int)[0] == d@[i as int]);
        assert(d@.skip(i as int).drop_first() =~= d@.skip(i + 1));
        match digit_exec(d[i]) {
            None => {
                return Err(IntParseError::InvalidDigit);
            },
            Some(x) => {
                if negative {
                    let next = acc * 10 - x;
                    if next < lo {
                        return Err(IntParseError::NegOverflow);
                    }
                    acc = next;
                } else {
                    let next = acc * 10 + x;
                    if next > hi {
                        return Err(IntParseError::PosOverflow);
                    }
                    acc = next;
                }
            },
        }
        i = i + 1;
    }
    assert(d@.skip(i as int) =~= Seq::<char>::empty());
    Ok(acc)
}

fn parse_integer_exec(s: &str, signed: bool, lo: i128, hi: i128) -> (r: Result<i128, IntParseError>)
    requires
        -0x1_0000_0000_0000_0000 <= lo <= 0 <= hi <= 0x1_0000_0000_0000_0000,
    ensures
        r matches Ok(v) ==> parse_integer(s@, signed, lo as int, hi as int) == Ok::<int, IntParseError>(v as int) && lo <= v <= hi,
        r matches Err(e) ==> parse_integer(s@, signed, lo as int, hi as int) == Err::<int, IntParseError>(e),
{
    let d = chars_of(s);
    if d.len() == 0 {
        return Err(IntParseError::Empty);
    }
    if (d[0] == '+' || d[0] == '-') && d.len() == 1 {
        return Err(IntParseError::InvalidDigit);
    }
    let r = if d[0] == '+' {
        assert(d@.skip(1) =~= d@.drop_first());
        scan_digits_exec(&d, 1, false, lo, hi)
    } else if d[0] == '-' && signed {
        assert(d@.skip(1) =~= d@.drop_first());
        scan_digits_exec(&d, 1, true, lo, hi)
    } else {
        assert(d@.skip(0) =~= d@);
        scan_digits_exec(&d, 0, false, lo, hi)
    };
    proof {
        lemma_scan_in_range(d@.drop_first(), 0, false, lo as int, hi as int);
        lemma_scan_in_range(d@.drop_first(), 0, true, lo as int, hi as int);
        lemma_scan_in_range(d@, 0, false, lo as int, hi as int);
    }
    r
}

/// The integer of a parse outcome, widened to `int`.
pub open spec fn widen_u16(r: Result<u16, IntParseError>) -> Result<int, IntParseError> {
    match r {
        Ok(v) => Ok(v as int),
        Err(e) => Err(e),
    }
}

/// The integer of a parse outcome, widened to `int`.
pub open spec fn widen_i64(r: Result<i64, IntParseError>) -> Result<int, IntParseError> {
    match r {
        Ok(v) => Ok(v as int),
        Err(e) => Err(e),
    }
}

/// Parses `s` as `str::parse::<u16>` does.
pub fn parse_u16(s: &str) -> (r: Result<u16, IntParseError>)
    ensures
        widen_u16(r) == parse_u16_spec(s@),
{
    match parse_integer_exec(s, false, 0, 65535) {
        Ok(v) => Ok(v as u16),
        Err(e) => Err(e),
    }
}

/// Parses `s` as `str::parse::<i64>` does.
pub fn parse_i64(s: &str) -> (r: Result<i64, IntParseError>)
    ensures
        widen_i64(r) == parse_i64_spec(s@),
{
    match parse_integer_exec(s, true, i64::MIN as i128, i64::MAX as i128) {
        Ok(v) => Ok(v as i64),
        Err(e) => Err(e),
    }
}

/// The ASCII digit for `d` in `0..10`.
pub open spec fn digit_char(d: nat) -> char {
    (48 + d) as char
}

/// The decimal digits of `n`, most significant first, without leading zeros.
pub open spec fn decimal_digits(n: nat) -> Seq<char>
    decreases n,
{
    if n < 10 {
        seq![digit_char(n)]
    } else {
        decimal_digits(n / 10).push(digit_char(n % 10))
    }
}

/// The decimal text of `n` as `to_string` writes it: a `-` before negative values.
pub open spec fn decimal_text(n: int) -> Seq<char> {
    if n < 0 {
        seq!['-'] + decimal_digits((-n) as nat)
    } else {
        decimal_digits(n as nat)
    }
}

fn push_digits(n: u64, out: &mut Vec<char>)
    ensures
        final(out)@ == old(out)@ + decimal_digits(n as nat),
    decreases n,
{
    if n >= 10 {
        push_digits(n / 10, out);
    }
    let d: u8 = (n % 10) as u8;
    let c: char = (48u8 + d) as char;
    out.push(c);
    proof {
        if n >= 10 {
            assert(old(out)@ + decimal_digits(n as nat) =~= old(out)@ + decimal_digits((n / 10) as nat) + seq![digit_char((n % 10) as nat)]);
        } else {
            assert(old(out)@ + decimal_digits(n as nat) =~= old(out)@.push(digit_char(n as nat)));
        }
    }
}

/// `n.to_string()` for a `u64`.
pub fn decimal_u64(n: u64) -> (s: String)
    ensures
        s@ == decimal_digits(n as nat),
{
    let mut v: Vec<char> = Vec::new();
    push_digits(n, &mut v);
    assert(Seq::<char>::empty() + decimal_digits(n as nat) =~= decimal_digits(n as nat));
    string_of(v.as_slice())
}

/// `n.to_string()` for an `i64`.
pub fn decimal_i64(n: i64) -> (s: String)
    ensures
        s@ == decimal_text(n as int),
{
    let mut v: Vec<char> = Vec::new();
    if n < 0 {
        v.push('-');
        let magnitude: u64 = (-(n as i128)) as u64;
        push_digits(magnitude, &mut v);
    } else {
        push_digits(n as u64, &mut v);
        assert(Seq::<char>::empty() + decimal_digits(n as nat) =~= decimal_digits(n as nat));
    }
    string_of(v.as_slice())
}


proof fn lemma_scan_push(d: Seq<char>, c: char, acc: int, negative: bool, lo: int, hi: int)
    ensures
        scan_digits(d.push(c), acc, negative, lo, hi) == (match scan_digits(d, acc, negative, lo, hi) {
            Ok(v) => accumulate(v, c, negative, lo, hi),
            Err(e) => Err(e),
        }),
    decreases d.len(),
{
    if d.len() == 0 {
        assert(d.push(c).drop_first() =~= Seq::<char>::empty());
        assert(d.push(c)[0] == c);
        if let Ok(next) = accumulate(acc, c, negative, lo, hi) {
            assert(scan_digits(Seq::<char>::empty(), next, negative, lo, hi) == Ok::<int, IntParseError>(next));
        }
    } else {
        assert(d.push(c).drop_first() =~= d.drop_first().push(c));
        assert(d.push(c)[0] == d[0]);
        if let Ok(next) = accumulate(acc, d[0], negative, lo, hi) {
            lemma_scan_push(d.drop_first(), c, next, negative, lo, hi);
        }
    }
}

proof fn lemma_digit_char(d: nat)
    requires
        d < 10,
    ensures
        is_ascii_digit(digit_char(d)),
        digit_value(digit_char(d)) == d,
{
    assert(((48 + d) as char) as int == 48 + d);
}

proof fn lemma_decimal_digits_shape(n: nat)
    ensures
        decimal_digits(n).len() >= 1,
        is_ascii_digit(decimal_digits(n)[0]),
    decreases n,
{
    if n < 10 {
        lemma_digit_char(n);
    } else {
        lemma_decimal_digits_shape(n / 10);
    }
}

proof fn lemma_scan_decimal(n: nat, negative: bool, lo: int, hi: int)
    requires
        lo <= 0 <= hi,
        !negative ==> n <= hi,
        negative ==> -n >= lo,
    ensures
        scan_digits(decimal_digits(n), 0, negative, lo, hi) == Ok::<int, IntParseError>(
            if negative {
                -n
            } else {
                n as int
            },
        ),
    decreases n,
{
    let c = digit_char(n % 10);
    lemma_digit_char(n % 10);
    if n < 10 {
        assert(decimal_digits(n) =~= Seq::<char>::empty().push(c));
        lemma_scan_push(Seq::<char>::empty(), c, 0, negative, lo, hi);
    } else {
        lemma_scan_decimal(n / 10, negative, lo, hi);
        lemma_scan_push(decimal_digits(n / 10), c, 0, negative, lo, hi);
        assert(n == (n / 10) * 10 + n % 10);
    }
}

/// Decimal text holds only digits, so never a `:`.
pub proof fn lemma_decimal_digits_no_colon(n: nat)
    ensures
        !decimal_digits(n).contains(':'),
        forall|i: int| 0 <= i < decimal_digits(n).len() ==> is_ascii_digit(#[trigger] decimal_digits(n)[i]),
    decreases n,
{
    lemma_digit_char(n % 10);
    if n >= 10 {
        lemma_decimal_digits_no_colon(n / 10);
    }
    assert forall|i: int| 0 <= i < decimal_digits(n).len() implies is_ascii_digit(#[trigger] decimal_digits(n)[i]) by {
        if n >= 10 && i < decimal_digits(n).len() - 1 {
            assert(decimal_digits(n)[i] == decimal_digits(n / 10)[i]);
        }
    }
    if decimal_digits(n).contains(':') {
        let i = choose|i: int| 0 <= i < decimal_digits(n).len() && decimal_digits(n)[i] == ':';
        assert(is_ascii_digit(decimal_digits(n)[i]));
    }
}

/// Law: writing a `u16` in decimal and parsing the text as a `u16` gives the
/// number back.
pub proof fn law_u16_decimal_round_trip(n: u16)
    ensures
        parse_u16_spec(decimal_digits(n as nat)) == Ok::<int, IntParseError>(n as int),
{
    lemma_decimal_digits_shape(n as nat);
    lemma_scan_decimal(n as nat, false, 0, 65535);
}

/// Law: writing an `i64` in decimal and parsing the text as an `i64` gives the
/// number back.
pub proof fn law_i64_decimal_round_trip(n: i64)
    ensures
        parse_i64_spec(decimal_text(n as int)) == Ok::<int, IntParseError>(n as int),
{
    if n < 0 {
        let m = (-n) as nat;
        lemma_decimal_digits_shape(m);
        lemma_scan_decimal(m, true, i64::MIN as int, i64::MAX as int);
        assert((seq!['-'] + decimal_digits(m)).drop_first() =~= decimal_digits(m));
    } else {
        lemma_decimal_digits_shape(n as nat);
        lemma_scan_decimal(n as nat, false, i64::MIN as int, i64::MAX as int);
    }
}


/// One or more ASCII digits.
pub open spec fn is_decimal(d: Seq<char>) -> bool {
    d.len() > 0 && forall|i: int| 0 <= i < d.len() ==> is_ascii_digit(#[trigger] d[i])
}

/// The value of a sequence of ASCII digits, most significant first.
pub open spec fn decimal_value(d: Seq<char>) -> int
    decreases d.len(),
{
    if d.len() == 0 {
        0
    } else {
        decimal_value(d.drop_last()) * 10 + digit_value(d.last())
    }
}

proof fn lemma_scan_reads_digits(d: Seq<char>, negative: bool, lo: int, hi: int)
    requires
        lo <= 0 <= hi,
    ensures
        (forall|i: int| 0 <= i < d.len() ==> is_ascii_digit(#[trigger] d[i])) ==> decimal_value(d) >= 0
            && scan_digits(d, 0, negative, lo, hi) == (if !negative && decimal_value(d) > hi {
            Err(IntParseError::PosOverflow)
        } else if negative && -decimal_value(d) < lo {
            Err(IntParseError::NegOverflow)
        } else if negative {
            Ok(-decimal_value(d))
        } else {
            Ok(decimal_value(d))
        }),
        !(forall|i: int| 0 <= i < d.len() ==> is_ascii_digit(#[trigger] d[i])) ==> scan_digits(
            d,
            0,
            negative,
            lo,
            hi,
        ) is Err,
    decreases d.len(),
{
    if d.len() > 0 {
        let prev = d.drop_last();
        let c = d.last();
        assert(prev.push(c) =~= d);
        lemma_scan_reads_digits(prev, negative, lo, hi);
        lemma_scan_push(prev, c, 0, negative, lo, hi);
        assert(d[d.len() - 1] == c);
        if forall|i: int| 0 <= i < prev.len() ==> is_ascii_digit(#[trigger] prev[i]) {
            if is_ascii_digit(c) {
                assert forall|i: int| 0 <= i < d.len() implies is_ascii_digit(#[trigger] d[i]) by {
                    if i < prev.len() {
                        assert(d[i] == prev[i]);
                    }
                }
            }
        } else {
            let i = choose|i: int| 0 <= i < prev.len() && !is_ascii_digit(#[trigger] prev[i]);
            assert(d[i] == prev[i]);
        }
    }
}

/// Law: parsing accepts exactly an optional `+` (or `-` for a signed type)
/// followed by one or more ASCII digits whose value lies in the type's range,
/// and gives that value.
pub proof fn law_parse_reads_decimal(s: Seq<char>, signed: bool, lo: int, hi: int)
    requires
        lo <= 0 <= hi,
    ensures
        parse_integer(s, signed, lo, hi) matches Ok(v) ==> lo <= v <= hi && (
            (is_decimal(s) && v == decimal_value(s))
            || (s.len() > 0 && s[0] == '+' && is_decimal(s.drop_first()) && v == decimal_value(s.drop_first()))
            || (signed && s.len() > 0 && s[0] == '-' && is_decimal(s.drop_first()) && v == -decimal_value(s.drop_first()))),
        is_decimal(s) && decimal_value(s) <= hi ==> parse_integer(s, signed, lo, hi) == Ok::<int, IntParseError>(decimal_value(s)),
        s.len() > 0 && s[0] == '+' && is_decimal(s.drop_first()) && decimal_value(s.drop_first()) <= hi
            ==> parse_integer(s, signed, lo, hi) == Ok::<int, IntParseError>(decimal_value(s.drop_first())),
        signed && s.len() > 0 && s[0] == '-' && is_decimal(s.drop_first()) && -decimal_value(s.drop_first()) >= lo
            ==> parse_integer(s, signed, lo, hi) == Ok::<int, IntParseError>(-decimal_value(s.drop_first())),
{
    if s.len() > 0 {
        lemma_scan_reads_digits(s, false, lo, hi);
        lemma_scan_reads_digits(s.drop_first(), false, lo, hi);
        lemma_scan_reads_digits(s.drop_first(), true, lo, hi);
        if is_decimal(s) {
            assert(is_ascii_digit(s[0]));
        }
        assert forall|i: int| 0 <= i < s.drop_first().len() implies s.drop_first()[i] == s[i + 1] by {}
    }
}

/// Law: a `u16` is parsed from exactly an optional `+` and one or more ASCII
/// digits of value at most 65535.
pub proof fn law_u16_parse_reads_decimal(s: Seq<char>)
    ensures
        parse_u16_spec(s) matches Ok(v) ==> 0 <= v <= 65535 && (
            (is_decimal(s) && v == decimal_value(s))
            || (s.len() > 0 && s[0] == '+' && is_decimal(s.drop_first()) && v == decimal_value(s.drop_first()))),
        is_decimal(s) && decimal_value(s) <= 65535 ==> parse_u16_spec(s) == Ok::<int, IntParseError>(decimal_value(s)),
{
    law_parse_reads_decimal(s, false, 0, 65535);
}

} // verus!
