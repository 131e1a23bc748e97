//! Decimal and hexadecimal numerals.
use vstd::prelude::*;
use crate::text;
use crate::text::{is_all, from_index, Class};

verus! {

/// The numeral of a digit.
pub open spec fn digit_char(d: int) -> char {
    if d == 0 { '0' }
    else if d == 1 { '1' }
    else if d == 2 { '2' }
    else if d == 3 { '3' }
    else if d == 4 { '4' }
    else if d == 5 { '5' }
    else if d == 6 { '6' }
    else if d == 7 { '7' }
    else if d == 8 { '8' }
    else if d == 9 { '9' }
    else if d == 10 { 'a' }
    else if d == 11 { 'b' }
    else if d == 12 { 'c' }
    else if d == 13 { 'd' }
    else if d == 14 { 'e' }
    else { 'f' }
}

/// The digit that a numeral stands for.
pub open spec fn digit_value(c: char) -> nat {
    (c as int - '0' as int) as nat
}

/// A number in decimal notation, without leading zeros.
pub open spec fn decimal(n: nat) -> Seq<char>
    decreases n,
{
    if n < 10 {
        seq![digit_char(n as int)]
    } else {
        decimal(n / 10).push(digit_char((n % 10) as int))
    }
}

/// A byte as two hexadecimal digits.
pub open spec fn hex_pair(n: nat) -> Seq<char> {
    seq![digit_char((n / 16) as int), digit_char((n % 16) as int)]
}

/// The number that a run of decimal digits stands for.
pub open spec fn decimal_value(s: Seq<char>) -> nat
    decreases s.len(),
{
    if s.len() == 0 {
        0
    } else {
        decimal_value(s.drop_last()) * 10 + digit_value(s.last())
    }
}

/// The digits of a numeral after an optional plus sign.
pub open spec fn unsigned_digits(s: Seq<char>) -> Seq<char> {
    if s.len() > 0 && s[0] == '+' {
        s.drop_first()
    } else {
        s
    }
}

/// The unsigned number that a text stands for: an optional plus sign and at
/// least one digit, with a value of at most `max`.
pub open spec fn unsigned_value(s: Seq<char>, max: nat) -> Option<nat> {
    let digits = unsigned_digits(s);
    if digits.len() > 0 && text::all_in(digits, Class::AsciiDigit) && decimal_value(digits) <= max {
        Some(decimal_value(digits))
    } else {
        None
    }
}

/// The signed 64-bit number that a text stands for: an optional sign and at
/// least one digit.
pub open spec fn signed_value(s: Seq<char>) -> Option<int> {
    let negative = s.len() > 0 && s[0] == '-';
    let digits = if negative { s.drop_first() } else { unsigned_digits(s) };
    let value = if negative { -(decimal_value(digits) as int) } else {
        decimal_value(digits) as int
    };
    if digits.len() > 0 && text::all_in(digits, Class::AsciiDigit) && i64::MIN <= value <= i64::MAX {
        Some(value)
    } else {
        None
    }
}

/// A number as far as a signed 64-bit number reaches.
pub open spec fn clamp(n: nat) -> int {
    if n > i64::MAX {
        i64::MAX as int
    } else {
        n as int
    }
}

/// A number as far as a signed 64-bit number reaches.
pub fn clamped(n: u128) -> (r: i64)
    ensures
        r == clamp(n as nat),
{
    if n > 9_223_372_036_854_775_807 {
        i64::MAX
    } else {
        n as i64
    }
}

/// What is wrong with a text that is no number, in words.
pub uninterp spec fn number_problem(s: Seq<char>) -> Seq<char>;

/// `str::parse` reads a `usize`: an optional plus sign and digits. Otherwise it
/// says what is wrong with the text.
#[verifier::external_body]
pub(crate) fn parse_usize(s: &str) -> (r: Result<usize, String>)
    ensures
        match r {
            Ok(n) => unsigned_value(s@, usize::MAX as nat) == Some(n as nat),
            Err(problem) => unsigned_value(s@, usize::MAX as nat) is None && problem@
                == number_problem(s@),
        },
{
    s.parse::<usize>().map_err(|error| error.to_string())
}

fn numeral(d: u8) -> (c: char)
    requires
        d < 16,
    ensures
        c == digit_char(d as int),
{
    match d {
        0 => '0',
        1 => '1',
        2 => '2',
        3 => '3',
        4 => '4',
        5 => '5',
        6 => '6',
        7 => '7',
        8 => '8',
        9 => '9',
        10 => 'a',
        11 => 'b',
        12 => 'c',
        13 => 'd',
        14 => 'e',
        _ => 'f',
    }
}

/// Writes a number in decimal notation.
pub fn decimal_chars(n: u64) -> (r: Vec<char>)
    ensures
        r@ == decimal(n as nat),
    decreases n,
{
    if n < 10 {
        let mut out: Vec<char> = Vec::new();
        out.push(numeral(n as u8));
        assert(out@ =~= decimal(n as nat));
        out
    } else {
        let mut out = decimal_chars(n / 10);
        out.push(numeral((n % 10) as u8));
        out
    }
}

/// Writes a byte as two hexadecimal digits.
pub fn hex_chars(n: u8) -> (r: Vec<char>)
    ensures
        r@ == hex_pair(n as nat),
{
    let mut out: Vec<char> = Vec::new();
    out.push(numeral(n / 16));
    out.push(numeral(n % 16));
    assert(out@ =~= hex_pair(n as nat));
    out
}

proof fn lemma_value_grows(s: Seq<char>, n: int)
    requires
        0 <= n <= s.len(),
    ensures
        decimal_value(s.take(n)) <= decimal_value(s),
    decreases s.len(),
{
    if n < s.len() {
        lemma_value_grows(s.drop_last(), n);
        assert(s.drop_last().take(n) =~= s.take(n));
    } else {
        assert(s.take(n) =~= s);
    }
}

/// The value of a run of digits, if it is at most `max`.
fn bounded_value(s: &[char], max: u64) -> (r: Option<u64>)
    requires
        text::all_in(s@, Class::AsciiDigit),
    ensures
        match r {
            Some(n) => n as nat == decimal_value(s@) && n <= max,
            None => decimal_value(s@) > max,
        },
{
    let mut value: u64 = 0;
    let mut i: usize = 0;
    assert(s@.take(0) =~= Seq::<char>::empty());
    while i < s.len()
        invariant
            i <= s@.len(),
            text::all_in(s@, Class::AsciiDigit),
            value as nat == decimal_value(s@.take(i as int)),
            value <= max,
        decreases s.len() - i,
    {
        let c = s[i];
        assert(text::in_class(Class::AsciiDigit, s@[i as int]));
        let d: u64 = (c as u32 - '0' as u32) as u64;
        proof {
            assert(s@.take(i + 1).drop_last() =~= s@.take(i as int));
            lemma_value_grows(s@, i + 1);
        }
        if value > max / 10 || max - value * 10 < d {
            return None;
        }
        value = value * 10 + d;
        i += 1;
    }
    assert(s@.take(s@.len() as int) =~= s@);
    Some(value)
}

/// Reads an unsigned number of at most `max`.
pub fn parse_unsigned(s: &[char], max: u64) -> (r: Option<u64>)
    ensures
        match r {
            Some(n) => unsigned_value(s@, max as nat) == Some(n as nat),
            None => unsigned_value(s@, max as nat) is None,
        },
{
    let digits = if s.len() > 0 && s[0] == '+' {
        from_index(s, 1)
    } else {
        s
    };
    assert(digits@ =~= unsigned_digits(s@));
    if digits.len() == 0 || !is_all(digits, Class::AsciiDigit) {
        return None;
    }
    bounded_value(digits, max)
}

/// Reads a signed 64-bit number.
pub fn parse_signed(s: &[char]) -> (r: Option<i64>)
    ensures
        match r {
            Some(n) => signed_value(s@) == Some(n as int),
            None => signed_value(s@) is None,
        },
{
    if s.len() > 0 && s[0] == '-' {
        let digits = from_index(s, 1);
        assert(digits@ =~= s@.drop_first());
        if digits.len() == 0 || !is_all(digits, Class::AsciiDigit) {
            return None;
        }
        match bounded_value(digits, 9_223_372_036_854_775_808) {
            Some(n) => if n == 9_223_372_036_854_775_808 {
                Some(i64::MIN)
            } else {
                Some(-(n as i64))
            },
            None => None,
        }
    } else {
        match parse_unsigned(s, 9_223_372_036_854_775_807) {
            Some(n) => Some(n as i64),
            None => None,
        }
    }
}

/// A number survives being written and read back.
pub proof fn law_decimal_reads_back(n: nat)
    ensures
        decimal(n).len() > 0,
        text::all_in(decimal(n), Class::AsciiDigit),
        decimal_value(decimal(n)) == n,
        unsigned_value(decimal(n), n) == Some(n),
    decreases n,
{
    if n < 10 {
        reveal_with_fuel(decimal_value, 2);
        assert(decimal(n).drop_last() =~= Seq::<char>::empty());
    } else {
        law_decimal_reads_back(n / 10);
        assert(decimal(n).drop_last() =~= decimal(n / 10));
        assert(decimal(n).last() == digit_char((n % 10) as int));
        assert forall|i: int| 0 <= i < decimal(n).len() implies text::in_class(
            Class::AsciiDigit,
            #[trigger] decimal(n)[i],
        ) by {
            if i < decimal(n / 10).len() {
                assert(decimal(n)[i] == decimal(n / 10)[i]);
            }
        }
    }
    assert(text::in_class(Class::AsciiDigit, decimal(n)[0]));
    assert(unsigned_digits(decimal(n)) =~= decimal(n));
}

} // verus!
