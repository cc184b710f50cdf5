//! Numbers as decimal text.

use vstd::prelude::*;

verus! {

/// The character of a decimal digit.
pub open spec fn digit(d: int) -> char {
    (48 + d) as char
}

/// `c` is one of `0` to `9`.
pub open spec fn is_digit(c: char) -> bool {
    '0' <= c && c <= '9'
}

/// The value of a digit character.
pub open spec fn digit_value(c: char) -> int {
    c as int - 48
}

/// All characters of `s` are digits.
pub open spec fn all_digits(s: Seq<char>) -> bool {
    forall|i: int| 0 <= i < s.len() ==> is_digit(#[trigger] s[i])
}

/// The decimal digits of a number, without leading zeros.
pub open spec fn decimal(n: nat) -> Seq<char>
    decreases n,
{
    if n < 10 {
        seq![digit(n as int)]
    } else {
        decimal(n / 10).push(digit(n as int % 10))
    }
}

/// The decimal text of a number, with `-` in front of a negative one.
pub open spec fn signed_decimal(i: int) -> Seq<char> {
    if i < 0 {
        seq!['-'] + decimal((-i) as nat)
    } else {
        decimal(i as nat)
    }
}

/// The number that a run of digits stands for.
pub open spec fn digits_value(s: Seq<char>) -> int
    decreases s.len(),
{
    if s.len() == 0 {
        0
    } else {
        digits_value(s.drop_last()) * 10 + digit_value(s.last())
    }
}

/// The value of `s` as a run of at least one digit, if it is at most `max`.
pub open spec fn parse_digits(s: Seq<char>, max: int) -> Option<int> {
    if s.len() > 0 && all_digits(s) && digits_value(s) <= max {
        Some(digits_value(s))
    } else {
        None
    }
}

/// The value of `s` as an unsigned number up to `max`: digits, after an optional `+`.
pub open spec fn parse_unsigned(s: Seq<char>, max: int) -> Option<int> {
    if s.len() > 0 && s[0] == '+' {
        parse_digits(s.skip(1), max)
    } else {
        parse_digits(s, max)
    }
}

/// The value of `s` as a 32 bit signed number: digits, after an optional `+` or `-`.
pub open spec fn parse_signed(s: Seq<char>) -> Option<int> {
    if s.len() > 0 && s[0] == '-' {
        match parse_digits(s.skip(1), -(i32::MIN as int)) {
            Some(v) => Some(-v),
            None => None,
        }
    } else {
        parse_unsigned(s, i32::MAX as int)
    }
}

/// Longer runs of digits stand for larger numbers.
proof fn lemma_digits_value_grows(s: Seq<char>, n: int)
    requires
        all_digits(s),
        0 <= n <= s.len(),
    ensures
        0 <= digits_value(s.take(n)) <= digits_value(s),
    decreases s.len(),
{
    if n < s.len() {
        assert(s.drop_last().take(n) == s.take(n));
        assert(is_digit(s.last()));
        assert forall|i: int| 0 <= i < s.drop_last().len() implies is_digit(
            #[trigger] s.drop_last()[i],
        ) by {
            assert(is_digit(s[i]));
        }
        lemma_digits_value_grows(s.drop_last(), n);
    } else {
        assert(s.take(n) == s);
        if s.len() > 0 {
            assert(is_digit(s.last()));
            assert forall|i: int| 0 <= i < s.drop_last().len() implies is_digit(
                #[trigger] s.drop_last()[i],
            ) by {
                assert(is_digit(s[i]));
            }
            lemma_digits_value_grows(s.drop_last(), s.len() - 1);
        }
    }
}

/// A number's decimal text is a run of digits that stands for the number.
pub proof fn decimal_reads_back(n: nat)
    ensures
        decimal(n).len() > 0,
        all_digits(decimal(n)),
        digits_value(decimal(n)) == n,
    decreases n,
{
    if n < 10 {
        assert(decimal(n).drop_last() == Seq::<char>::empty());
        assert(digits_value(Seq::<char>::empty()) == 0);
    } else {
        decimal_reads_back(n / 10);
        assert(decimal(n).drop_last() == decimal(n / 10));
    }
}

/// Parsing gives back the number whose decimal text was written.
pub proof fn unsigned_reads_back(n: nat, max: int)
    requires
        n <= max,
    ensures
        parse_unsigned(decimal(n), max) == Some(n as int),
{
    decimal_reads_back(n);
    assert(is_digit(decimal(n)[0]));
}

/// Parsing gives back the 32 bit number whose decimal text was written.
pub proof fn signed_reads_back(i: i32)
    ensures
        parse_signed(signed_decimal(i as int)) == Some(i as int),
{
    if i < 0 {
        let n = (-(i as int)) as nat;
        decimal_reads_back(n);
        assert(signed_decimal(i as int).skip(1) == decimal(n));
    } else {
        decimal_reads_back(i as nat);
        assert(is_digit(decimal(i as nat)[0]));
        unsigned_reads_back(i as nat, i32::MAX as int);
    }
}

/// Whether `c` is a decimal digit.
pub fn is_digit_char(c: char) -> (r: bool)
    ensures
        r == is_digit(c),
{
    '0' <= c && c <= '9'
}

/// The decimal text of a number.
pub fn decimal_string(n: u128) -> (r: String)
    ensures
        r@ == decimal(n as nat),
    decreases n,
{
    let last: u8 = (48 + n % 10) as u8;
    let mut out = if n < 10 {
        String::new()
    } else {
        decimal_string(n / 10)
    };
    out.push(last as char);
    out
}

/// The decimal text of a size.
pub fn usize_string(n: usize) -> (r: String)
    ensures
        r@ == decimal(n as nat),
{
    decimal_string(n as u128)
}

/// The decimal text of a signed number.
pub fn i32_string(i: i32) -> (r: String)
    ensures
        r@ == signed_decimal(i as int),
{
    if i < 0 {
        let mut out = String::new();
        out.push('-');
        let magnitude: i64 = -(i as i64);
        out.append(decimal_string(magnitude as u128).as_str());
        out
    } else {
        decimal_string(i as u128)
    }
}

/// The value of a run of digits up to `max`.
fn parse_digits_slice(s: &[char], max: u64) -> (r: Option<u64>)
    ensures
        match r {
            Some(v) => parse_digits(s@, max as int) == Some(v as int),
            None => parse_digits(s@, max as int) is None,
        },
{
    if s.len() == 0 {
        return None;
    }
    let mut value: u128 = 0;
    for i in 0..s.len()
        invariant
            forall|j: int| 0 <= j < i ==> is_digit(#[trigger] s@[j]),
            value == digits_value(s@.take(i as int)),
            value <= max,
    {
        if !is_digit_char(s[i]) {
            assert(!is_digit(s@[i as int]));
            return None;
        }
        let next: u128 = value * 10 + (s[i] as u32 - 48) as u128;
        assert(s@.take(i as int + 1).drop_last() == s@.take(i as int));
        if next > max as u128 {
            proof {
                if all_digits(s@) {
                    lemma_digits_value_grows(s@, i as int + 1);
                }
            }
            return None;
        }
        value = next;
    }
    assert(s@.take(s@.len() as int) == s@);
    Some(value as u64)
}

/// The number that a run of digits stands for, if it fits.
pub fn parse_digits_usize(s: &[char]) -> (r: Option<usize>)
    ensures
        match r {
            Some(v) => parse_digits(s@, usize::MAX as int) == Some(v as int),
            None => parse_digits(s@, usize::MAX as int) is None,
        },
{
    match parse_digits_slice(s, usize::MAX as u64) {
        Some(v) => Some(v as usize),
        None => None,
    }
}

/// The number that an optional `+` and digits stand for, if it fits.
pub fn parse_usize(s: &[char]) -> (r: Option<usize>)
    ensures
        match r {
            Some(v) => parse_unsigned(s@, usize::MAX as int) == Some(v as int),
            None => parse_unsigned(s@, usize::MAX as int) is None,
        },
{
    let digits = if s.len() > 0 && s[0] == '+' {
        &s[1..s.len()]
    } else {
        s
    };
    parse_digits_usize(digits)
}

/// The number that an optional sign and digits stand for, if it fits.
pub fn parse_i32(s: &[char]) -> (r: Option<i32>)
    ensures
        match r {
            Some(v) => parse_signed(s@) == Some(v as int),
            None => parse_signed(s@) is None,
        },
{
    if s.len() > 0 && s[0] == '-' {
        match parse_digits_slice(&s[1..s.len()], 2147483648) {
            Some(v) => Some((-(v as i64)) as i32),
            None => None,
        }
    } else {
        let digits = if s.len() > 0 && s[0] == '+' {
            &s[1..s.len()]
        } else {
            s
        };
        match parse_digits_slice(digits, 2147483647) {
            Some(v) => Some(v as i32),
            None => None,
        }
    }
}

/// Numbers are written in base ten: one more digit at the end is ten times the number and
/// the digit.
pub proof fn digits_count_by_tens(n: nat, d: nat)
    requires
        d < 10,
    ensures
        n > 0 ==> decimal(10 * n + d) == decimal(n).push((48 + d) as char),
        decimal(d) == seq![(48 + d) as char],
        digits_value(decimal(n).push((48 + d) as char)) == 10 * n + d,
{
    decimal_reads_back(n);
    let s = decimal(n).push((48 + d) as char);
    assert(s.drop_last() =~= decimal(n));
    if n > 0 {
        assert((10 * n + d) / 10 == n && (10 * n + d) % 10 == d) by (nonlinear_arith)
            requires
                d < 10,
        ;
    }
}

/// A plus in front of a number does not count, and a minus makes it negative; a text with
/// any other character is no number.
pub proof fn signs_are_read(n: nat, max: int, s: Seq<char>)
    ensures
        n <= max ==> parse_unsigned(seq!['+'] + decimal(n), max) == Some(n as int),
        n > max ==> parse_unsigned(decimal(n), max) is None,
        n <= i32::MAX ==> parse_signed(seq!['-'] + decimal(n)) == Some(-(n as int)),
        n <= i32::MAX ==> parse_signed(seq!['+'] + decimal(n)) == Some(n as int),
        parse_unsigned(s, max) is Some ==> forall|i: int|
            1 <= i < s.len() ==> '0' <= #[trigger] s[i] && s[i] <= '9',
        parse_unsigned(Seq::<char>::empty(), max) is None,
{
    decimal_reads_back(n);
    let d = decimal(n);
    assert((seq!['+'] + d).skip(1) =~= d);
    assert((seq!['-'] + d).skip(1) =~= d);
    assert(is_digit(d[0]));
    if s.len() > 0 && s[0] == '+' {
        assert forall|i: int| 1 <= i < s.len() && parse_unsigned(s, max) is Some implies '0'
            <= #[trigger] s[i] && s[i] <= '9' by {
            assert(is_digit(s.skip(1)[i - 1]));
        }
    } else {
        assert forall|i: int| 1 <= i < s.len() && parse_unsigned(s, max) is Some implies '0'
            <= #[trigger] s[i] && s[i] <= '9' by {
            assert(is_digit(s[i]));
        }
    }
}

} // verus!
