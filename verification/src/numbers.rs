//! Numbers as text, and text as numbers.

use vstd::arithmetic::power::pow;
use vstd::prelude::*;

use crate::text::concat2;
use crate::text::to_chars;

verus! {

/// The digit for `d`, which is below sixteen.
pub open spec fn digit(d: int) -> char {
    if d < 10 {
        (0x30 + d) as char
    } else {
        (0x61 + (d - 10)) as char
    }
}

/// `n` in decimal digits, without leading zeros.
pub open spec fn decimal(n: nat) -> Seq<char>
    decreases n,
{
    if n < 10 {
        seq![digit(n as int)]
    } else {
        decimal(n / 10).push(digit((n % 10) as int))
    }
}

/// `n` in decimal digits, after a minus sign if it is negative.
pub open spec fn signed_decimal(n: int) -> Seq<char> {
    if n < 0 {
        seq!['-'] + decimal((-n) as nat)
    } else {
        decimal(n as nat)
    }
}

/// The digit for `d` as text.
fn digit_text(d: u64) -> (r: &'static str)
    requires
        d < 16,
    ensures
        r@ == seq![digit(d as int)],
{
    proof {
        reveal_strlit("0");
        reveal_strlit("1");
        reveal_strlit("2");
        reveal_strlit("3");
        reveal_strlit("4");
        reveal_strlit("5");
        reveal_strlit("6");
        reveal_strlit("7");
        reveal_strlit("8");
        reveal_strlit("9");
        reveal_strlit("a");
        reveal_strlit("b");
        reveal_strlit("c");
        reveal_strlit("d");
        reveal_strlit("e");
        reveal_strlit("f");
    }
    let r = match d {
        0 => "0",
        1 => "1",
        2 => "2",
        3 => "3",
        4 => "4",
        5 => "5",
        6 => "6",
        7 => "7",
        8 => "8",
        9 => "9",
        10 => "a",
        11 => "b",
        12 => "c",
        13 => "d",
        14 => "e",
        _ => "f",
    };
    assert(r@ =~= seq![digit(d as int)]);
    r
}

/// `n` in decimal digits.
pub fn decimal_text(n: u64) -> (r: String)
    ensures
        r@ == decimal(n as nat),
    decreases n,
{
    if n < 10 {
        digit_text(n).to_owned()
    } else {
        let mut r = decimal_text(n / 10);
        r.append(digit_text(n % 10));
        assert(r@ =~= decimal(n as nat));
        r
    }
}

/// `n` in decimal digits, after a minus sign if it is negative.
pub fn signed_decimal_text(n: i64) -> (r: String)
    ensures
        r@ == signed_decimal(n as int),
{
    if n < 0 {
        let m: u64 = (-(n as i128)) as u64;
        proof {
            reveal_strlit("-");
        }
        assert("-"@ =~= seq!['-']);
        concat2("-", decimal_text(m).as_str())
    } else {
        decimal_text(n as u64)
    }
}

/// `n` in sixteen hexadecimal digits.
pub open spec fn hex16(n: u64) -> Seq<char> {
    Seq::new(16, |i: int| digit((n as int / pow(16, (15 - i) as nat)) % 16))
}

/// `n` in sixteen hexadecimal digits.
pub fn hex16_text(n: u64) -> (r: String)
    ensures
        r@ == hex16(n),
{
    let mut r = String::new();
    let mut shown: usize = 0;
    let mut m: u64 = n;
    // The digits come out from the last to the first.
    proof {
        vstd::arithmetic::power::lemma_pow0(16);
    }
    while shown < 16
        invariant
            shown <= 16,
            m as int == n as int / pow(16, shown as nat),
            pow(16, shown as nat) > 0,
            r@ == hex16(n).skip(16 - shown),
        decreases 16 - shown,
    {
        let ghost tail = r@;
        let mut next = digit_text(m % 16).to_owned();
        next.append(r.as_str());
        proof {
            let k = shown as nat;
            assert(hex16(n)[15 - shown] == digit((m % 16) as int));
            assert(hex16(n).skip(15 - shown) =~= seq![hex16(n)[15 - shown]] + tail);
            reveal(pow);
            assert(pow(16, k + 1) == 16 * pow(16, k));
            vstd::arithmetic::div_mod::lemma_div_denominator(n as int, pow(16, k), 16);
            assert(pow(16, k) * 16 == pow(16, k + 1)) by (nonlinear_arith)
                requires
                    pow(16, k + 1) == 16 * pow(16, k),
            ;
        }
        r = next;
        m = m / 16;
        shown = shown + 1;
    }
    assert(hex16(n).skip(0) =~= hex16(n));
    r
}

/// `c` is a decimal digit.
pub open spec fn is_digit(c: char) -> bool {
    0x30 <= c as int <= 0x39
}

/// What a row of decimal digits stands for.
pub open spec fn digits_value(s: Seq<char>) -> nat
    decreases s.len(),
{
    if s.len() == 0 {
        0
    } else {
        digits_value(s.drop_last()) * 10 + (s.last() as int - 0x30) as nat
    }
}

/// `s` without a plus sign at its beginning.
pub open spec fn without_plus(s: Seq<char>) -> Seq<char> {
    if s.len() > 0 && s[0] == '+' {
        s.skip(1)
    } else {
        s
    }
}

/// There are only decimal digits in `s`.
pub open spec fn all_digits(s: Seq<char>) -> bool {
    forall|i: int| 0 <= i < s.len() ==> is_digit(#[trigger] s[i])
}

/// The number that `s` stands for: decimal digits, at least one, after a plus sign
/// or not; none if it is anything else or above `u32::MAX`.
pub open spec fn number_u32(s: Seq<char>) -> Option<u32> {
    let digits = without_plus(s);
    if digits.len() > 0 && all_digits(digits) && digits_value(digits) <= u32::MAX {
        Some(digits_value(digits) as u32)
    } else {
        None
    }
}

/// The value of a decimal digit.
fn digit_value(c: char) -> (r: Option<u32>)
    ensures
        match r {
            Some(d) => is_digit(c) && d == c as int - 0x30,
            None => !is_digit(c),
        },
{
    let n: u32 = c as u32;
    if 0x30 <= n && n <= 0x39 {
        Some(n - 0x30)
    } else {
        None
    }
}

/// More digits do not make a number smaller.
proof fn digits_grow(s: Seq<char>, k: int)
    requires
        0 <= k <= s.len(),
        all_digits(s),
    ensures
        digits_value(s.take(k)) <= digits_value(s),
    decreases s.len() - k,
{
    if k < s.len() {
        digits_grow(s, k + 1);
        assert(s.take(k + 1).drop_last() =~= s.take(k));
        assert(is_digit(s[k]));
    } else {
        assert(s.take(k) =~= s);
    }
}

/// The number that `s` stands for.
pub fn parse_u32(s: &str) -> (r: Option<u32>)
    ensures
        r == number_u32(s@),
{
    let v = to_chars(s);
    let begin: usize = if v.len() > 0 && v[0] == '+' {
        1
    } else {
        0
    };
    let ghost digits = v@.skip(begin as int);
    assert(digits =~= without_plus(s@));
    if v.len() == begin {
        return None;
    }
    let mut n: u32 = 0;
    let mut i: usize = begin;
    while i < v.len()
        invariant
            v@ == s@,
            digits == v@.skip(begin as int),
            digits == without_plus(s@),
            begin <= i <= v.len(),
            begin < v.len(),
            forall|k: int| 0 <= k < i - begin ==> is_digit(#[trigger] digits[k]),
            n == digits_value(digits.take(i - begin)),
        decreases v.len() - i,
    {
        let ghost upto = digits.take(i - begin + 1);
        assert(upto.drop_last() =~= digits.take(i - begin));
        assert(upto.last() == v@[i as int]);
        assert(digits[i - begin] == v@[i as int]);
        let d: u32 = match digit_value(v[i]) {
            Some(d) => d,
            None => {
                return None;
            },
        };
        let wide: u64 = n as u64 * 10 + d as u64;
        if wide > u32::MAX as u64 {
            proof {
                if all_digits(digits) {
                    digits_grow(digits, i - begin + 1);
                }
            }
            return None;
        }
        n = wide as u32;
        i = i + 1;
    }
    assert(digits.take(digits.len() as int) =~= digits);
    Some(n)
}

/// Different digits stand for different numbers.
proof fn digit_injective(a: int, b: int)
    requires
        0 <= a < 16,
        0 <= b < 16,
        digit(a) == digit(b),
    ensures
        a == b,
{
    digit_code(a);
    digit_code(b);
}

/// The code point of a digit.
proof fn digit_code(d: int)
    requires
        0 <= d < 16,
    ensures
        digit(d) as int == (if d < 10 {
            0x30 + d
        } else {
            0x61 + (d - 10)
        }),
{
}

/// All characters of a number in hexadecimal are digits or letters.
pub proof fn hex16_characters(n: u64, i: int)
    requires
        0 <= i < 16,
    ensures
        0x30 <= hex16(n)[i] as int <= 0x39 || 0x61 <= hex16(n)[i] as int <= 0x66,
{
    let d = (n as int / pow(16, (15 - i) as nat)) % 16;
    digit_code(d);
}

/// The upper digits of equal texts stand for equal numbers.
proof fn hex16_upper(a: u64, b: u64, k: nat)
    requires
        hex16(a) == hex16(b),
        k <= 16,
    ensures
        a as int / pow(16, k) == b as int / pow(16, k),
    decreases 16 - k,
{
    vstd::arithmetic::power::lemma_pow_positive(16, k);
    if k == 16 {
        assert(pow(16, 16) == 0x1_0000_0000_0000_0000) by {
            reveal(pow);
            reveal_with_fuel(pow, 17);
        }
        vstd::arithmetic::div_mod::lemma_basic_div(a as int, pow(16, 16));
        vstd::arithmetic::div_mod::lemma_basic_div(b as int, pow(16, 16));
    } else {
        hex16_upper(a, b, k + 1);
        let p = pow(16, k);
        reveal(pow);
        assert(pow(16, k + 1) == 16 * p);
        assert(p * 16 == 16 * p) by (nonlinear_arith);
        vstd::arithmetic::div_mod::lemma_div_denominator(a as int, p, 16);
        vstd::arithmetic::div_mod::lemma_div_denominator(b as int, p, 16);
        let x = a as int / p;
        let y = b as int / p;
        assert(x / 16 == y / 16);
        assert(hex16(a)[15 - k] == digit(x % 16));
        assert(hex16(b)[15 - k] == digit(y % 16));
        digit_injective(x % 16, y % 16);
        assert(x == 16 * (x / 16) + x % 16);
        assert(y == 16 * (y / 16) + y % 16);
    }
}

/// Different numbers have different texts in hexadecimal.
pub proof fn hex16_injective(a: u64, b: u64)
    requires
        hex16(a) == hex16(b),
    ensures
        a == b,
{
    hex16_upper(a, b, 0);
    vstd::arithmetic::power::lemma_pow0(16);
}

} // verus!
