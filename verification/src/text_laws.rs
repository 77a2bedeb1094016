//! What holds of all texts and numbers: what was cut can be joined again, what was written
//! can be read back, and names have an order.

use vstd::arithmetic::power::pow;
use vstd::prelude::*;

use crate::builder::opt_text;
use crate::names::precedes;
use crate::numbers::all_digits;
use crate::numbers::decimal;
use crate::numbers::digit;
use crate::numbers::digits_value;
use crate::numbers::hex16;
use crate::numbers::is_digit;
use crate::numbers::number_u32;
use crate::numbers::signed_decimal;
use crate::text::begins_with;
use crate::text::finishes_with;
use crate::text::first_place_is;
use crate::text::flag;
use crate::text::is_first_place;
use crate::text::joined;
use crate::text::lines_of;
use crate::text::pairs;
use crate::text::replaced;
use crate::text::split_at;
use crate::text::texts;
use crate::text::trimmed;
use crate::text::white_space;
use crate::text::without_leading;
use crate::text::without_trailing;

verus! {

/// The texts of strings are those of each string, in their order; the same holds of pairs and
/// of a string that may be missing.
pub proof fn law_texts_are_those_of_the_strings(
    v: Seq<String>,
    w: Seq<(String, String)>,
    s: String,
    i: int,
)
    ensures
        texts(v).len() == v.len(),
        0 <= i < v.len() ==> texts(v)[i] == v[i]@,
        pairs(w).len() == w.len(),
        0 <= i < w.len() ==> pairs(w)[i] == (w[i].0@, w[i].1@),
        opt_text(Some(s)) == Some(s@),
        opt_text(None) is None,
        flag(true) == "true"@,
        flag(false) == "false"@,
{
}

/// A text begins with another exactly when it is that text and something more.
pub proof fn law_begins_with(s: Seq<char>, prefix: Seq<char>, rest: Seq<char>)
    ensures
        begins_with(prefix + rest, prefix),
        begins_with(s, prefix) ==> s == prefix + s.skip(prefix.len() as int),
{
    assert((prefix + rest).take(prefix.len() as int) =~= prefix);
    if begins_with(s, prefix) {
        assert(s =~= s.take(prefix.len() as int) + s.skip(prefix.len() as int));
    }
}

/// A text ends with another exactly when it is something and then that text.
pub proof fn law_finishes_with(s: Seq<char>, suffix: Seq<char>, start: Seq<char>)
    ensures
        finishes_with(start + suffix, suffix),
        finishes_with(s, suffix) ==> s == s.take(s.len() - suffix.len()) + suffix,
{
    let whole = start + suffix;
    assert(whole.skip(whole.len() - suffix.len()) =~= suffix);
    if finishes_with(s, suffix) {
        let k = s.len() - suffix.len();
        assert(s =~= s.take(k) + s.skip(k));
    }
}

/// Joined texts are the texts in their order with the separator between each two of them.
pub proof fn law_joined(a: Seq<Seq<char>>, b: Seq<Seq<char>>, part: Seq<char>, sep: Seq<char>)
    ensures
        joined(Seq::empty(), sep) == Seq::<char>::empty(),
        joined(seq![part], sep) == part,
        a.len() > 0 && b.len() > 0 ==> joined(a + b, sep) == joined(a, sep) + sep + joined(b, sep),
    decreases b.len(),
{
    if a.len() > 0 && b.len() > 0 {
        let all = a + b;
        assert(all.last() == b.last());
        if b.len() == 1 {
            assert(all.drop_last() =~= a);
        } else {
            let init = b.drop_last();
            assert(all.drop_last() =~= a + init);
            law_joined(a, init, part, sep);
            assert(joined(all, sep) =~= joined(a, sep) + sep + (joined(init, sep) + sep + b.last()));
        }
    }
}

/// Cutting a text loses nothing: the parts, with the separator between them again, are the
/// text, and no part holds the separator.
pub proof fn law_split_loses_nothing(s: Seq<char>, sep: char)
    ensures
        split_at(s, sep).len() > 0,
        joined(split_at(s, sep), seq![sep]) == s,
        forall|i: int|
            0 <= i < split_at(s, sep).len() ==> !(#[trigger] split_at(s, sep)[i]).contains(sep),
    decreases s.len(),
{
    if s.contains(sep) {
        let at = place_of(s, sep);
        first_place_is(s, sep, at);
        let part = s.take(at);
        let rest = s.skip(at + 1);
        law_split_loses_nothing(rest, sep);
        let all = split_at(s, sep);
        let tail = split_at(rest, sep);
        assert(all =~= seq![part] + tail);
        law_joined(seq![part], tail, part, seq![sep]);
        assert(joined(all, seq![sep]) =~= s);
        assert forall|i: int| 0 <= i < all.len() implies !(#[trigger] all[i]).contains(sep) by {
            if i == 0 {
                if part.contains(sep) {
                    let k = choose|k: int| 0 <= k < part.len() && part[k] == sep;
                    assert(s[k] == sep);
                }
            } else {
                assert(all[i] == tail[i - 1]);
            }
        }
    } else {
        assert(split_at(s, sep) =~= seq![s]);
        law_joined(seq![s], seq![s], s, seq![sep]);
    }
}

/// A character that stands in a text has a first place there.
proof fn place_of(s: Seq<char>, c: char) -> (at: int)
    requires
        s.contains(c),
    ensures
        is_first_place(s, c, at),
    decreases s.len(),
{
    if s[0] == c {
        0
    } else {
        let rest = s.skip(1);
        let k = choose|k: int| 0 <= k < s.len() && s[k] == c;
        assert(rest[k - 1] == c);
        let at = place_of(rest, c);
        assert forall|j: int| 0 <= j < at + 1 implies s[j] != c by {
            if j > 0 {
                assert(rest[j - 1] != c);
            }
        }
        at + 1
    }
}

/// What was joined comes apart again: parts without the separator are the parts of the
/// joined text.
pub proof fn law_joined_comes_apart(parts: Seq<Seq<char>>, sep: char)
    requires
        parts.len() > 0,
        forall|i: int| 0 <= i < parts.len() ==> !(#[trigger] parts[i]).contains(sep),
    ensures
        split_at(joined(parts, seq![sep]), sep) == parts,
    decreases parts.len(),
{
    let first = parts[0];
    if parts.len() == 1 {
        assert(parts =~= seq![first]);
    } else {
        let rest = parts.drop_first();
        assert(parts =~= seq![first] + rest);
        assert forall|i: int| 0 <= i < rest.len() implies !(#[trigger] rest[i]).contains(sep) by {
            assert(rest[i] == parts[i + 1]);
        }
        law_joined(seq![first], rest, first, seq![sep]);
        law_joined_comes_apart(rest, sep);
        let tail = joined(rest, seq![sep]);
        let s = first + seq![sep] + tail;
        let at = first.len() as int;
        assert forall|j: int| 0 <= j < at implies s[j] != sep by {
            assert(first.contains(first[j]));
        }
        assert(is_first_place(s, sep, at));
        first_place_is(s, sep, at);
        assert(s.take(at) =~= first);
        assert(s.skip(at + 1) =~= tail);
        assert(split_at(s, sep) =~= parts);
    }
}

/// A line ends with a line feed, with or without a carriage return before it, and what
/// follows the last line feed is a line too unless it is empty.
pub proof fn law_lines(line: Seq<char>, rest: Seq<char>)
    requires
        !line.contains('\n'),
    ensures
        lines_of(Seq::<char>::empty()) == Seq::<Seq<char>>::empty(),
        line.len() > 0 ==> lines_of(line) == seq![line],
        line.len() == 0 || line.last() != '\r' ==> lines_of(line + seq!['\n'] + rest) == seq![line]
            + lines_of(rest),
        lines_of(line + seq!['\r', '\n'] + rest) == seq![line] + lines_of(rest),
{
    let plain = line + seq!['\n'] + rest;
    let at = line.len() as int;
    assert forall|j: int| 0 <= j < at implies plain[j] != '\n' by {
        assert(line.contains(line[j]));
    }
    assert(is_first_place(plain, '\n', at));
    first_place_is(plain, '\n', at);
    assert(plain.take(at) =~= line);
    assert(plain.skip(at + 1) =~= rest);
    let with_return = line + seq!['\r', '\n'] + rest;
    assert forall|j: int| 0 <= j < at + 1 implies with_return[j] != '\n' by {
        if j < at {
            assert(line.contains(line[j]));
        }
    }
    assert(is_first_place(with_return, '\n', at + 1));
    first_place_is(with_return, '\n', at + 1);
    assert(with_return.take(at + 1).drop_last() =~= line);
    assert(with_return.skip(at + 2) =~= rest);
}

/// What is cut off at the beginning is of the class that is cut off, and nothing of that
/// class is left there.
pub proof fn law_leading(s: Seq<char>, class: Set<char>)
    ensures
        ({
            let left = without_leading(s, class);
            let k = s.len() - left.len();
            &&& 0 <= k <= s.len()
            &&& left == s.skip(k)
            &&& forall|i: int| 0 <= i < k ==> class.contains(#[trigger] s[i])
            &&& left.len() > 0 ==> !class.contains(left[0])
        }),
    decreases s.len(),
{
    if s.len() > 0 && class.contains(s[0]) {
        let rest = s.drop_first();
        law_leading(rest, class);
        let left = without_leading(s, class);
        let k = s.len() - left.len();
        assert(left =~= s.skip(k));
        assert forall|i: int| 0 <= i < k implies class.contains(#[trigger] s[i]) by {
            if i > 0 {
                assert(rest[i - 1] == s[i]);
            }
        }
    } else {
        assert(s.skip(0) =~= s);
    }
}

/// What is cut off at the end is of the class that is cut off, and nothing of that class is
/// left there.
pub proof fn law_trailing(s: Seq<char>, class: Set<char>)
    ensures
        ({
            let left = without_trailing(s, class);
            &&& left.len() <= s.len()
            &&& left == s.take(left.len() as int)
            &&& forall|i: int| left.len() <= i < s.len() ==> class.contains(#[trigger] s[i])
            &&& left.len() > 0 ==> !class.contains(left.last())
        }),
    decreases s.len(),
{
    if s.len() > 0 && class.contains(s.last()) {
        let init = s.drop_last();
        law_trailing(init, class);
        let left = without_trailing(s, class);
        assert(left =~= s.take(left.len() as int));
        assert forall|i: int| left.len() <= i < s.len() implies class.contains(#[trigger] s[i]) by {
            if i < init.len() {
                assert(init[i] == s[i]);
            }
        }
    } else {
        assert(s.take(s.len() as int) =~= s);
    }
}

/// Trimming takes off all of a class at both ends, and nothing else.
pub proof fn law_trimmed(before: Seq<char>, middle: Seq<char>, after: Seq<char>, class: Set<char>)
    requires
        forall|i: int| 0 <= i < before.len() ==> class.contains(#[trigger] before[i]),
        forall|i: int| 0 <= i < after.len() ==> class.contains(#[trigger] after[i]),
        middle.len() > 0 ==> !class.contains(middle[0]) && !class.contains(middle.last()),
    ensures
        trimmed(before + middle + after, class) == middle,
{
    let s = before + middle + after;
    law_leading(s, class);
    let left = without_leading(s, class);
    let k = s.len() - left.len();
    law_trailing(left, class);
    let kept = trimmed(s, class);
    if middle.len() == 0 {
        if left.len() > 0 {
            if k < before.len() {
                assert(left[0] == before[k]);
            } else {
                assert(left[0] == after[k - before.len()]);
            }
        }
        assert(kept =~= middle);
    } else {
        if k < before.len() {
            assert(left[0] == before[k]);
        }
        if k > before.len() {
            assert(s[before.len() as int] == middle[0]);
        }
        assert(k == before.len());
        assert(left =~= middle + after);
        if kept.len() > middle.len() {
            assert(kept.last() == after[kept.len() - 1 - middle.len()]);
        }
        if kept.len() < middle.len() {
            assert(left[middle.len() - 1] == middle.last());
        }
        assert(kept =~= middle);
    }
}

/// The first place at which a pattern stands gets the replacement, what is before it stays,
/// and what is after it is treated in the same way.
pub proof fn law_replaced_at_first_place(
    before: Seq<char>,
    pattern: Seq<char>,
    after: Seq<char>,
    by: Seq<char>,
)
    requires
        pattern.len() > 0,
        forall|i: int|
            0 <= i < before.len() ==> !begins_with(
                #[trigger] (before + pattern + after).skip(i),
                pattern,
            ),
    ensures
        replaced(before + pattern + after, pattern, by) == before + by + replaced(
            after,
            pattern,
            by,
        ),
    decreases before.len(),
{
    let s = before + pattern + after;
    if before.len() == 0 {
        assert(s.take(pattern.len() as int) =~= pattern);
        assert(s.skip(pattern.len() as int) =~= after);
        assert(before + by =~= by);
    } else {
        assert(s.skip(0) =~= s);
        assert(!begins_with(s.skip(0), pattern));
        let rest = before.drop_first();
        let left = rest + pattern + after;
        assert(s.skip(1) =~= left);
        assert forall|i: int| 0 <= i < rest.len() implies !begins_with(
            #[trigger] (rest + pattern + after).skip(i),
            pattern,
        ) by {
            assert((rest + pattern + after).skip(i) =~= s.skip(i + 1));
        }
        law_replaced_at_first_place(rest, pattern, after, by);
        assert(replaced(s, pattern, by) =~= before + by + replaced(after, pattern, by));
    }
}

/// Where a pattern stands nowhere, nothing is replaced.
pub proof fn law_nothing_to_replace(s: Seq<char>, pattern: Seq<char>, by: Seq<char>)
    requires
        forall|i: int| 0 <= i < s.len() ==> !begins_with(#[trigger] s.skip(i), pattern),
    ensures
        replaced(s, pattern, by) == s,
    decreases s.len(),
{
    if pattern.len() > 0 && s.len() >= pattern.len() {
        assert(s.skip(0) =~= s);
        assert(!begins_with(s.skip(0), pattern));
        let rest = s.skip(1);
        assert forall|i: int| 0 <= i < rest.len() implies !begins_with(
            #[trigger] rest.skip(i),
            pattern,
        ) by {
            assert(rest.skip(i) =~= s.skip(i + 1));
        }
        law_nothing_to_replace(rest, pattern, by);
        assert(seq![s[0]] + rest =~= s);
    }
}

/// White space is the blank, the control characters from tab to carriage return, the next
/// line character and the blanks and separators of other scripts; no letter, digit or sign
/// of ASCII is.
pub proof fn law_white_space(c: char)
    ensures
        white_space().contains(c) <==> seq![
            '\t',
            '\n',
            '\u{b}',
            '\u{c}',
            '\r',
            ' ',
            '\u{85}',
            '\u{a0}',
            '\u{1680}',
            '\u{2000}',
            '\u{2001}',
            '\u{2002}',
            '\u{2003}',
            '\u{2004}',
            '\u{2005}',
            '\u{2006}',
            '\u{2007}',
            '\u{2008}',
            '\u{2009}',
            '\u{200a}',
            '\u{2028}',
            '\u{2029}',
            '\u{202f}',
            '\u{205f}',
            '\u{3000}',
        ].contains(c),
{
    let all = seq![
        '\t',
        '\n',
        '\u{b}',
        '\u{c}',
        '\r',
        ' ',
        '\u{85}',
        '\u{a0}',
        '\u{1680}',
        '\u{2000}',
        '\u{2001}',
        '\u{2002}',
        '\u{2003}',
        '\u{2004}',
        '\u{2005}',
        '\u{2006}',
        '\u{2007}',
        '\u{2008}',
        '\u{2009}',
        '\u{200a}',
        '\u{2028}',
        '\u{2029}',
        '\u{202f}',
        '\u{205f}',
        '\u{3000}',
    ];
    let n = c as int;
    if white_space().contains(c) {
        let at = if n <= 0xd {
            n - 9
        } else if n == 0x20 {
            5
        } else if n == 0x85 {
            6
        } else if n == 0xa0 {
            7
        } else if n == 0x1680 {
            8
        } else if n <= 0x200a {
            n - 0x2000 + 9
        } else if n == 0x2028 {
            20
        } else if n == 0x2029 {
            21
        } else if n == 0x202f {
            22
        } else if n == 0x205f {
            23
        } else {
            24
        };
        assert(all[at] == c);
    }
}

/// A number in decimal has the digits of the number and no zero in front.
pub proof fn law_decimal(n: nat)
    ensures
        decimal(n).len() > 0,
        all_digits(decimal(n)),
        digits_value(decimal(n)) == n,
        n > 0 ==> decimal(n)[0] != '0',
        n == 0 ==> decimal(n) == seq!['0'],
    decreases n,
{
    if n < 10 {
        let s = decimal(n);
        assert(s.drop_last() =~= Seq::empty());
        reveal_with_fuel(digits_value, 2);
    } else {
        law_decimal(n / 10);
        let init = decimal(n / 10);
        let s = decimal(n);
        assert(s.drop_last() =~= init);
        assert(s.last() == digit((n % 10) as int));
        assert forall|i: int| 0 <= i < s.len() implies is_digit(#[trigger] s[i]) by {
            if i < init.len() {
                assert(is_digit(init[i]));
            }
        }
        assert(n == (n / 10) * 10 + n % 10);
    }
}

/// A number that was written is read back. A plus sign or zeros in front do not change what
/// digits stand for.
pub proof fn law_number_is_read_back(n: u32, s: Seq<char>)
    requires
        s.len() > 0,
        forall|i: int| 0 <= i < s.len() ==> '0' <= #[trigger] s[i] <= '9',
    ensures
        number_u32(decimal(n as nat)) == Some(n),
        number_u32(seq!['+'] + s) == number_u32(s),
        number_u32(seq!['0'] + s) == number_u32(s),
{
    law_decimal(n as nat);
    assert(is_digit(decimal(n as nat)[0]));
    assert forall|i: int| 0 <= i < s.len() implies is_digit(#[trigger] s[i]) by {
        assert('0' <= s[i] <= '9');
    }
    assert(is_digit(s[0]));
    let plus = seq!['+'] + s;
    assert(plus.skip(1) =~= s);
    let zero = seq!['0'] + s;
    zeros_count_nothing(s);
    assert forall|i: int| 0 <= i < zero.len() implies is_digit(#[trigger] zero[i]) by {
        if i > 0 {
            assert(is_digit(s[i - 1]));
        }
    }
}

/// A zero in front does not change what digits stand for.
proof fn zeros_count_nothing(s: Seq<char>)
    ensures
        digits_value(seq!['0'] + s) == digits_value(s),
    decreases s.len(),
{
    let all = seq!['0'] + s;
    if s.len() == 0 {
        assert(all.drop_last() =~= Seq::empty());
        reveal_with_fuel(digits_value, 2);
    } else {
        assert(all.drop_last() =~= seq!['0'] + s.drop_last());
        assert(all.last() == s.last());
        zeros_count_nothing(s.drop_last());
    }
}

/// Only decimal digits are a number, after one plus sign at most, and only up to the
/// largest one of 32 bits.
pub proof fn law_what_is_no_number(s: Seq<char>, n: nat, i: int)
    ensures
        number_u32(Seq::<char>::empty()) is None,
        number_u32(seq!['+']) is None,
        number_u32(seq!['-'] + s) is None,
        number_u32(seq!['+', '+'] + s) is None,
        0 <= i < s.len() && !('0' <= s[i] <= '9') && !(i == 0 && s[i] == '+') ==> number_u32(s)
            is None,
        n > 0xffff_ffff ==> number_u32(decimal(n)) is None,
{
    assert(seq!['+'].skip(1) =~= Seq::<char>::empty());
    let minus = seq!['-'] + s;
    assert(!is_digit(minus[0]));
    let two = seq!['+', '+'] + s;
    assert(!is_digit(two.skip(1)[0]));
    if 0 <= i < s.len() && !('0' <= s[i] <= '9') && !(i == 0 && s[i] == '+') {
        assert(!is_digit(s[i]));
        if s[0] == '+' {
            assert(s.skip(1)[i - 1] == s[i]);
        }
    }
    law_decimal(n);
    assert(is_digit(decimal(n)[0]));
}

/// A negative number has a minus sign in front of the digits of the positive one.
pub proof fn law_signed_decimal(n: nat)
    ensures
        signed_decimal(n as int) == decimal(n),
        n > 0 ==> signed_decimal(-(n as int)) == seq!['-'] + decimal(n),
{
}

/// What a row of hexadecimal digits stands for.
pub open spec fn hex_value(s: Seq<char>) -> int
    decreases s.len(),
{
    if s.len() == 0 {
        0
    } else {
        hex_value(s.drop_last()) * 16 + (if '0' <= s.last() <= '9' {
            s.last() as int - '0' as int
        } else {
            s.last() as int - 'a' as int + 10
        })
    }
}

/// The first digits of a number in hexadecimal stand for its upper part.
proof fn upper_part(n: u64, k: int)
    requires
        0 <= k <= 16,
    ensures
        hex_value(hex16(n).take(k)) == n as int / pow(16, (16 - k) as nat),
    decreases k,
{
    let p = pow(16, (16 - k) as nat);
    vstd::arithmetic::power::lemma_pow_positive(16, (16 - k) as nat);
    if k == 0 {
        assert(pow(16, 16) == 0x1_0000_0000_0000_0000) by {
            reveal(pow);
            reveal_with_fuel(pow, 17);
        }
        vstd::arithmetic::div_mod::lemma_basic_div(n as int, p);
        assert(hex16(n).take(0) =~= Seq::empty());
    } else {
        upper_part(n, k - 1);
        let upto = hex16(n).take(k);
        assert(upto.drop_last() =~= hex16(n).take(k - 1));
        let x = n as int / p;
        assert(upto.last() == digit(x % 16));
        reveal(pow);
        assert(pow(16, (16 - (k - 1)) as nat) == 16 * p);
        assert(p * 16 == 16 * p) by (nonlinear_arith);
        vstd::arithmetic::div_mod::lemma_div_denominator(n as int, p, 16);
        assert(x == 16 * (x / 16) + x % 16);
    }
}

/// A number in hexadecimal has sixteen digits, and they stand for the number.
pub proof fn law_hex16(n: u64)
    ensures
        hex16(n).len() == 16,
        hex_value(hex16(n)) == n,
{
    upper_part(n, 16);
    assert(hex16(n).take(16) =~= hex16(n));
    vstd::arithmetic::power::lemma_pow0(16);
}

/// Of two names the one comes first that has the lower character where they first differ; a
/// name comes before every longer one that it begins.
pub proof fn law_order_of_names(
    common: Seq<char>,
    x: char,
    y: char,
    s: Seq<char>,
    t: Seq<char>,
)
    ensures
        x != y ==> precedes(common + seq![x] + s, common + seq![y] + t) == ((x as int) < (y as int)),
        s.len() > 0 ==> precedes(common, common + s),
        !precedes(common + s, common),
    decreases common.len(),
{
    let a = common + seq![x] + s;
    let b = common + seq![y] + t;
    let c = common + s;
    if common.len() == 0 {
        assert(a[0] == x);
        assert(b[0] == y);
    } else {
        let rest = common.drop_first();
        law_order_of_names(rest, x, y, s, t);
        assert(a.drop_first() =~= rest + seq![x] + s);
        assert(b.drop_first() =~= rest + seq![y] + t);
        assert(c.drop_first() =~= rest + s);
    }
}

} // verus!
