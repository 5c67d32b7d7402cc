//! Decimal numbers in text.

use crate::text::{chars, digit, is_digit};
use vstd::prelude::*;

verus! {

/// The number that a sequence of decimal digits stands for.
pub open spec fn value(s: Seq<char>) -> nat
    decreases s.len(),
{
    if s.len() == 0 {
        0
    } else {
        (value(s.drop_last()) * 10 + (s.last() as int - '0' as int)) as nat
    }
}

/// Whether `s` is a run of one or more decimal digits.
pub open spec fn all_digits(s: Seq<char>) -> bool {
    s.len() > 0 && forall|i: int| 0 <= i < s.len() ==> digit(#[trigger] s[i])
}

/// The number that `s` is the text of: decimal digits, with or without a plus sign
/// in front of them.
pub open spec fn number(s: Seq<char>) -> Option<nat> {
    let digits = if s.len() > 0 && s[0] == '+' {
        s.skip(1)
    } else {
        s
    };
    if all_digits(digits) {
        Some(value(digits))
    } else {
        None
    }
}

/// The number that `s` is the text of, where it is at most `max`.
pub open spec fn number_up_to(s: Seq<char>, max: nat) -> Option<nat> {
    match number(s) {
        Some(n) => if n <= max {
            Some(n)
        } else {
            None
        },
        None => None,
    }
}

/// The decimal digits of `n`.
pub open spec fn digits(n: nat) -> Seq<char>
    decreases n,
{
    if n < 10 {
        seq![('0' as int + n) as char]
    } else {
        digits(n / 10).push(('0' as int + n % 10) as char)
    }
}

proof fn value_grows(s: Seq<char>, k: int)
    requires
        0 <= k <= s.len(),
        all_digits(s),
    ensures
        value(s.take(k)) <= value(s),
    decreases s.len() - k,
{
    assert(s.take(s.len() as int) =~= s);
    if k < s.len() {
        value_grows(s, k + 1);
        assert(s.take(k + 1).drop_last() =~= s.take(k));
        assert(digit(s[k]));
    }
}

/// The number that `s` is the text of, where it is at most `max`.
pub fn parse(s: &str, max: u64) -> (r: Option<u64>)
    ensures
        r is Some <==> number_up_to(s@, max as nat) is Some,
        r matches Some(n) ==> number_up_to(s@, max as nat) == Some(n as nat),
{
    let v = chars(s);
    let mut i: usize = 0;
    if v.len() > 0 && v[0] == '+' {
        i = 1;
    }
    let ghost d = if s@.len() > 0 && s@[0] == '+' {
        s@.skip(1)
    } else {
        s@
    };
    let ghost start = i as int;
    if i == v.len() {
        return None;
    }
    let mut n: u64 = 0;
    assert(d.take(0) =~= Seq::<char>::empty());
    while i < v.len()
        invariant
            v@ == s@,
            d.len() == v@.len() - start,
            d.len() > 0,
            start == 0 || start == 1,
            d == (if s@.len() > 0 && s@[0] == '+' {
                s@.skip(1)
            } else {
                s@
            }),
            start <= i <= v@.len(),
            forall|k: int| 0 <= k < d.len() ==> #[trigger] d[k] == v@[k + start],
            forall|k: int| 0 <= k < i - start ==> digit(#[trigger] d[k]),
            n == value(d.take(i - start)),
            n <= max,
        decreases v@.len() - i,
    {
        let c = v[i];
        assert(d[i - start] == c);
        if !is_digit(c) {
            return None;
        }
        let step: u64 = (c as u8 - 48) as u64;
        proof {
            assert(d.take(i - start + 1).drop_last() =~= d.take(i - start));
            assert(value(d.take(i - start + 1)) == n * 10 + step);
            if all_digits(d) {
                value_grows(d, i - start + 1);
            }
        }
        if n > (u64::MAX - step) / 10 || n * 10 + step > max {
            return None;
        }
        n = n * 10 + step;
        i = i + 1;
    }
    assert(d.take(i - start) =~= d);
    Some(n)
}

/// The number whose digits are `s`, where it is at most `max`.
pub open spec fn digits_up_to(s: Seq<char>, max: nat) -> Option<nat> {
    if all_digits(s) && value(s) <= max {
        Some(value(s))
    } else {
        None
    }
}

/// The number whose digits are `s`, where it is at most `max`.
pub fn parse_digits(s: &str, max: u64) -> (r: Option<u64>)
    ensures
        r is Some <==> digits_up_to(s@, max as nat) is Some,
        r matches Some(n) ==> digits_up_to(s@, max as nat) == Some(n as nat),
{
    let v = chars(s);
    if v.len() == 0 || v[0] == '+' {
        assert(s@.len() > 0 ==> !digit(s@[0]));
        return None;
    }
    parse(s, max)
}

/// The hexadecimal digits of ASCII.
pub open spec fn hex_digit(c: char) -> bool {
    digit(c) || 'a' <= c <= 'f' || 'A' <= c <= 'F'
}

/// What a hexadecimal digit stands for.
pub open spec fn hex_digit_value(c: char) -> int {
    if digit(c) {
        c as int - '0' as int
    } else if 'a' <= c <= 'f' {
        c as int - 'a' as int + 10
    } else {
        c as int - 'A' as int + 10
    }
}

/// The number that a sequence of hexadecimal digits stands for.
pub open spec fn hex_value(s: Seq<char>) -> int
    decreases s.len(),
{
    if s.len() == 0 {
        0
    } else {
        hex_value(s.drop_last()) * 16 + hex_digit_value(s.last())
    }
}

/// The small hexadecimal digit for `n`.
pub open spec fn hex_char(n: int) -> char {
    if n < 10 {
        ('0' as int + n) as char
    } else {
        ('a' as int + n - 10) as char
    }
}

/// The hexadecimal digits of `n`, without zeros in front.
pub open spec fn hex_digits(n: nat) -> Seq<char>
    decreases n,
{
    if n < 16 {
        seq![hex_char(n as int)]
    } else {
        hex_digits(n / 16).push(hex_char((n % 16) as int))
    }
}

/// What a hexadecimal digit stands for.
pub fn parse_hex_digit(c: char) -> (r: Option<u16>)
    ensures
        r is Some <==> hex_digit(c),
        r matches Some(n) ==> n == hex_digit_value(c) && n < 16,
{
    if is_digit(c) {
        Some((c as u8 - 48) as u16)
    } else if 'a' <= c && c <= 'f' {
        Some((c as u8 - 87) as u16)
    } else if 'A' <= c && c <= 'F' {
        Some((c as u8 - 55) as u16)
    } else {
        None
    }
}

/// The small hexadecimal digit for `n`.
pub fn hex_digit_char(n: u16) -> (r: char)
    requires
        n < 16,
    ensures
        r == hex_char(n as int),
{
    if n < 10 {
        (48 + n as u8) as char
    } else {
        (87 + n as u8) as char
    }
}

/// The hexadecimal digits of `n`, without zeros in front.
pub fn hex(n: u16) -> (r: String)
    ensures
        r@ == hex_digits(n as nat),
    decreases n,
{
    if n < 16 {
        let mut r = String::new();
        r.push(hex_digit_char(n));
        assert(r@ =~= hex_digits(n as nat));
        r
    } else {
        let mut r = hex(n / 16);
        r.push(hex_digit_char(n % 16));
        r
    }
}

/// The decimal digits of `n`.
pub fn decimal(n: u64) -> (r: String)
    ensures
        r@ == digits(n as nat),
    decreases n,
{
    let last = (48 + (n % 10) as u8) as char;
    if n < 10 {
        let mut r = String::new();
        r.push(last);
        assert(r@ =~= digits(n as nat));
        r
    } else {
        let mut r = decimal(n / 10);
        r.push(last);
        r
    }
}

/// Reading the digits of a number gives the number.
pub proof fn digits_are_read(n: nat)
    ensures
        all_digits(digits(n)),
        value(digits(n)) == n,
        number(digits(n)) == Some(n),
    decreases n,
{
    let c = ('0' as int + n % 10) as char;
    assert(digit(c));
    if n < 10 {
        assert(digits(n).drop_last() =~= Seq::<char>::empty());
        assert(value(Seq::<char>::empty()) == 0);
    } else {
        digits_are_read(n / 10);
        assert(digits(n).drop_last() =~= digits(n / 10));
    }
}

/// How many digits a small number has, and what they begin with.
pub proof fn digits_shape(n: nat)
    ensures
        digits(n).len() > 0,
        n < 10 ==> digits(n).len() == 1,
        10 <= n < 100 ==> digits(n).len() == 2,
        100 <= n < 1000 ==> digits(n).len() == 3,
        n > 0 ==> digits(n)[0] != '0',
    decreases n,
{
    if n >= 10 {
        digits_shape(n / 10);
    }
}

/// Reading the hexadecimal digits of a number gives the number.
pub proof fn hex_digits_are_read(n: nat)
    ensures
        hex_digits(n).len() > 0,
        n < 0x10 ==> hex_digits(n).len() <= 1,
        n < 0x100 ==> hex_digits(n).len() <= 2,
        n < 0x1000 ==> hex_digits(n).len() <= 3,
        n < 0x10000 ==> hex_digits(n).len() <= 4,
        forall|i: int| 0 <= i < hex_digits(n).len() ==> hex_digit(#[trigger] hex_digits(n)[i]),
        hex_value(hex_digits(n)) == n,
    decreases n,
{
    let c = hex_char((n % 16) as int);
    assert(hex_digit(c) && hex_digit_value(c) == n % 16);
    if n < 16 {
        assert(hex_digits(n).drop_last() =~= Seq::<char>::empty());
        assert(hex_value(Seq::<char>::empty()) == 0);
    } else {
        hex_digits_are_read(n / 16);
        assert(hex_digits(n).drop_last() =~= hex_digits(n / 16));
    }
}

/// The digits of a number are read as the number, with or without a plus sign and zeros in
/// front, wherever it is not too great.
pub proof fn numbers_are_read(n: nat, max: nat)
    ensures
        n <= max ==> number_up_to(digits(n), max) == Some(n),
        n > max ==> number_up_to(digits(n), max) is None,
        n <= max ==> digits_up_to(digits(n), max) == Some(n),
        n > max ==> digits_up_to(digits(n), max) is None,
        number(seq!['+'] + digits(n)) == Some(n),
        digits_up_to(seq!['+'] + digits(n), max) is None,
{
    digits_are_read(n);
    let signed = seq!['+'] + digits(n);
    assert(signed.skip(1) =~= digits(n));
    assert(!digit(signed[0]));
    assert(digits(n)[0] != '+') by {
        assert(digit(digits(n)[0]));
    }
}

/// Only digits are a number, with at most one plus sign in front of them. A digit more at the
/// end makes ten times the number and the digit, and a zero in front makes no difference.
pub proof fn what_numbers_are(s: Seq<char>, c: char)
    ensures
        number(s) is Some <==> all_digits(s) || (s.len() > 0 && s[0] == '+' && all_digits(s.skip(1))),
        all_digits(s) && '0' <= c <= '9' ==> number(s.push(c)) == Some(
            (number(s)->0 * 10 + (c as int - '0' as int)) as nat,
        ),
        all_digits(s) ==> number(seq!['0'] + s) == number(s),
{
    if all_digits(s) {
        assert(digit(s[0]));
        let t = s.push(c);
        assert(t.drop_last() =~= s);
        if '0' <= c <= '9' {
            assert forall|i: int| 0 <= i < t.len() implies digit(#[trigger] t[i]) by {
                if i < s.len() {
                    assert(t[i] == s[i]);
                }
            }
            assert(t[0] == s[0]);
        }
        zero_in_front(s);
        let z = seq!['0'] + s;
        assert forall|i: int| 0 <= i < z.len() implies digit(#[trigger] z[i]) by {
            if i > 0 {
                assert(z[i] == s[i - 1]);
            }
        }
    }
}

proof fn zero_in_front(s: Seq<char>)
    ensures
        value(seq!['0'] + s) == value(s),
    decreases s.len(),
{
    let z = seq!['0'] + s;
    if s.len() == 0 {
        assert(z.drop_last() =~= Seq::<char>::empty());
        assert(value(Seq::<char>::empty()) == 0);
    } else {
        zero_in_front(s.drop_last());
        assert(z.drop_last() =~= seq!['0'] + s.drop_last());
    }
}

/// Hexadecimal digits stand for the same in capitals and in small letters, and a digit more at
/// the end makes sixteen times the number and the digit.
pub proof fn what_hexadecimal_digits_are(s: Seq<char>, c: char)
    ensures
        '0' <= c <= '9' ==> hex_digit(c) && hex_digit_value(c) == c as int - '0' as int,
        'a' <= c <= 'f' ==> hex_digit(c) && hex_digit_value(c) == c as int - 'a' as int + 10,
        'A' <= c <= 'F' ==> hex_digit(c) && hex_digit_value(c) == c as int - 'A' as int + 10,
        hex_digit(c) ==> '0' <= c <= '9' || 'a' <= c <= 'f' || 'A' <= c <= 'F',
        hex_value(s.push(c)) == hex_value(s) * 16 + hex_digit_value(c),
        hex_value(Seq::empty()) == 0,
{
    assert(s.push(c).drop_last() =~= s);
}

proof fn value_is_positive(s: Seq<char>)
    requires
        all_digits(s),
        s[0] != '0',
    ensures
        value(s) >= 1,
    decreases s.len(),
{
    let front = s.drop_last();
    assert(digit(s[s.len() - 1]));
    if s.len() == 1 {
        assert(front =~= Seq::<char>::empty());
        assert(value(front) == 0);
        assert(s.last() == s[0]);
    } else {
        assert forall|i: int| 0 <= i < front.len() implies digit(#[trigger] front[i]) by {
            assert(front[i] == s[i]);
        }
        assert(front[0] == s[0]);
        value_is_positive(front);
    }
}

/// Digits without a zero in front are the digits of the number that they stand for.
pub proof fn digits_are_written_in_one_way(s: Seq<char>)
    requires
        all_digits(s),
        s.len() == 1 || s[0] != '0',
    ensures
        digits(value(s)) == s,
    decreases s.len(),
{
    let front = s.drop_last();
    let last = s.last();
    assert(last == s[s.len() - 1]);
    assert(digit(last));
    let d = last as int - '0' as int;
    if s.len() == 1 {
        assert(front =~= Seq::<char>::empty());
        assert(value(front) == 0);
        assert(digits(value(s)) =~= s);
    } else {
        assert forall|i: int| 0 <= i < front.len() implies digit(#[trigger] front[i]) by {
            assert(front[i] == s[i]);
        }
        assert(front[0] == s[0]);
        value_is_positive(front);
        digits_are_written_in_one_way(front);
        let n = value(front);
        assert(value(s) == n * 10 + d);
        assert(value(s) / 10 == n && value(s) % 10 == d);
        assert(digits(value(s)) =~= front.push(last));
        assert(front.push(last) =~= s);
    }
}

} // verus!
