//! Numbers in decimal and hexadecimal text.

use crate::text::scan::is_digit;
use vstd::prelude::*;

verus! {

/// The decimal digit with the value `d`.
pub open spec fn digit(d: nat) -> char {
    if d == 0 {
        '0'
    } else if d == 1 {
        '1'
    } else if d == 2 {
        '2'
    } else if d == 3 {
        '3'
    } else if d == 4 {
        '4'
    } else if d == 5 {
        '5'
    } else if d == 6 {
        '6'
    } else if d == 7 {
        '7'
    } else if d == 8 {
        '8'
    } else {
        '9'
    }
}

/// The value of a decimal digit.
pub open spec fn digit_value(c: char) -> nat {
    (c as int - '0' as int) as nat
}

/// `n` in decimal, without leading zeros.
pub open spec fn dec(n: nat) -> Seq<char>
    decreases n,
{
    if n < 10 {
        seq![digit(n)]
    } else {
        dec(n / 10).push(digit(n % 10))
    }
}

/// `n` in decimal, with a sign where it is negative.
pub open spec fn dec_int(n: int) -> Seq<char> {
    if n < 0 {
        seq!['-'] + dec((-n) as nat)
    } else {
        dec(n as nat)
    }
}

/// Whether `s` consists of decimal digits.
pub open spec fn all_digits(s: Seq<char>) -> bool {
    forall|i: int| 0 <= i < s.len() ==> is_digit(#[trigger] s[i])
}

/// The number that the digits of `s` write.
pub open spec fn dec_value(s: Seq<char>) -> nat
    decreases s.len(),
{
    if s.len() == 0 {
        0
    } else {
        10 * dec_value(s.drop_last()) + digit_value(s.last())
    }
}

/// `s` without a leading plus sign.
pub open spec fn without_plus(s: Seq<char>) -> Seq<char> {
    if s.len() > 0 && s[0] == '+' {
        s.drop_first()
    } else {
        s
    }
}

/// The number written by `s`: digits, at least one, after an optional plus
/// sign, with a value of at most `max`.
pub open spec fn parsed_nat(s: Seq<char>, max: nat) -> Option<nat> {
    let d = without_plus(s);
    if d.len() > 0 && all_digits(d) && dec_value(d) <= max {
        Some(dec_value(d))
    } else {
        None
    }
}

/// The number written by `s`: digits, at least one, after an optional sign,
/// with a value between `min` and `max`.
pub open spec fn parsed_int(s: Seq<char>, min: int, max: int) -> Option<int> {
    if s.len() > 0 && s[0] == '-' {
        let d = s.drop_first();
        if d.len() > 0 && all_digits(d) && -dec_value(d) >= min {
            Some(-dec_value(d))
        } else {
            None
        }
    } else {
        let d = without_plus(s);
        if d.len() > 0 && all_digits(d) && dec_value(d) <= max {
            Some(dec_value(d) as int)
        } else {
            None
        }
    }
}

/// The decimal form of a number is made of digits and reads back as it.
pub proof fn lemma_dec(n: nat)
    ensures
        dec(n).len() > 0,
        all_digits(dec(n)),
        dec_value(dec(n)) == n,
        n > 0 ==> dec(n)[0] != '0',
    decreases n,
{
    if n < 10 {
        let s = dec(n);
        assert(s.drop_last() == Seq::<char>::empty());
        assert(dec_value(s.drop_last()) == 0);
    } else {
        lemma_dec(n / 10);
        assert(dec(n).drop_last() == dec(n / 10));
        assert(dec(n)[0] == dec(n / 10)[0]);
    }
}

/// Different numbers have different decimal forms.
pub proof fn lemma_dec_injective(a: nat, b: nat)
    requires
        dec(a) == dec(b),
    ensures
        a == b,
{
    lemma_dec(a);
    lemma_dec(b);
}

/// What `dec_int` writes, `parsed_int` reads.
pub proof fn lemma_parse_dec_int(n: int, min: int, max: int)
    requires
        min <= n <= max,
    ensures
        parsed_int(dec_int(n), min, max) == Some(n),
{
    if n < 0 {
        lemma_dec((-n) as nat);
        assert(dec_int(n).drop_first() == dec((-n) as nat));
    } else {
        lemma_dec(n as nat);
        assert(is_digit(dec(n as nat)[0]));
    }
}

/// Adding digits at the end does not make the value smaller.
pub proof fn lemma_value_grows(s: Seq<char>, n: int)
    requires
        0 <= n <= s.len(),
    ensures
        dec_value(s.take(n)) <= dec_value(s),
    decreases s.len() - n,
{
    if n == s.len() {
        assert(s.take(n) == s);
    } else {
        lemma_value_grows(s, n + 1);
        assert(s.take(n + 1).drop_last() == s.take(n));
    }
}

fn digit_of(d: u64) -> (c: char)
    requires
        d < 10,
    ensures
        c == digit(d as nat),
{
    if d == 0 {
        '0'
    } else if d == 1 {
        '1'
    } else if d == 2 {
        '2'
    } else if d == 3 {
        '3'
    } else if d == 4 {
        '4'
    } else if d == 5 {
        '5'
    } else if d == 6 {
        '6'
    } else if d == 7 {
        '7'
    } else if d == 8 {
        '8'
    } else {
        '9'
    }
}

/// Writes a number in decimal.
pub fn u64_text(n: u64) -> (r: String)
    ensures
        r@ == dec(n as nat),
    decreases n,
{
    if n < 10 {
        let mut r = String::new();
        r.push(digit_of(n));
        r
    } else {
        let mut r = u64_text(n / 10);
        r.push(digit_of(n % 10));
        r
    }
}

/// Writes a number in decimal.
pub fn usize_text(n: usize) -> (r: String)
    ensures
        r@ == dec(n as nat),
{
    u64_text(n as u64)
}

/// Writes a signed number in decimal.
pub fn i64_text(n: i64) -> (r: String)
    ensures
        r@ == dec_int(n as int),
{
    if n < 0 {
        let m: u64 = if n == i64::MIN {
            0x8000_0000_0000_0000
        } else {
            (-n) as u64
        };
        let mut r = String::new();
        r.push('-');
        let t = u64_text(m);
        r.append(t.as_str());
        r
    } else {
        u64_text(n as u64)
    }
}

/// Reads digits, at least one, with a value of at most `max`.
fn digits_value(s: &[char], max: u64) -> (r: Option<u64>)
    ensures
        match r {
            Some(n) => s@.len() > 0 && all_digits(s@) && dec_value(s@) <= max && n == dec_value(s@),
            None => !(s@.len() > 0 && all_digits(s@) && dec_value(s@) <= max),
        },
{
    if s.len() == 0 {
        return None;
    }
    let mut v: u64 = 0;
    let mut i: usize = 0;
    while i < s.len()
        invariant
            i <= s.len(),
            s.len() > 0,
            all_digits(s@.take(i as int)),
            v == dec_value(s@.take(i as int)),
            v <= max,
        decreases s.len() - i,
    {
        let c = s[i];
        if !('0' <= c && c <= '9') {
            assert(!is_digit(s@[i as int]));
            return None;
        }
        let d: u64 = (c as u32 - '0' as u32) as u64;
        let wide: u128 = 10 * (v as u128) + d as u128;
        proof {
            let next = s@.take(i + 1);
            assert(next.drop_last() == s@.take(i as int));
            assert(next.last() == c);
            assert(wide == dec_value(next));
            assert forall|j: int| 0 <= j < next.len() implies is_digit(#[trigger] next[j]) by {
                if j < i {
                    assert(s@.take(i as int)[j] == next[j]);
                }
            }
        }
        if wide > max as u128 {
            proof {
                lemma_value_grows(s@, i + 1);
            }
            return None;
        }
        v = wide as u64;
        i += 1;
    }
    assert(s@.take(s@.len() as int) == s@);
    Some(v)
}

/// Reads an unsigned decimal number of at most `max`.
pub fn parse_nat(s: &[char], max: u64) -> (r: Option<u64>)
    ensures
        match r {
            Some(n) => parsed_nat(s@, max as nat) == Some(n as nat),
            None => parsed_nat(s@, max as nat) is None,
        },
{
    if s.len() > 0 && s[0] == '+' {
        let d = vstd::slice::slice_subrange(s, 1, s.len());
        assert(d@ == s@.drop_first());
        digits_value(d, max)
    } else {
        digits_value(s, max)
    }
}

/// Reads a signed decimal number between `min` and `max`.
pub fn parse_int(s: &[char], min: i64, max: i64) -> (r: Option<i64>)
    requires
        min < 0 <= max,
    ensures
        match r {
            Some(n) => parsed_int(s@, min as int, max as int) == Some(n as int),
            None => parsed_int(s@, min as int, max as int) is None,
        },
{
    if s.len() > 0 && s[0] == '-' {
        let d = vstd::slice::slice_subrange(s, 1, s.len());
        assert(d@ == s@.drop_first());
        let room: u64 = (-(min + 1)) as u64 + 1;
        match digits_value(d, room) {
            Some(n) => {
                if n == 0 {
                    Some(0)
                } else {
                    let m: i64 = (n - 1) as i64;
                    Some(-m - 1)
                }
            },
            None => None,
        }
    } else {
        match parse_nat(s, max as u64) {
            Some(n) => Some(n as i64),
            None => None,
        }
    }
}

/// The value of a hexadecimal digit, of either case.
pub open spec fn hex_digit_value(c: char) -> Option<nat> {
    if '0' <= c <= '9' {
        Some((c as int - 48) as nat)
    } else if 'a' <= c <= 'f' {
        Some((c as int - 87) as nat)
    } else if 'A' <= c <= 'F' {
        Some((c as int - 55) as nat)
    } else {
        None
    }
}

/// The number that hexadecimal digits write.
pub open spec fn hex_value(s: Seq<char>) -> Option<nat>
    decreases s.len(),
{
    if s.len() == 0 {
        Some(0)
    } else {
        match (hex_value(s.drop_last()), hex_digit_value(s.last())) {
            (Some(n), Some(d)) => Some(16 * n + d),
            _ => None,
        }
    }
}

/// The number written by `s`: hexadecimal digits, at least one, after an
/// optional plus sign, with a value of at most `max`.
pub open spec fn parsed_hex(s: Seq<char>, max: nat) -> Option<nat> {
    let d = without_plus(s);
    match hex_value(d) {
        Some(n) if d.len() > 0 && n <= max => Some(n),
        _ => None,
    }
}

fn hex_digit_of(c: char) -> (r: Option<u64>)
    ensures
        match r {
            Some(d) => hex_digit_value(c) == Some(d as nat) && d < 16,
            None => hex_digit_value(c) is None,
        },
{
    if '0' <= c && c <= '9' {
        Some((c as u32 - 48) as u64)
    } else if 'a' <= c && c <= 'f' {
        Some((c as u32 - 87) as u64)
    } else if 'A' <= c && c <= 'F' {
        Some((c as u32 - 55) as u64)
    } else {
        None
    }
}

proof fn lemma_hex_grows(s: Seq<char>, n: int)
    requires
        0 <= n <= s.len(),
    ensures
        hex_value(s) matches Some(v) ==> (hex_value(s.take(n)) matches Some(w) && w <= v),
    decreases s.len() - n,
{
    if n == s.len() {
        assert(s.take(n) == s);
    } else {
        lemma_hex_grows(s, n + 1);
        assert(s.take(n + 1).drop_last() == s.take(n));
    }
}

/// Reads an unsigned hexadecimal number of at most `max`.
pub fn parse_hex(s: &[char], max: u64) -> (r: Option<u64>)
    ensures
        match r {
            Some(n) => parsed_hex(s@, max as nat) == Some(n as nat),
            None => parsed_hex(s@, max as nat) is None,
        },
{
    let plus = s.len() > 0 && s[0] == '+';
    let from: usize = if plus {
        1
    } else {
        0
    };
    let ghost d = without_plus(s@);
    assert(d =~= s@.skip(from as int));
    if s.len() == from {
        return None;
    }
    let mut v: u64 = 0;
    let mut i: usize = from;
    while i < s.len()
        invariant
            from <= i <= s.len(),
            from < s.len(),
            from <= 1,
            d == s@.skip(from as int),
            d == without_plus(s@),
            hex_value(d.take(i - from)) == Some(v as nat),
            v <= max,
        decreases s.len() - i,
    {
        proof {
            assert(d.take(i - from + 1).drop_last() =~= d.take(i - from));
            assert(d.take(i - from + 1).last() == s@[i as int]);
            lemma_hex_grows(d, i - from + 1);
        }
        match hex_digit_of(s[i]) {
            Some(x) => {
                let wide: u128 = 16 * (v as u128) + x as u128;
                if wide > max as u128 {
                    return None;
                }
                v = wide as u64;
            },
            None => {
                return None;
            },
        }
        i += 1;
    }
    assert(d.take(d.len() as int) =~= d);
    Some(v)
}

/// A number that is written in decimal is read back, unless it is too large.
pub proof fn written_number_is_read_back(n: nat, max: nat)
    ensures
        parsed_nat(dec(n), max) == if n <= max {
            Some(n)
        } else {
            None
        },
        dec(n).len() > 0,
        is_digit(dec(n)[0]),
        is_digit(dec(n).last()),
{
    lemma_dec(n);
    assert(is_digit(dec(n)[0]));
    assert(is_digit(dec(n)[dec(n).len() - 1]));
    assert(without_plus(dec(n)) == dec(n));
}

/// A text that is read as a number holds digits, but for a plus sign before
/// them.
pub proof fn number_is_made_of_digits(s: Seq<char>, max: nat, i: int)
    requires
        parsed_nat(s, max) is Some,
        0 <= i < s.len(),
    ensures
        is_digit(s[i]) || (i == 0 && s[i] == '+' && s.len() > 1),
        parsed_nat(s, max)->0 <= max,
{
    let d = without_plus(s);
    if s[0] == '+' {
        if i > 0 {
            assert(d[i - 1] == s[i]);
        }
    } else {
        assert(d[i] == s[i]);
    }
}

} // verus!
