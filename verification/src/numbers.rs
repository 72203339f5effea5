//! Decimal integer parsing and decimal / hexadecimal formatting.

use vstd::prelude::*;
use crate::text::{chars_of, is_digit, push_char, strip_leading};

verus! {

/// The value of an ASCII digit.
pub open spec fn digit_value(c: char) -> int {
    (c as int) - ('0' as int)
}

/// Every character is an ASCII digit.
pub open spec fn all_digits(s: Seq<char>) -> bool {
    forall|i: int| 0 <= i < s.len() ==> is_digit(#[trigger] s[i])
}

/// The number that a sequence of ASCII digits writes in decimal.
pub open spec fn digits_value(s: Seq<char>) -> int
    decreases s.len(),
{
    if s.len() == 0 {
        0
    } else {
        digits_value(s.drop_last()) * 10 + digit_value(s.last())
    }
}

/// `FromStr` for the integer types: an optional `+` (or `-` when `signed`),
/// then at least one ASCII digit, and a value within `[min, max]`.
pub open spec fn parse_int(s: Seq<char>, signed: bool, min: int, max: int) -> Option<int> {
    if s.len() == 0 {
        None
    } else if (s[0] == '+' || s[0] == '-') && s.len() == 1 {
        None
    } else {
        let neg = signed && s[0] == '-';
        let d = if s[0] == '+' || neg {
            s.drop_first()
        } else {
            s
        };
        let v = if neg {
            -digits_value(d)
        } else {
            digits_value(d)
        };
        if all_digits(d) && min <= v && v <= max {
            Some(v)
        } else {
            None
        }
    }
}

/// `str::parse::<i64>`.
pub open spec fn parse_i64_spec(s: Seq<char>) -> Option<int> {
    parse_int(s, true, i64::MIN as int, i64::MAX as int)
}

/// `str::parse::<i32>`.
pub open spec fn parse_i32_spec(s: Seq<char>) -> Option<int> {
    parse_int(s, true, i32::MIN as int, i32::MAX as int)
}

/// `str::parse::<usize>`.
pub open spec fn parse_usize_spec(s: Seq<char>) -> Option<int> {
    parse_int(s, false, 0, usize::MAX as int)
}

proof fn lemma_digits_value_nonneg(s: Seq<char>)
    requires
        all_digits(s),
    ensures
        digits_value(s) >= 0,
    decreases s.len(),
{
    if s.len() > 0 {
        assert(is_digit(s[s.len() - 1]));
        lemma_digits_value_nonneg(s.drop_last());
    }
}

proof fn lemma_digits_value_prefix(s: Seq<char>, k: int)
    requires
        all_digits(s),
        0 <= k <= s.len(),
    ensures
        digits_value(s) >= digits_value(s.take(k)),
    decreases s.len(),
{
    if k < s.len() {
        assert(is_digit(s[s.len() - 1]));
        lemma_digits_value_nonneg(s.drop_last());
        lemma_digits_value_prefix(s.drop_last(), k);
        assert(s.drop_last().take(k) =~= s.take(k));
    } else {
        assert(s.take(k) =~= s);
    }
}

/// The value of the digits `v[start..]`, when they are all ASCII digits and
/// the value is at most `limit`.
fn parse_magnitude(v: &[char], start: usize, limit: u128) -> (r: Option<u128>)
    requires
        start <= v@.len(),
        limit <= u64::MAX,
    ensures
        match r {
            Some(m) => all_digits(v@.skip(start as int)) && m == digits_value(v@.skip(start as int))
                && m <= limit,
            None => !(all_digits(v@.skip(start as int)) && digits_value(v@.skip(start as int))
                <= limit),
        },
{
    let ghost d = v@.skip(start as int);
    let mut acc: u128 = 0;
    let mut k: usize = start;
    assert(d.take(0) =~= Seq::<char>::empty());
    while k < v.len()
        invariant
            start <= k <= v@.len(),
            d == v@.skip(start as int),
            all_digits(d.take(k - start)),
            acc == digits_value(d.take(k - start)),
            acc <= limit,
            limit <= u64::MAX,
        decreases v.len() - k,
    {
        let c = v[k];
        if !('0' <= c && c <= '9') {
            assert(d[k - start] == c);
            return None;
        }
        let dv: u128 = ((c as u32) - ('0' as u32)) as u128;
        let next = acc * 10 + dv;
        proof {
            let p = d.take(k - start + 1);
            assert(p.drop_last() =~= d.take(k - start));
            assert(p.last() == c);
            assert(all_digits(p));
        }
        if next > limit {
            proof {
                let p = d.take(k - start + 1);
                if all_digits(d) {
                    lemma_digits_value_prefix(d, k - start + 1);
                }
            }
            return None;
        }
        acc = next;
        k += 1;
    }
    assert(d.take(k - start) =~= d);
    Some(acc)
}

/// Parses an integer as `FromStr` does, for a range `[min, max]` that holds 0.
pub fn parse_int_chars(v: &[char], signed: bool, min: i128, max: i128) -> (r: Option<i128>)
    requires
        -(u64::MAX as int) <= min <= 0 <= max <= u64::MAX,
    ensures
        match r {
            Some(x) => parse_int(v@, signed, min as int, max as int) == Some(x as int),
            None => parse_int(v@, signed, min as int, max as int) is None,
        },
{
    if v.len() == 0 {
        return None;
    }
    if (v[0] == '+' || v[0] == '-') && v.len() == 1 {
        return None;
    }
    let neg = signed && v[0] == '-';
    let start: usize = if v[0] == '+' || neg {
        1
    } else {
        0
    };
    assert(v@.skip(1) =~= v@.drop_first());
    assert(v@.skip(0) =~= v@);
    let limit: u128 = if neg {
        (-min) as u128
    } else {
        max as u128
    };
    match parse_magnitude(v, start, limit) {
        Some(m) => {
            if neg {
                Some(-(m as i128))
            } else {
                Some(m as i128)
            }
        },
        None => None,
    }
}

/// `str::parse::<i64>`.
pub fn parse_i64(s: &str) -> (r: Option<i64>)
    ensures
        match r {
            Some(x) => parse_i64_spec(s@) == Some(x as int),
            None => parse_i64_spec(s@) is None,
        },
{
    let v = chars_of(s);
    match parse_int_chars(&v, true, i64::MIN as i128, i64::MAX as i128) {
        Some(x) => Some(x as i64),
        None => None,
    }
}

/// `str::parse::<i32>`.
pub fn parse_i32(s: &str) -> (r: Option<i32>)
    ensures
        match r {
            Some(x) => parse_i32_spec(s@) == Some(x as int),
            None => parse_i32_spec(s@) is None,
        },
{
    let v = chars_of(s);
    match parse_int_chars(&v, true, i32::MIN as i128, i32::MAX as i128) {
        Some(x) => Some(x as i32),
        None => None,
    }
}

/// `str::parse::<usize>`.
pub fn parse_usize(s: &str) -> (r: Option<usize>)
    ensures
        match r {
            Some(x) => parse_usize_spec(s@) == Some(x as int),
            None => parse_usize_spec(s@) is None,
        },
{
    let v = chars_of(s);
    match parse_int_chars(&v, false, 0, usize::MAX as i128) {
        Some(x) => Some(x as usize),
        None => None,
    }
}

/// The ASCII digit for a value below ten.
pub open spec fn digit_char(d: int) -> char {
    (d + 48) as char
}

/// The decimal digits of a natural number, without leading zeros.
pub open spec fn decimal(n: nat) -> Seq<char>
    decreases n,
{
    if n < 10 {
        seq![digit_char(n as int)]
    } else {
        decimal(n / 10).push(digit_char((n % 10) as int))
    }
}

/// An integer written in decimal, as `Display` writes it.
pub open spec fn signed_decimal(n: int) -> Seq<char> {
    if n < 0 {
        seq!['-'] + decimal((-n) as nat)
    } else {
        decimal(n as nat)
    }
}

proof fn lemma_digit_char(d: int)
    requires
        0 <= d < 10,
    ensures
        digit_value(digit_char(d)) == d,
        is_digit(digit_char(d)),
{
    assert(((d + 48) as char) as int == d + 48);
}

/// Decimal digits are digits, at least one, and read back as the number.
pub proof fn lemma_decimal_reads_back(n: nat)
    ensures
        all_digits(decimal(n)),
        decimal(n).len() >= 1,
        digits_value(decimal(n)) == n,
    decreases n,
{
    lemma_digit_char((n % 10) as int);
    if n < 10 {
        assert(n % 10 == n);
        assert(decimal(n).drop_last() =~= Seq::<char>::empty());
        assert(decimal(n).last() == digit_char(n as int));
        assert(digits_value(decimal(n).drop_last()) == 0);
        assert(digits_value(decimal(n)) == digits_value(decimal(n).drop_last()) * 10 + digit_value(
            decimal(n).last(),
        ));
    } else {
        lemma_decimal_reads_back(n / 10);
        assert(n == (n / 10) * 10 + n % 10);
        assert(decimal(n).last() == digit_char((n % 10) as int));
        assert(digits_value(decimal(n)) == digits_value(decimal(n).drop_last()) * 10 + digit_value(
            decimal(n).last(),
        ));
        assert(decimal(n).drop_last() == decimal(n / 10));
        assert forall|i: int| 0 <= i < decimal(n).len() implies is_digit(#[trigger] decimal(n)[i]) by {
            if i < decimal(n).len() - 1 {
                assert(decimal(n)[i] == decimal(n / 10)[i]);
            }
        }
    }
}

/// An integer written in decimal parses back to itself.
pub proof fn lemma_signed_decimal_parses(n: int, min: int, max: int)
    requires
        min <= n <= max,
    ensures
        parse_int(signed_decimal(n), true, min, max) == Some(n),
{
    if n < 0 {
        let d = decimal((-n) as nat);
        lemma_decimal_reads_back((-n) as nat);
        let s = seq!['-'] + d;
        assert(s.drop_first() =~= d);
        assert(s[0] == '-');
    } else {
        let d = decimal(n as nat);
        lemma_decimal_reads_back(n as nat);
        assert(is_digit(d[0]));
    }
}

/// A natural number written in decimal parses back to itself as an unsigned integer.
pub proof fn lemma_decimal_parses(n: nat, max: int)
    requires
        n <= max,
    ensures
        parse_int(decimal(n), false, 0, max) == Some(n as int),
{
    let d = decimal(n);
    lemma_decimal_reads_back(n);
    assert(is_digit(d[0]));
}

/// Decimal text never holds the character `c` unless it is a digit or `-`.
pub proof fn lemma_signed_decimal_chars(n: int)
    ensures
        forall|i: int|
            0 <= i < signed_decimal(n).len() ==> is_digit(#[trigger] signed_decimal(n)[i])
                || signed_decimal(n)[i] == '-',
{
    if n < 0 {
        lemma_decimal_reads_back((-n) as nat);
        let d = decimal((-n) as nat);
        assert forall|i: int| 0 <= i < signed_decimal(n).len() implies is_digit(
            #[trigger] signed_decimal(n)[i],
        ) || signed_decimal(n)[i] == '-' by {
            if i > 0 {
                assert(signed_decimal(n)[i] == d[i - 1]);
            }
        }
    } else {
        lemma_decimal_reads_back(n as nat);
    }
}

/// Appends the decimal digits of `n`.
pub fn push_decimal(s: &mut String, n: u64)
    ensures
        final(s)@ == old(s)@ + decimal(n as nat),
    decreases n,
{
    if n >= 10 {
        push_decimal(s, n / 10);
    }
    let d: u8 = (n % 10) as u8;
    let c: char = (d + 48) as char;
    push_char(s, c);
    assert(digit_char((n % 10) as int) == c);
}

/// Appends an integer written in decimal.
pub fn push_signed_decimal(s: &mut String, n: i64)
    ensures
        final(s)@ == old(s)@ + signed_decimal(n as int),
{
    if n < 0 {
        push_char(s, '-');
        let m: u64 = ((-(n + 1)) as u64) + 1;
        push_decimal(s, m);
        assert(seq!['-'] + decimal(m as nat) == signed_decimal(n as int));
    } else {
        push_decimal(s, n as u64);
    }
}

/// The lowercase hexadecimal digit for a value below sixteen.
pub open spec fn hex_char(d: int) -> char {
    if d < 10 {
        (d + 48) as char
    } else {
        (d + 87) as char
    }
}

/// The last `width` lowercase hexadecimal digits of `n`, zero-padded.
pub open spec fn hex_digits(n: nat, width: nat) -> Seq<char>
    decreases width,
{
    if width == 0 {
        Seq::<char>::empty()
    } else {
        hex_digits(n / 16, (width - 1) as nat).push(hex_char((n % 16) as int))
    }
}

/// Appends the last `width` lowercase hexadecimal digits of `n`.
pub fn push_hex(s: &mut String, n: u64, width: u32)
    ensures
        final(s)@ == old(s)@ + hex_digits(n as nat, width as nat),
    decreases width,
{
    if width == 0 {
        assert(old(s)@ + Seq::<char>::empty() =~= old(s)@);
        return;
    }
    push_hex(s, n / 16, width - 1);
    let d: u8 = (n % 16) as u8;
    let c: char = if d < 10 {
        (d + 48) as char
    } else {
        (d + 87) as char
    };
    push_char(s, c);
    assert(hex_char((n % 16) as int) == c);
}

/// A leading zero does not change the value of a digit sequence.
proof fn lemma_leading_zero_value(x: Seq<char>)
    ensures
        digits_value(seq!['0'] + x) == digits_value(x),
    decreases x.len(),
{
    let z = seq!['0'] + x;
    assert(digits_value(z) == digits_value(z.drop_last()) * 10 + digit_value(z.last()));
    if x.len() == 0 {
        assert(z.drop_last() =~= Seq::<char>::empty());
        assert(z.last() == '0');
        assert(digit_value('0') == 0);
    } else {
        assert(z.drop_last() =~= seq!['0'] + x.drop_last());
        assert(z.last() == x.last());
        lemma_leading_zero_value(x.drop_last());
        assert(digits_value(x) == digits_value(x.drop_last()) * 10 + digit_value(x.last()));
    }
}

/// Stripping leading zeros keeps the value and the digits, and what is left
/// does not start with a zero.
pub proof fn lemma_strip_zeros(s: Seq<char>)
    requires
        all_digits(s),
    ensures
        digits_value(strip_leading(s, '0')) == digits_value(s),
        all_digits(strip_leading(s, '0')),
        strip_leading(s, '0').len() > 0 ==> strip_leading(s, '0')[0] != '0',
    decreases s.len(),
{
    if s.len() > 0 && s[0] == '0' {
        let t = s.drop_first();
        assert(all_digits(t)) by {
            assert forall|i: int| 0 <= i < t.len() implies is_digit(#[trigger] t[i]) by {
                assert(t[i] == s[i + 1]);
            }
        }
        lemma_strip_zeros(t);
        assert(s =~= seq!['0'] + t);
        lemma_leading_zero_value(t);
    }
}

/// The digit that stands for a digit's value is that digit.
proof fn lemma_digit_char_of_value(c: char)
    requires
        is_digit(c),
    ensures
        digit_char(digit_value(c)) == c,
        0 <= digit_value(c) < 10,
{
    assert(((c as int - 48 + 48) as char) == c);
}

/// Digits that do not start with a zero have a value of at least one.
proof fn lemma_nonzero_lead_value(t: Seq<char>)
    requires
        all_digits(t),
        t.len() > 0,
        t[0] != '0',
    ensures
        digits_value(t) >= 1,
{
    lemma_digits_value_prefix(t, 1);
    let h = t.take(1);
    assert(h.drop_last() =~= Seq::<char>::empty());
    assert(h.last() == t[0]);
    assert(is_digit(t[0]));
    assert(digits_value(h) == digits_value(h.drop_last()) * 10 + digit_value(h.last()));
    assert(digits_value(h.drop_last()) == 0);
    assert(t[0] as int >= '1' as int);
}

/// Digits that do not start with a zero are the decimal writing of their
/// value: decimal writing is unique.
pub proof fn lemma_decimal_unique(t: Seq<char>)
    requires
        all_digits(t),
        t.len() > 0,
        t[0] != '0',
    ensures
        digits_value(t) >= 1,
        decimal(digits_value(t) as nat) == t,
    decreases t.len(),
{
    lemma_nonzero_lead_value(t);
    let d = t.last();
    assert(is_digit(d));
    lemma_digit_char_of_value(d);
    if t.len() == 1 {
        assert(t.drop_last() =~= Seq::<char>::empty());
        assert(decimal(digits_value(t) as nat) =~= t);
    } else {
        let u = t.drop_last();
        assert(all_digits(u)) by {
            assert forall|i: int| 0 <= i < u.len() implies is_digit(#[trigger] u[i]) by {
                assert(u[i] == t[i]);
            }
        }
        assert(u[0] == t[0]);
        lemma_decimal_unique(u);
        let v = digits_value(u);
        let n = v * 10 + digit_value(d);
        assert(n == digits_value(t));
        assert(n / 10 == v && n % 10 == digit_value(d)) by (nonlinear_arith)
            requires
                n == v * 10 + digit_value(d),
                0 <= digit_value(d) < 10,
        ;
        assert(decimal(n as nat) == decimal((n / 10) as nat).push(digit_char(n % 10)));
        assert(t =~= u.push(d));
    }
}

} // verus!
