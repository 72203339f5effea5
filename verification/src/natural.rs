//! Natural ("human") ordering of names: digit runs compare by numeric value,
//! other characters compare ignoring ASCII case.

use core::cmp::Ordering;
use vstd::prelude::*;
use crate::numbers::{all_digits, decimal, digit_char, digit_value, digits_value, lemma_decimal_reads_back};
use crate::text::{ascii_lower, chars_of, is_digit, lower_char, lower_chars, strip_leading, strip_leading_index, sub_chars};

verus! {

/// Three-way comparison of two integers, as -1, 0 or 1.
pub open spec fn compare_int(a: int, b: int) -> int {
    if a < b {
        -1
    } else if a > b {
        1
    } else {
        0
    }
}

/// Three-way comparison of two characters by code point.
pub open spec fn compare_char(a: char, b: char) -> int {
    if a < b {
        -1
    } else if b < a {
        1
    } else {
        0
    }
}

/// Lexicographic comparison by code point, as `Ord for str` orders text.
pub open spec fn lex_order(a: Seq<char>, b: Seq<char>) -> int
    decreases a.len(),
{
    if a.len() == 0 || b.len() == 0 {
        compare_int(a.len() as int, b.len() as int)
    } else if a[0] != b[0] {
        compare_char(a[0], b[0])
    } else {
        lex_order(a.drop_first(), b.drop_first())
    }
}

/// Number of ASCII digits at the start of `s`.
pub open spec fn digit_run(s: Seq<char>) -> nat
    decreases s.len(),
{
    if s.len() > 0 && is_digit(s[0]) {
        1 + digit_run(s.drop_first())
    } else {
        0
    }
}

/// A run of digits without its leading zeros, or "0" when only zeros remain.
pub open spec fn number_text(d: Seq<char>) -> Seq<char> {
    let t = strip_leading(d, '0');
    if t.len() == 0 {
        seq!['0']
    } else {
        t
    }
}

/// The natural order of two names, as -1, 0 or 1. Where both names continue
/// with digits, the digit runs compare by number of significant digits, then
/// by the significant digits, then by run length (more leading zeros sort
/// later); other characters compare by their ASCII-lowercase code point; a
/// name that is a prefix of the other comes first.
pub open spec fn natural_order(l: Seq<char>, r: Seq<char>) -> int
    decreases l.len(),
{
    if l.len() == 0 || r.len() == 0 {
        compare_int(l.len() as int, r.len() as int)
    } else if is_digit(l[0]) && is_digit(r[0]) {
        proof {
            lemma_digit_run_positive(l);
        }
        let ln = digit_run(l);
        let rn = digit_run(r);
        let a = number_text(l.take(ln as int));
        let b = number_text(r.take(rn as int));
        if a.len() != b.len() {
            compare_int(a.len() as int, b.len() as int)
        } else if lex_order(a, b) != 0 {
            lex_order(a, b)
        } else if ln != rn {
            compare_int(ln as int, rn as int)
        } else {
            natural_order(l.skip(ln as int), r.skip(rn as int))
        }
    } else if ascii_lower(l[0]) != ascii_lower(r[0]) {
        compare_char(ascii_lower(l[0]), ascii_lower(r[0]))
    } else {
        natural_order(l.drop_first(), r.drop_first())
    }
}

pub proof fn lemma_digit_run_positive(s: Seq<char>)
    requires
        s.len() > 0,
        is_digit(s[0]),
    ensures
        1 <= digit_run(s) <= s.len(),
    decreases s.len(),
{
    lemma_digit_run_bound(s.drop_first());
}

pub proof fn lemma_digit_run_bound(s: Seq<char>)
    ensures
        digit_run(s) <= s.len(),
    decreases s.len(),
{
    if s.len() > 0 && is_digit(s[0]) {
        lemma_digit_run_bound(s.drop_first());
    }
}

/// End of the run of digits that starts at `start`.
fn digit_run_end(v: &[char], start: usize) -> (end: usize)
    requires
        start <= v@.len(),
    ensures
        start <= end <= v@.len(),
        end - start == digit_run(v@.skip(start as int)),
{
    let mut k: usize = start;
    while k < v.len() && is_ascii_digit_char(v[k])
        invariant
            start <= k <= v@.len(),
            digit_run(v@.skip(start as int)) == (k - start) + digit_run(v@.skip(k as int)),
        decreases v.len() - k,
    {
        assert(v@.skip(k as int).drop_first() =~= v@.skip(k + 1));
        k += 1;
    }
    k
}

/// `char::is_ascii_digit`.
pub fn is_ascii_digit_char(c: char) -> (r: bool)
    ensures
        r == is_digit(c),
{
    '0' <= c && c <= '9'
}

/// The significant digits of `d`, or "0".
fn number_text_of(d: &[char]) -> (r: Vec<char>)
    ensures
        r@ == number_text(d@),
{
    let z = strip_leading_index(d, '0');
    if z == d.len() {
        vec!['0']
    } else {
        sub_chars(d, z, d.len())
    }
}

/// `lex_order` on character vectors.
pub fn lex_order_of(a: &[char], b: &[char]) -> (r: i8)
    ensures
        r as int == lex_order(a@, b@),
{
    let mut i: usize = 0;
    assert(a@.skip(0) =~= a@);
    assert(b@.skip(0) =~= b@);
    while i < a.len() && i < b.len()
        invariant
            i <= a@.len(),
            i <= b@.len(),
            lex_order(a@, b@) == lex_order(a@.skip(i as int), b@.skip(i as int)),
        decreases a.len() - i,
    {
        if a[i] != b[i] {
            return if a[i] < b[i] {
                -1
            } else {
                1
            };
        }
        assert(a@.skip(i as int).drop_first() =~= a@.skip(i + 1));
        assert(b@.skip(i as int).drop_first() =~= b@.skip(i + 1));
        i += 1;
    }
    if a.len() - i < b.len() - i {
        -1
    } else if a.len() - i > b.len() - i {
        1
    } else {
        0
    }
}

/// `natural_order` on character vectors.
pub fn natural_order_of(l: &[char], r: &[char]) -> (o: i8)
    ensures
        o as int == natural_order(l@, r@),
{
    let mut i: usize = 0;
    assert(l@.skip(0) =~= l@);
    assert(r@.skip(0) =~= r@);
    while i < l.len() && i < r.len()
        invariant
            i <= l@.len(),
            i <= r@.len(),
            natural_order(l@, r@) == natural_order(l@.skip(i as int), r@.skip(i as int)),
        decreases l.len() - i,
    {
        let ghost ls = l@.skip(i as int);
        let ghost rs = r@.skip(i as int);
        let lc = l[i];
        let rc = r[i];
        if is_ascii_digit_char(lc) && is_ascii_digit_char(rc) {
            let le = digit_run_end(l, i);
            let re = digit_run_end(r, i);
            proof {
                lemma_digit_run_positive(ls);
                lemma_digit_run_positive(rs);
                assert(ls.take((le - i) as int) =~= l@.subrange(i as int, le as int));
                assert(rs.take((re - i) as int) =~= r@.subrange(i as int, re as int));
                assert(ls.skip((le - i) as int) =~= l@.skip(le as int));
                assert(rs.skip((re - i) as int) =~= r@.skip(re as int));
            }
            let ld = sub_chars(l, i, le);
            let rd = sub_chars(r, i, re);
            let a = number_text_of(&ld);
            let b = number_text_of(&rd);
            if a.len() != b.len() {
                return if a.len() < b.len() {
                    -1
                } else {
                    1
                };
            }
            let lo = lex_order_of(&a, &b);
            if lo != 0 {
                return lo;
            }
            if le != re {
                return if le < re {
                    -1
                } else {
                    1
                };
            }
            i = le;
        } else {
            let a = lower_char(lc);
            let b = lower_char(rc);
            if a != b {
                return if a < b {
                    -1
                } else {
                    1
                };
            }
            assert(ls.drop_first() =~= l@.skip(i + 1));
            assert(rs.drop_first() =~= r@.skip(i + 1));
            i += 1;
        }
    }
    if l.len() - i < r.len() - i {
        -1
    } else if l.len() - i > r.len() - i {
        1
    } else {
        0
    }
}

/// The order of the leading parts of two non-empty names: a digit run against
/// a digit run, or one character against another.
pub open spec fn head_order(x: Seq<char>, y: Seq<char>) -> int {
    if is_digit(x[0]) && is_digit(y[0]) {
        let ln = digit_run(x);
        let rn = digit_run(y);
        let a = number_text(x.take(ln as int));
        let b = number_text(y.take(rn as int));
        if a.len() != b.len() {
            compare_int(a.len() as int, b.len() as int)
        } else if lex_order(a, b) != 0 {
            lex_order(a, b)
        } else {
            compare_int(ln as int, rn as int)
        }
    } else {
        compare_char(ascii_lower(x[0]), ascii_lower(y[0]))
    }
}

/// Length of the leading part of a non-empty name: its digit run, or one character.
pub open spec fn head_len(x: Seq<char>) -> int {
    if is_digit(x[0]) {
        digit_run(x) as int
    } else {
        1
    }
}

proof fn lemma_natural_unfold(x: Seq<char>, y: Seq<char>)
    requires
        x.len() > 0,
        y.len() > 0,
    ensures
        natural_order(x, y) == if head_order(x, y) != 0 {
            head_order(x, y)
        } else {
            natural_order(x.skip(head_len(x)), y.skip(head_len(y)))
        },
        head_order(x, y) == 0 ==> head_len(x) == head_len(y) && (is_digit(x[0]) == is_digit(y[0])),
        1 <= head_len(x) <= x.len(),
{
    if is_digit(x[0]) {
        lemma_digit_run_positive(x);
    }
    if is_digit(y[0]) {
        lemma_digit_run_positive(y);
    }
    if !(is_digit(x[0]) && is_digit(y[0])) {
        assert(x.drop_first() =~= x.skip(1));
        assert(y.drop_first() =~= y.skip(1));
        if head_order(x, y) == 0 {
            assert(is_digit(x[0]) == is_digit(ascii_lower(x[0])));
            assert(is_digit(y[0]) == is_digit(ascii_lower(y[0])));
        }
    }
}

pub proof fn lemma_lex_antisymmetric(a: Seq<char>, b: Seq<char>)
    ensures
        lex_order(a, b) == -lex_order(b, a),
        lex_order(a, b) == 0 <==> a == b,
    decreases a.len(),
{
    if a.len() == 0 || b.len() == 0 {
        if a.len() == 0 && b.len() == 0 {
            assert(a =~= b);
        }
    } else if a[0] != b[0] {
    } else {
        lemma_lex_antisymmetric(a.drop_first(), b.drop_first());
        if a.drop_first() == b.drop_first() {
            assert(a =~= seq![a[0]] + a.drop_first());
            assert(b =~= seq![b[0]] + b.drop_first());
        }
        if a == b {
            assert(a.drop_first() == b.drop_first());
        }
    }
}

pub proof fn lemma_lex_transitive(a: Seq<char>, b: Seq<char>, c: Seq<char>)
    requires
        lex_order(a, b) <= 0,
        lex_order(b, c) <= 0,
    ensures
        lex_order(a, c) <= 0,
        lex_order(a, b) < 0 || lex_order(b, c) < 0 ==> lex_order(a, c) < 0,
    decreases a.len(),
{
    if a.len() == 0 || b.len() == 0 || c.len() == 0 {
    } else if a[0] != b[0] || b[0] != c[0] {
    } else {
        lemma_lex_transitive(a.drop_first(), b.drop_first(), c.drop_first());
    }
}

proof fn lemma_head_antisymmetric(x: Seq<char>, y: Seq<char>)
    requires
        x.len() > 0,
        y.len() > 0,
    ensures
        head_order(x, y) == -head_order(y, x),
{
    if is_digit(x[0]) && is_digit(y[0]) {
        let a = number_text(x.take(digit_run(x) as int));
        let b = number_text(y.take(digit_run(y) as int));
        lemma_lex_antisymmetric(a, b);
    }
}

proof fn lemma_head_transitive(x: Seq<char>, y: Seq<char>, z: Seq<char>)
    requires
        x.len() > 0,
        y.len() > 0,
        z.len() > 0,
        head_order(x, y) <= 0,
        head_order(y, z) <= 0,
    ensures
        head_order(x, z) <= 0,
        head_order(x, y) < 0 || head_order(y, z) < 0 ==> head_order(x, z) < 0,
{
    let dx = is_digit(x[0]);
    let dy = is_digit(y[0]);
    let dz = is_digit(z[0]);
    assert(is_digit(ascii_lower(x[0])) == dx);
    assert(is_digit(ascii_lower(y[0])) == dy);
    assert(is_digit(ascii_lower(z[0])) == dz);
    if dx && dy && dz {
        let a = number_text(x.take(digit_run(x) as int));
        let b = number_text(y.take(digit_run(y) as int));
        let c = number_text(z.take(digit_run(z) as int));
        lemma_lex_antisymmetric(a, b);
        lemma_lex_antisymmetric(b, c);
        lemma_lex_antisymmetric(a, c);
        if a.len() == b.len() && b.len() == c.len() && lex_order(a, b) <= 0 && lex_order(b, c) <= 0 {
            lemma_lex_transitive(a, b, c);
        }
    }
}

proof fn lemma_natural_reflexive(x: Seq<char>)
    ensures
        natural_order(x, x) == 0,
    decreases x.len(),
{
    if x.len() > 0 {
        lemma_natural_unfold(x, x);
        lemma_head_antisymmetric(x, x);
        lemma_natural_reflexive(x.skip(head_len(x)));
    }
}

proof fn lemma_natural_antisymmetric(x: Seq<char>, y: Seq<char>)
    ensures
        natural_order(x, y) == -natural_order(y, x),
    decreases x.len(),
{
    if x.len() > 0 && y.len() > 0 {
        lemma_natural_unfold(x, y);
        lemma_natural_unfold(y, x);
        lemma_head_antisymmetric(x, y);
        if head_order(x, y) == 0 {
            lemma_natural_antisymmetric(x.skip(head_len(x)), y.skip(head_len(y)));
        }
    }
}

proof fn lemma_natural_transitive(x: Seq<char>, y: Seq<char>, z: Seq<char>)
    requires
        natural_order(x, y) <= 0,
        natural_order(y, z) <= 0,
    ensures
        natural_order(x, z) <= 0,
    decreases x.len(),
{
    if x.len() > 0 && y.len() > 0 && z.len() > 0 {
        lemma_natural_unfold(x, y);
        lemma_natural_unfold(y, z);
        lemma_natural_unfold(x, z);
        lemma_head_transitive(x, y, z);
        if head_order(x, y) == 0 && head_order(y, z) == 0 {
            lemma_head_antisymmetric(x, y);
            lemma_head_antisymmetric(y, z);
            lemma_head_transitive(z, y, x);
            lemma_head_antisymmetric(x, z);
            lemma_natural_transitive(x.skip(head_len(x)), y.skip(head_len(y)), z.skip(head_len(z)));
        }
    }
}

/// Stripping leading `c`s removes a run of `c`s, and what is left does not
/// start with `c`.
proof fn lemma_strip_leading_shape(s: Seq<char>, c: char)
    ensures
        strip_leading(s, c).len() <= s.len(),
        strip_leading(s, c) == s.skip(s.len() - strip_leading(s, c).len()),
        forall|i: int| 0 <= i < s.len() - strip_leading(s, c).len() ==> s[i] == c,
        strip_leading(s, c).len() > 0 ==> strip_leading(s, c)[0] != c,
    decreases s.len(),
{
    if s.len() > 0 && s[0] == c {
        lemma_strip_leading_shape(s.drop_first(), c);
        let t = strip_leading(s.drop_first(), c);
        assert(s.drop_first().skip(s.drop_first().len() - t.len()) =~= s.skip(s.len() - t.len()));
        assert forall|i: int| 0 <= i < s.len() - t.len() implies s[i] == c by {
            if i > 0 {
                assert(s[i] == s.drop_first()[i - 1]);
            }
        }
    } else {
        assert(s.skip(0) =~= s);
    }
}

/// Two digit runs of the same length with the same significant digits are
/// the same run.
proof fn lemma_number_text_determines(a: Seq<char>, b: Seq<char>)
    requires
        a.len() == b.len(),
        number_text(a) == number_text(b),
    ensures
        a == b,
{
    lemma_strip_leading_shape(a, '0');
    lemma_strip_leading_shape(b, '0');
    let ta = strip_leading(a, '0');
    let tb = strip_leading(b, '0');
    if ta.len() == 0 || tb.len() == 0 {
        if ta.len() != 0 {
            assert(number_text(a) == ta);
            assert(number_text(b) =~= seq!['0']);
            assert(ta[0] == '0');
        } else if tb.len() != 0 {
            assert(number_text(b) == tb);
            assert(number_text(a) =~= seq!['0']);
            assert(tb[0] == '0');
        }
    }
    assert(ta == tb);
    assert forall|i: int| 0 <= i < a.len() implies a[i] == b[i] by {
        let k = a.len() - ta.len();
        if i >= k {
            assert(a[i] == a.skip(k)[i - k]);
            assert(b[i] == b.skip(k)[i - k]);
        }
    }
    assert(a =~= b);
}

/// Names that are equal ignoring ASCII case start with the same digit run.
proof fn lemma_lower_digit_run(x: Seq<char>, y: Seq<char>)
    requires
        lower_chars(x) == lower_chars(y),
    ensures
        x.len() == y.len(),
        digit_run(x) == digit_run(y),
        x.take(digit_run(x) as int) == y.take(digit_run(y) as int),
    decreases x.len(),
{
    assert(lower_chars(x).len() == x.len());
    assert(lower_chars(y).len() == y.len());
    if x.len() > 0 {
        assert(lower_chars(x)[0] == ascii_lower(x[0]));
        assert(lower_chars(y)[0] == ascii_lower(y[0]));
        if is_digit(x[0]) || is_digit(y[0]) {
            assert(x[0] == y[0]);
            assert(lower_chars(x.drop_first()) =~= lower_chars(x).drop_first());
            assert(lower_chars(y.drop_first()) =~= lower_chars(y).drop_first());
            lemma_lower_digit_run(x.drop_first(), y.drop_first());
            let n = digit_run(x.drop_first()) as int;
            lemma_digit_run_bound(x.drop_first());
            assert(x.take(n + 1) =~= seq![x[0]] + x.drop_first().take(n));
            assert(y.take(n + 1) =~= seq![y[0]] + y.drop_first().take(n));
        } else {
            assert(x.take(0) =~= y.take(0));
        }
    } else {
        assert(x.take(0) =~= y.take(0));
    }
}

/// The lowercased name is its lowercased leading part followed by the rest.
proof fn lemma_lower_split(x: Seq<char>, n: int)
    requires
        0 <= n <= x.len(),
    ensures
        lower_chars(x) == lower_chars(x.take(n)) + lower_chars(x.skip(n)),
{
    assert(lower_chars(x) =~= lower_chars(x.take(n)) + lower_chars(x.skip(n)));
}

proof fn lemma_natural_ties(x: Seq<char>, y: Seq<char>)
    ensures
        natural_order(x, y) == 0 <==> lower_chars(x) == lower_chars(y),
    decreases x.len(),
{
    assert(lower_chars(x).len() == x.len());
    assert(lower_chars(y).len() == y.len());
    if x.len() == 0 || y.len() == 0 {
        if x.len() == 0 && y.len() == 0 {
            assert(lower_chars(x) =~= lower_chars(y));
        }
    } else {
        lemma_natural_unfold(x, y);
        lemma_natural_unfold(y, x);
        let hx = head_len(x);
        let hy = head_len(y);
        lemma_lower_split(x, hx);
        lemma_lower_split(y, hy);
        assert(lower_chars(x)[0] == ascii_lower(x[0]));
        assert(lower_chars(y)[0] == ascii_lower(y[0]));
        if lower_chars(x) == lower_chars(y) {
            if is_digit(x[0]) || is_digit(y[0]) {
                assert(x[0] == y[0]);
                lemma_lower_digit_run(x, y);
                let a = x.take(digit_run(x) as int);
                lemma_lex_antisymmetric(number_text(a), number_text(a));
                assert(head_order(x, y) == 0);
            } else {
                assert(head_order(x, y) == 0);
            }
            assert(lower_chars(x.take(hx)) =~= lower_chars(x).take(hx));
            assert(lower_chars(y.take(hy)) =~= lower_chars(y).take(hy));
            assert(lower_chars(x.skip(hx)) =~= lower_chars(x).skip(hx));
            assert(lower_chars(y.skip(hy)) =~= lower_chars(y).skip(hy));
            lemma_natural_ties(x.skip(hx), y.skip(hy));
        } else if natural_order(x, y) == 0 {
            lemma_natural_ties(x.skip(hx), y.skip(hy));
            if is_digit(x[0]) && is_digit(y[0]) {
                lemma_digit_run_positive(x);
                lemma_digit_run_positive(y);
                let a = number_text(x.take(hx));
                let b = number_text(y.take(hy));
                lemma_lex_antisymmetric(a, b);
                lemma_number_text_determines(x.take(hx), y.take(hy));
            } else {
                assert(x.take(1) =~= seq![x[0]]);
                assert(y.take(1) =~= seq![y[0]]);
                assert(lower_chars(x.take(1)) =~= lower_chars(y.take(1)));
            }
        }
    }
}

/// The natural order ranks two names equal exactly when they are equal
/// ignoring ASCII case.
pub proof fn natural_order_ties_only_case_variants(x: Seq<char>, y: Seq<char>)
    ensures
        natural_order(x, y) == 0 <==> lower_chars(x) == lower_chars(y),
{
    lemma_natural_ties(x, y);
}

/// A digit run followed by a non-digit (or nothing) is read whole.
proof fn lemma_digit_run_of_digits(d: Seq<char>, suf: Seq<char>)
    requires
        all_digits(d),
        suf.len() == 0 || !is_digit(suf[0]),
    ensures
        digit_run(d + suf) == d.len(),
    decreases d.len(),
{
    if d.len() == 0 {
        assert(d + suf =~= suf);
    } else {
        assert(is_digit(d[0]));
        let t = d.drop_first();
        assert(all_digits(t)) by {
            assert forall|i: int| 0 <= i < t.len() implies is_digit(#[trigger] t[i]) by {
                assert(t[i] == d[i + 1]);
            }
        }
        assert((d + suf).drop_first() =~= t + suf);
        lemma_digit_run_of_digits(t, suf);
    }
}

/// In a name that ends with a non-digit, the leading digit run stops inside
/// the name, whatever follows it.
proof fn lemma_digit_run_stops(pre: Seq<char>, x: Seq<char>)
    requires
        pre.len() > 0,
        !is_digit(pre.last()),
    ensures
        digit_run(pre + x) == digit_run(pre),
        digit_run(pre) < pre.len(),
    decreases pre.len(),
{
    if is_digit(pre[0]) {
        assert(pre.len() > 1);
        let t = pre.drop_first();
        assert(t.last() == pre.last());
        assert((pre + x).drop_first() =~= t + x);
        assert((pre + x)[0] == pre[0]);
        lemma_digit_run_stops(t, x);
    } else {
        assert((pre + x)[0] == pre[0]);
    }
}

/// A common start that does not end with a digit does not change the
/// natural order.
proof fn lemma_common_start(pre: Seq<char>, x: Seq<char>, y: Seq<char>)
    requires
        pre.len() == 0 || !is_digit(pre.last()),
    ensures
        natural_order(pre + x, pre + y) == natural_order(x, y),
    decreases pre.len(),
{
    if pre.len() == 0 {
        assert(pre + x =~= x);
        assert(pre + y =~= y);
    } else {
        let a = pre + x;
        let b = pre + y;
        assert(a[0] == pre[0] && b[0] == pre[0]);
        lemma_natural_unfold(a, b);
        let h: int = if is_digit(pre[0]) {
            lemma_digit_run_stops(pre, x);
            lemma_digit_run_stops(pre, y);
            assert(a.take(digit_run(a) as int) =~= pre.take(digit_run(pre) as int));
            assert(b.take(digit_run(b) as int) =~= pre.take(digit_run(pre) as int));
            let t = number_text(pre.take(digit_run(pre) as int));
            lemma_lex_antisymmetric(t, t);
            digit_run(pre) as int
        } else {
            1
        };
        assert(head_order(a, b) == 0);
        assert(head_len(a) == h && head_len(b) == h);
        let rest = pre.skip(h);
        assert(rest.len() > 0 ==> rest.last() == pre.last());
        assert(a.skip(h) =~= rest + x);
        assert(b.skip(h) =~= rest + y);
        lemma_common_start(rest, x, y);
    }
}

/// The decimal writing of a positive number does not start with a zero.
proof fn lemma_decimal_lead(n: nat)
    ensures
        decimal(n).len() >= 1,
        n >= 1 ==> decimal(n)[0] != '0',
        n == 0 ==> decimal(n) == seq!['0'],
        decimal(n).len() == if n < 10 { 1 } else { decimal(n / 10).len() + 1 },
    decreases n,
{
    if n < 10 {
        assert(digit_char(n as int) as int == n + 48);
    } else {
        lemma_decimal_lead(n / 10);
        assert(decimal(n)[0] == decimal(n / 10)[0]);
    }
}

/// A larger number has at least as many decimal digits.
proof fn lemma_decimal_len_monotone(n: nat, m: nat)
    requires
        n <= m,
    ensures
        decimal(n).len() <= decimal(m).len(),
    decreases m,
{
    lemma_decimal_lead(n);
    lemma_decimal_lead(m);
    if m >= 10 && n >= 10 {
        lemma_decimal_len_monotone(n / 10, m / 10);
    } else if m >= 10 {
        lemma_decimal_lead(m / 10);
    }
}

/// The digit run of a number's decimal writing is that writing.
proof fn lemma_number_text_of_decimal(n: nat)
    ensures
        number_text(decimal(n)) == decimal(n),
{
    lemma_decimal_lead(n);
    if n == 0 {
        let d = decimal(n);
        assert(strip_leading(d, '0') == strip_leading(d.drop_first(), '0'));
        assert(d.drop_first() =~= Seq::<char>::empty());
    }
}

/// Comparing two extended sequences of equal length: the first difference
/// decides, else the added characters.
proof fn lemma_lex_push(a: Seq<char>, b: Seq<char>, x: char, y: char)
    requires
        a.len() == b.len(),
    ensures
        lex_order(a.push(x), b.push(y)) == if lex_order(a, b) != 0 {
            lex_order(a, b)
        } else {
            compare_char(x, y)
        },
    decreases a.len(),
{
    if a.len() == 0 {
        assert(a.push(x).drop_first() =~= Seq::<char>::empty());
        assert(b.push(y).drop_first() =~= Seq::<char>::empty());
        assert(lex_order(a, b) == 0);
        assert(lex_order(Seq::<char>::empty(), Seq::<char>::empty()) == 0);
        assert(a.push(x)[0] == x && b.push(y)[0] == y);
    } else {
        assert(a.push(x)[0] == a[0] && b.push(y)[0] == b[0]);
        if a[0] == b[0] {
            assert(a.push(x).drop_first() =~= a.drop_first().push(x));
            assert(b.push(y).drop_first() =~= b.drop_first().push(y));
            lemma_lex_push(a.drop_first(), b.drop_first(), x, y);
        }
    }
}

/// Digit sequences of equal length compare, character by character, as the
/// numbers they write.
proof fn lemma_lex_digits(a: Seq<char>, b: Seq<char>)
    requires
        a.len() == b.len(),
        all_digits(a),
        all_digits(b),
    ensures
        lex_order(a, b) == compare_int(digits_value(a), digits_value(b)),
    decreases a.len(),
{
    if a.len() == 0 {
    } else {
        let a0 = a.drop_last();
        let b0 = b.drop_last();
        assert(all_digits(a0)) by {
            assert forall|i: int| 0 <= i < a0.len() implies is_digit(#[trigger] a0[i]) by {
                assert(a0[i] == a[i]);
            }
        }
        assert(all_digits(b0)) by {
            assert forall|i: int| 0 <= i < b0.len() implies is_digit(#[trigger] b0[i]) by {
                assert(b0[i] == b[i]);
            }
        }
        lemma_lex_digits(a0, b0);
        assert(a =~= a0.push(a.last()));
        assert(b =~= b0.push(b.last()));
        lemma_lex_push(a0, b0, a.last(), b.last());
        let x = a.last();
        let y = b.last();
        assert(is_digit(x) && is_digit(y));
        assert(digits_value(a) == digits_value(a0) * 10 + digit_value(x));
        assert(digits_value(b) == digits_value(b0) * 10 + digit_value(y));
    }
}

/// Names that differ only in one number, written without leading zeros and
/// with no digit right before or after it, are ordered by that number: for
/// example `page2.jpg` comes before `page10.jpg`, however long the numbers.
pub proof fn names_differing_in_a_number_order_by_it(pre: Seq<char>, n: nat, m: nat, suf: Seq<char>)
    requires
        pre.len() == 0 || !is_digit(pre.last()),
        suf.len() == 0 || !is_digit(suf[0]),
    ensures
        natural_order(pre + decimal(n) + suf, pre + decimal(m) + suf) == compare_int(n as int, m as int),
{
    let dn = decimal(n);
    let dm = decimal(m);
    assert(pre + dn + suf =~= pre + (dn + suf));
    assert(pre + dm + suf =~= pre + (dm + suf));
    lemma_common_start(pre, dn + suf, dm + suf);
    lemma_decimal_reads_back(n);
    lemma_decimal_reads_back(m);
    lemma_digit_run_of_digits(dn, suf);
    lemma_digit_run_of_digits(dm, suf);
    let x = dn + suf;
    let y = dm + suf;
    assert(x[0] == dn[0] && y[0] == dm[0]);
    assert(is_digit(dn[0]) && is_digit(dm[0]));
    lemma_natural_unfold(x, y);
    assert(x.take(dn.len() as int) =~= dn);
    assert(y.take(dm.len() as int) =~= dm);
    lemma_number_text_of_decimal(n);
    lemma_number_text_of_decimal(m);
    if n <= m {
        lemma_decimal_len_monotone(n, m);
    } else {
        lemma_decimal_len_monotone(m, n);
    }
    if dn.len() == dm.len() {
        lemma_lex_digits(dn, dm);
        if n == m {
            assert(x.skip(dn.len() as int) =~= suf);
            assert(y.skip(dm.len() as int) =~= suf);
            lemma_natural_reflexive(suf);
        }
    }
}

/// The natural order ranks every name equal to itself.
pub proof fn natural_order_is_reflexive(x: Seq<char>)
    ensures
        natural_order(x, x) == 0,
{
    lemma_natural_reflexive(x);
}

/// Swapping the two names reverses the natural order.
pub proof fn natural_order_is_antisymmetric(x: Seq<char>, y: Seq<char>)
    ensures
        natural_order(x, y) == -natural_order(y, x),
{
    lemma_natural_antisymmetric(x, y);
}

/// The natural order is transitive: if `x` comes no later than `y` and `y`
/// no later than `z`, then `x` comes no later than `z`.
pub proof fn natural_order_is_transitive(x: Seq<char>, y: Seq<char>, z: Seq<char>)
    requires
        natural_order(x, y) <= 0,
        natural_order(y, z) <= 0,
    ensures
        natural_order(x, z) <= 0,
{
    lemma_natural_transitive(x, y, z);
}

/// Something that sorts by a name: the name as text, and a way to read it.
pub trait NaturallyNamed {
    /// The name it sorts by.
    spec fn sort_name(&self) -> Seq<char>;

    /// Reads the name it sorts by.
    fn name_str(&self) -> (r: &str)
        ensures
            r@ == self.sort_name(),
    ;
}

impl NaturallyNamed for String {
    open spec fn sort_name(&self) -> Seq<char> {
        self@
    }

    fn name_str(&self) -> (r: &str) {
        self.as_str()
    }
}

/// The names that a sequence of items sorts by.
pub open spec fn sort_names<T: NaturallyNamed>(v: Seq<T>) -> Seq<Seq<char>> {
    v.map_values(|t: T| t.sort_name())
}

/// Every name comes no later, in natural order, than every name after it.
pub open spec fn naturally_sorted(v: Seq<Seq<char>>) -> bool {
    forall|i: int, j: int| 0 <= i < j < v.len() ==> natural_order(#[trigger] v[i], #[trigger] v[j]) <= 0
}

/// The items whose names the natural order ranks equal to `key`.
pub open spec fn ranked_as<T: NaturallyNamed>(key: Seq<char>) -> spec_fn(T) -> bool {
    |t: T| natural_order(t.sort_name(), key) == 0
}

/// What comes after a name that ranks before `y` also ranks after it.
proof fn lemma_strictly_before(x: Seq<char>, y: Seq<char>, z: Seq<char>)
    requires
        natural_order(x, y) < 0,
        natural_order(y, z) <= 0,
    ensures
        natural_order(x, z) < 0,
{
    lemma_natural_transitive(x, y, z);
    if natural_order(x, z) == 0 {
        lemma_natural_antisymmetric(x, z);
        lemma_natural_transitive(y, z, x);
        lemma_natural_antisymmetric(x, y);
    }
}

/// Two names that rank equal to the same key rank equal to each other.
proof fn lemma_same_rank(x: Seq<char>, y: Seq<char>, key: Seq<char>)
    requires
        natural_order(x, key) == 0,
        natural_order(y, key) == 0,
    ensures
        natural_order(x, y) == 0,
{
    lemma_natural_antisymmetric(y, key);
    lemma_natural_antisymmetric(x, key);
    lemma_natural_transitive(x, key, y);
    lemma_natural_transitive(y, key, x);
    lemma_natural_antisymmetric(x, y);
}

/// Inserting an item into a sorted sequence just before the first item that
/// ranks after it keeps, for every rank, the items of that rank in the order
/// they would have with the new item appended.
proof fn lemma_insert_keeps_ranks<T: NaturallyNamed>(before: Seq<T>, k: int, x: T, key: Seq<char>)
    requires
        0 <= k <= before.len(),
        naturally_sorted(sort_names(before)),
        k < before.len() ==> natural_order(x.sort_name(), before[k].sort_name()) < 0,
    ensures
        before.insert(k, x).filter(ranked_as::<T>(key)) == before.push(x).filter(ranked_as::<T>(key)),
{
    let p = ranked_as::<T>(key);
    let a = before.subrange(0, k);
    let b = before.subrange(k, before.len() as int);
    assert(before.insert(k, x) =~= (a + seq![x]) + b);
    assert(before =~= a + b);
    Seq::filter_distributes_over_add(a + seq![x], b, p);
    Seq::filter_distributes_over_add(a, seq![x], p);
    Seq::filter_distributes_over_add(a, b, p);
    assert(seq![x] =~= Seq::<T>::empty().push(x));
    Seq::<T>::empty().lemma_filter_push(x, p);
    assert(Seq::<T>::empty().filter(p) =~= Seq::<T>::empty()) by {
        reveal(Seq::filter);
    }
    before.lemma_filter_push(x, p);
    if p(x) {
        assert forall|j: int| 0 <= j < b.len() implies !p(#[trigger] b[j]) by {
            assert(b[j] == before[k + j]);
            assert(sort_names(before)[k] == before[k].sort_name());
            assert(sort_names(before)[k + j] == before[k + j].sort_name());
            if j > 0 {
                assert(natural_order(sort_names(before)[k], sort_names(before)[k + j]) <= 0);
            } else {
                lemma_natural_reflexive(before[k].sort_name());
            }
            lemma_strictly_before(x.sort_name(), before[k].sort_name(), before[k + j].sort_name());
            if p(b[j]) {
                lemma_same_rank(x.sort_name(), b[j].sort_name(), key);
            }
        }
        assert(b.all(|y: T| !p(y)));
        b.lemma_all_neg_filter_empty(p);
        assert(b.filter(p) =~= Seq::<T>::empty());
        assert(a.filter(p) + b.filter(p) =~= a.filter(p));
        assert((a.filter(p) + seq![x]) + Seq::<T>::empty() =~= a.filter(p).push(x));
    } else {
        assert(a.filter(p) + Seq::<T>::empty() =~= a.filter(p));
    }
}

/// Inserting an item just before the first item that ranks after it, behind
/// every item that ranks no later, keeps a sequence sorted.
proof fn lemma_insert_keeps_sorted<T: NaturallyNamed>(before: Seq<T>, k: int, x: T)
    requires
        0 <= k <= before.len(),
        naturally_sorted(sort_names(before)),
        forall|j: int| 0 <= j < k ==> natural_order(x.sort_name(), #[trigger] before[j].sort_name()) >= 0,
        k < before.len() ==> natural_order(x.sort_name(), before[k].sort_name()) < 0,
    ensures
        naturally_sorted(sort_names(before.insert(k, x))),
{
    let ins = before.insert(k, x);
    let w = sort_names(ins);
    let v = sort_names(before);
    assert forall|a: int, b: int| 0 <= a < b < ins.len() implies natural_order(#[trigger] w[a], #[trigger] w[b]) <= 0 by {
        assert(w[a] == ins[a].sort_name());
        assert(w[b] == ins[b].sort_name());
        if b < k {
            assert(ins[a] == before[a] && ins[b] == before[b]);
            assert(v[a] == before[a].sort_name());
            assert(v[b] == before[b].sort_name());
        } else if b == k {
            assert(ins[a] == before[a]);
            lemma_natural_antisymmetric(x.sort_name(), before[a].sort_name());
        } else if a == k {
            assert(ins[b] == before[b - 1]);
            if b - 1 > k {
                assert(v[k] == before[k].sort_name());
                assert(v[b - 1] == before[b - 1].sort_name());
                lemma_natural_transitive(x.sort_name(), before[k].sort_name(), before[b - 1].sort_name());
            }
        } else if a < k {
            assert(ins[a] == before[a] && ins[b] == before[b - 1]);
            assert(v[a] == before[a].sort_name());
            assert(v[b - 1] == before[b - 1].sort_name());
        } else {
            assert(ins[a] == before[a - 1] && ins[b] == before[b - 1]);
            assert(v[a - 1] == before[a - 1].sort_name());
            assert(v[b - 1] == before[b - 1].sort_name());
        }
    }
}

/// Sorts items in natural order of their names. The sort is stable: items
/// whose names the natural order ranks equal keep the order they had.
pub fn sort_naturally<T: NaturallyNamed>(items: Vec<T>) -> (sorted: Vec<T>)
    ensures
        sorted@.to_multiset() == items@.to_multiset(),
        naturally_sorted(sort_names(sorted@)),
        forall|key: Seq<char>| #[trigger] sorted@.filter(ranked_as::<T>(key)) == items@.filter(ranked_as::<T>(key)),
{
    broadcast use vstd::seq_lib::group_to_multiset_ensures;

    let ghost orig = items@;
    let ghost mut done: int = 0;
    let mut rest = items;
    let mut sorted: Vec<T> = Vec::new();
    while rest.len() > 0
        invariant
            0 <= done <= orig.len(),
            rest@ == orig.subrange(done, orig.len() as int),
            sorted@.to_multiset() == orig.subrange(0, done).to_multiset(),
            naturally_sorted(sort_names(sorted@)),
            forall|key: Seq<char>| #[trigger] sorted@.filter(ranked_as::<T>(key)) == orig.subrange(0, done).filter(ranked_as::<T>(key)),
        decreases rest.len(),
    {
        let x = rest.remove(0);
        proof {
            assert(x == orig[done]);
            assert(rest@ =~= orig.subrange(done + 1, orig.len() as int));
        }
        let xc = chars_of(x.name_str());
        let mut k: usize = 0;
        while k < sorted.len()
            invariant
                k <= sorted@.len(),
                xc@ == x.sort_name(),
                forall|j: int| 0 <= j < k ==> natural_order(x.sort_name(), #[trigger] sorted@[j].sort_name()) >= 0,
            ensures
                k <= sorted@.len(),
                forall|j: int| 0 <= j < k ==> natural_order(x.sort_name(), #[trigger] sorted@[j].sort_name()) >= 0,
                k < sorted@.len() ==> natural_order(x.sort_name(), sorted@[k as int].sort_name()) < 0,
            decreases sorted.len() - k,
        {
            let yc = chars_of(sorted[k].name_str());
            if natural_order_of(&xc, &yc) < 0 {
                break;
            }
            k += 1;
        }
        let ghost before = sorted@;
        proof {
            lemma_insert_keeps_sorted(before, k as int, x);
            vstd::seq_lib::to_multiset_insert(before, k as int, x);
            assert(orig.subrange(0, done + 1) =~= orig.subrange(0, done).push(x));
            vstd::seq_lib::to_multiset_build(orig.subrange(0, done), x);
            assert forall|key: Seq<char>| #[trigger] before.insert(k as int, x).filter(ranked_as::<T>(key))
                == orig.subrange(0, done + 1).filter(ranked_as::<T>(key)) by {
                lemma_insert_keeps_ranks(before, k as int, x, key);
                before.lemma_filter_push(x, ranked_as::<T>(key));
                orig.subrange(0, done).lemma_filter_push(x, ranked_as::<T>(key));
            }
            done = done + 1;
        }
        sorted.insert(k, x);
    }
    assert(orig.subrange(0, done) =~= orig);
    sorted
}

/// The `Ordering` that stands for a three-way comparison result.
pub open spec fn ordering_of(x: int) -> Ordering {
    if x < 0 {
        Ordering::Less
    } else if x > 0 {
        Ordering::Greater
    } else {
        Ordering::Equal
    }
}

/// Compares two names in natural order.
pub fn natural_cmp(left: &str, right: &str) -> (o: Ordering)
    ensures
        o == ordering_of(natural_order(left@, right@)),
{
    let l = chars_of(left);
    let r = chars_of(right);
    let x = natural_order_of(&l, &r);
    if x < 0 {
        Ordering::Less
    } else if x > 0 {
        Ordering::Greater
    } else {
        Ordering::Equal
    }
}

} // verus!
