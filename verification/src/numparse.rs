//! Parsers for the number syntaxes that the time formats use: unsigned
//! integers as `u64::from_str` reads them, and decimal numbers in the syntax
//! that `f64::from_str` accepts, held exactly (to 10^-18 s) as [`Seconds`].
use vstd::prelude::*;
use vstd::arithmetic::div_mod::{lemma_div_denominator, lemma_div_is_ordered_by_denominator, lemma_div_multiples_vanish_fancy, lemma_fundamental_div_mod_converse};
use vstd::arithmetic::mul::{lemma_mul_inequality, lemma_mul_is_associative};
use crate::text::{
    all_digits, digit_of, digit_val, digits_value, is_digit, is_digit_char, pow10,
    range_eq_ignore_ascii_case, seq_eq_ignore_ascii_case,
};
use crate::time::Seconds;

verus! {

/// Attoseconds per second.
pub const ATTO_PER_SECOND: i128 = 1_000_000_000_000_000_000i128;

/// Beyond this many decimal exponent units every number is either zero or out of range.
const EXPONENT_CAP: u128 = 100_000_000_000_000_000_000u128;

/// Index of the first character of `s` that is `a` or `b`; `s.len()` when there is none.
pub open spec fn index_of_either(s: Seq<char>, a: char, b: char) -> nat
    decreases s.len(),
{
    if s.len() == 0 {
        0
    } else if s[0] == a || s[0] == b {
        0
    } else {
        1 + index_of_either(s.drop_first(), a, b)
    }
}

/// A leading sign, if any, and what follows it.
pub open spec fn sign_split(s: Seq<char>) -> (bool, Seq<char>) {
    if s.len() > 0 && (s[0] == '+' || s[0] == '-') {
        (s[0] == '-', s.drop_first())
    } else {
        (false, s)
    }
}

/// The number that `u64::from_str` (and the other unsigned parsers) read from `s`,
/// when it is at most `max`.
pub open spec fn spec_parse_unsigned(s: Seq<char>, max: nat) -> Option<nat> {
    let d = if s.len() > 0 && s[0] == '+' {
        s.drop_first()
    } else {
        s
    };
    if d.len() > 0 && all_digits(d) && digits_value(d) <= max {
        Some(digits_value(d))
    } else {
        None
    }
}

/// The exponent of a decimal number written as `e`, an optional sign and digits.
pub open spec fn exponent_value(x: Seq<char>) -> Option<int> {
    let (neg, d) = sign_split(x);
    if d.len() > 0 && all_digits(d) {
        Some(
            if neg {
                -digits_value(d)
            } else {
                digits_value(d) as int
            },
        )
    } else {
        None
    }
}

/// Integer digits, fraction digits and exponent of a decimal number without sign:
/// `( Digit+ | Digit+ '.' Digit* | Digit* '.' Digit+ ) ( ('e'|'E') Sign? Digit+ )?`.
pub open spec fn decimal_parts(body: Seq<char>) -> Option<(Seq<char>, Seq<char>, int)> {
    let ei = index_of_either(body, 'e', 'E') as int;
    let m = body.take(ei);
    let ex: Option<int> = if ei == body.len() {
        Some(0int)
    } else {
        exponent_value(body.skip(ei + 1))
    };
    let di = index_of_either(m, '.', '.') as int;
    let ip = m.take(di);
    let fp = if di < m.len() {
        m.skip(di + 1)
    } else {
        Seq::<char>::empty()
    };
    if ex is Some && all_digits(ip) && all_digits(fp) && ip.len() + fp.len() > 0 {
        Some((ip, fp, ex->0))
    } else {
        None
    }
}

/// `n * 10^k`, truncated toward zero.
pub open spec fn scale_pow10(n: nat, k: int) -> nat {
    if k >= 0 {
        n * pow10(k as nat)
    } else {
        n / pow10((-k) as nat)
    }
}

/// A count of attoseconds with a sign; magnitudes past the `i128` range are infinite.
pub open spec fn seconds_of(neg: bool, mag: nat) -> Seconds {
    if mag > i128::MAX {
        Seconds::Infinite(neg)
    } else {
        Seconds::Atto(
            if neg {
                -(mag as int)
            } else {
                mag as int
            } as i128,
        )
    }
}

/// The value that `s` denotes in the syntax of `f64::from_str`
/// (`Sign? ( 'inf' | 'infinity' | 'nan' | Number )`, letters in any case),
/// truncated toward zero to whole attoseconds; `None` when `s` is not in that syntax.
pub open spec fn spec_parse_seconds(s: Seq<char>) -> Option<Seconds> {
    let (neg, body) = sign_split(s);
    if seq_eq_ignore_ascii_case(body, seq!['i', 'n', 'f']) || seq_eq_ignore_ascii_case(
        body,
        seq!['i', 'n', 'f', 'i', 'n', 'i', 't', 'y'],
    ) {
        Some(Seconds::Infinite(neg))
    } else if seq_eq_ignore_ascii_case(body, seq!['n', 'a', 'n']) {
        Some(Seconds::NotANumber)
    } else {
        match decimal_parts(body) {
            Some((ip, fp, e)) => Some(
                seconds_of(neg, scale_pow10(digits_value(ip + fp), e - fp.len() + 18)),
            ),
            None => None,
        }
    }
}

pub proof fn lemma_pow10_positive(n: nat)
    ensures
        pow10(n) >= 1,
    decreases n,
{
    if n > 0 {
        lemma_pow10_positive((n - 1) as nat);
    }
}

pub proof fn lemma_pow10_add(a: nat, b: nat)
    ensures
        pow10(a + b) == pow10(a) * pow10(b),
    decreases a,
{
    if a > 0 {
        let a1 = (a - 1) as nat;
        lemma_pow10_add(a1, b);
        assert(pow10(a1 + b) == pow10(a1) * pow10(b));
        assert((a + b) as nat == (a1 + b + 1) as nat);
        assert(pow10(a + b) == 10 * pow10(a1 + b));
        assert(pow10(a) == 10 * pow10(a1));
        lemma_mul_is_associative(10, pow10(a1) as int, pow10(b) as int);
    } else {
        assert(pow10(0) == 1);
        assert(a + b == b);
    }
}

pub proof fn lemma_pow10_monotone(a: nat, b: nat)
    requires
        a <= b,
    ensures
        pow10(a) <= pow10(b),
    decreases b,
{
    if a < b {
        lemma_pow10_monotone(a, (b - 1) as nat);
        lemma_pow10_positive((b - 1) as nat);
    }
}

pub proof fn lemma_digits_value_push(s: Seq<char>, c: char)
    ensures
        digits_value(s.push(c)) == digits_value(s) * 10 + digit_val(c),
{
    assert(s.push(c).drop_last() =~= s);
}

pub proof fn lemma_digits_value_take_next(s: Seq<char>, i: int)
    requires
        0 <= i < s.len(),
    ensures
        digits_value(s.take(i + 1)) == digits_value(s.take(i)) * 10 + digit_val(s[i]),
{
    assert(s.take(i + 1) =~= s.take(i).push(s[i]));
    lemma_digits_value_push(s.take(i), s[i]);
}

pub proof fn lemma_digits_value_bound(s: Seq<char>)
    requires
        all_digits(s),
    ensures
        digits_value(s) < pow10(s.len()),
    decreases s.len(),
{
    if s.len() > 0 {
        let t = s.drop_last();
        assert(all_digits(t)) by {
            assert forall|i: int| 0 <= i < t.len() implies is_digit(#[trigger] t[i]) by {
                assert(t[i] == s[i]);
            }
        }
        lemma_digits_value_bound(t);
        assert(is_digit(s[s.len() - 1]));
        assert(digit_val(s.last()) < 10);
        assert(pow10(s.len()) == 10 * pow10(t.len()));
    }
}

/// Dropping the last `s.len() - m` digits divides by the matching power of ten.
pub proof fn lemma_digits_value_take(s: Seq<char>, m: int)
    requires
        all_digits(s),
        0 <= m <= s.len(),
    ensures
        (digits_value(s) as int) / (pow10((s.len() - m) as nat) as int) == digits_value(s.take(m)),
    decreases s.len() - m,
{
    if m == s.len() {
        assert(s.take(m) =~= s);
        assert(pow10(0) == 1);
        vstd::arithmetic::div_mod::lemma_div_basics(digits_value(s) as int);
    } else {
        let t = s.drop_last();
        assert(all_digits(t)) by {
            assert forall|i: int| 0 <= i < t.len() implies is_digit(#[trigger] t[i]) by {
                assert(t[i] == s[i]);
            }
        }
        lemma_digits_value_take(t, m);
        assert(t.take(m) =~= s.take(m));
        let j = (t.len() - m) as nat;
        assert((s.len() - m) as nat == j + 1);
        lemma_pow10_positive(j);
        assert(is_digit(s[s.len() - 1]));
        let d = digit_val(s.last()) as int;
        let v = digits_value(t) as int;
        let x = digits_value(s) as int;
        let p = pow10(j) as int;
        assert(x == 10 * v + d);
        assert(0 <= d < 10);
        lemma_div_multiples_vanish_fancy(v, d, 10);
        assert(x / 10 == v);
        lemma_div_denominator(x, 10, p);
        assert((x / 10) / p == x / (10 * p));
        assert(pow10(j + 1) == 10 * pow10(j));
        assert(v / p == digits_value(t.take(m)));
    }
}

/// A prefix of a digit string never reads larger than the whole.
pub proof fn lemma_digits_prefix_le(s: Seq<char>, m: int)
    requires
        all_digits(s),
        0 <= m <= s.len(),
    ensures
        digits_value(s.take(m)) <= digits_value(s),
{
    lemma_digits_value_take(s, m);
    lemma_pow10_positive((s.len() - m) as nat);
    vstd::arithmetic::div_mod::lemma_div_basics(digits_value(s) as int);
    lemma_div_is_ordered_by_denominator(
        digits_value(s) as int,
        1,
        pow10((s.len() - m) as nat) as int,
    );
}

/// Past 38 decimal places nothing nonzero stays in the `i128` range.
proof fn lemma_scale_large_k(n: nat, k1: int, k2: int, neg: bool)
    requires
        k1 >= 39,
        k2 >= 39,
    ensures
        seconds_of(neg, scale_pow10(n, k1)) == seconds_of(neg, scale_pow10(n, k2)),
{
    if n > 0 {
        lemma_pow10_monotone(39, k1 as nat);
        lemma_pow10_monotone(39, k2 as nat);
        assert(pow10(39) == 1_000_000_000_000_000_000_000_000_000_000_000_000_000nat) by {
            reveal_with_fuel(pow10, 40);
        }
        lemma_mul_inequality(1, n as int, pow10(k1 as nat) as int);
        lemma_mul_inequality(1, n as int, pow10(k2 as nat) as int);
    }
}

/// With no digit kept before the point, the truncated value is zero.
proof fn lemma_scale_negative_keep(d: Seq<char>, k: int)
    requires
        all_digits(d),
        k + d.len() <= 0,
    ensures
        scale_pow10(digits_value(d), k) == 0,
{
    lemma_digits_value_bound(d);
    if k < 0 {
        lemma_pow10_monotone(d.len(), (-k) as nat);
        lemma_fundamental_div_mod_converse(digits_value(d) as int, pow10((-k) as nat) as int, 0, digits_value(d) as int);
        assert((digits_value(d) as int) / (pow10((-k) as nat) as int) == 0);
    } else {
        assert(d.len() == 0);
        assert(digits_value(d) == 0);
    }
}

pub(crate) fn index_of_either_exec(s: &Vec<char>, lo: usize, hi: usize, a: char, b: char) -> (r: usize)
    requires
        lo <= hi <= s.len(),
    ensures
        lo <= r <= hi,
        r - lo == index_of_either(s@.subrange(lo as int, hi as int), a, b),
{
    let mut i = lo;
    while i < hi && s[i] != a && s[i] != b
        invariant
            lo <= i <= hi <= s.len(),
            forall|j: int| lo <= j < i ==> s@[j] != a && s@[j] != b,
        decreases hi - i,
    {
        i += 1;
    }
    proof {
        lemma_index_of_either(s@.subrange(lo as int, hi as int), a, b, i - lo);
    }
    i
}

proof fn lemma_index_of_either(t: Seq<char>, a: char, b: char, i: int)
    requires
        0 <= i <= t.len(),
        forall|j: int| 0 <= j < i ==> #[trigger] t[j] != a && t[j] != b,
        i == t.len() || t[i] == a || t[i] == b,
    ensures
        index_of_either(t, a, b) == i,
    decreases i,
{
    if i > 0 {
        assert(t[0] != a && t[0] != b);
        let u = t.drop_first();
        assert forall|j: int| 0 <= j < i - 1 implies #[trigger] u[j] != a && u[j] != b by {
            assert(u[j] == t[j + 1]);
        }
        lemma_index_of_either(u, a, b, i - 1);
    }
}

fn all_digits_exec(s: &Vec<char>, lo: usize, hi: usize) -> (r: bool)
    requires
        lo <= hi <= s.len(),
    ensures
        r == all_digits(s@.subrange(lo as int, hi as int)),
{
    let mut i = lo;
    while i < hi
        invariant
            lo <= i <= hi <= s.len(),
            forall|j: int| lo <= j < i ==> is_digit(#[trigger] s@[j]),
        decreases hi - i,
    {
        if !is_digit_char(s[i]) {
            assert(!is_digit(s@.subrange(lo as int, hi as int)[i - lo]));
            return false;
        }
        i += 1;
    }
    assert forall|j: int| 0 <= j < hi - lo implies is_digit(
        #[trigger] s@.subrange(lo as int, hi as int)[j],
    ) by {
        assert(s@.subrange(lo as int, hi as int)[j] == s@[lo + j]);
    }
    true
}

/// Reads `s[lo..hi]` as an unsigned integer, as `u64::from_str` and its narrower
/// siblings do (an optional `+`, then decimal digits), giving `None` past `max`.
pub fn parse_unsigned(s: &Vec<char>, lo: usize, hi: usize, max: u64) -> (r: Option<u64>)
    requires
        lo <= hi <= s.len(),
        max >= 9,
    ensures
        match spec_parse_unsigned(s@.subrange(lo as int, hi as int), max as nat) {
            Some(v) => r == Some(v as u64),
            None => r is None,
        },
{
    let ghost t = s@.subrange(lo as int, hi as int);
    let start = if lo < hi && s[lo] == '+' {
        lo + 1
    } else {
        lo
    };
    let ghost d = s@.subrange(start as int, hi as int);
    assert(d =~= (if t.len() > 0 && t[0] == '+' {
        t.drop_first()
    } else {
        t
    }));
    if start == hi {
        return None;
    }
    if !all_digits_exec(s, start, hi) {
        return None;
    }
    let mut acc: u64 = 0;
    let mut i = start;
    while i < hi
        invariant
            lo <= start <= i <= hi <= s.len(),
            d == s@.subrange(start as int, hi as int),
            t == s@.subrange(lo as int, hi as int),
            d == (if t.len() > 0 && t[0] == '+' {
                t.drop_first()
            } else {
                t
            }),
            all_digits(d),
            max >= 9,
            acc == digits_value(d.take(i - start)),
            acc <= max,
        decreases hi - i,
    {
        assert(is_digit(d[i - start]));
        assert(d[i - start] == s@[i as int]);
        let dg = digit_of(s[i]) as u64;
        proof {
            lemma_digits_value_take_next(d, i - start);
        }
        if acc > (max - dg) / 10 {
            proof {
                assert(acc * 10 + dg > max);
                assert(digits_value(d.take(i - start + 1)) > max);
                lemma_digits_prefix_le(d, i - start + 1);

            }
            return None;
        }
        acc = acc * 10 + dg;
        i += 1;
    }
    assert(d.take(d.len() as int) =~= d);
    Some(acc)
}

/// `digits` read as a natural number, scaled by `10^(keep - digits.len())` and truncated
/// toward zero; `None` when that exceeds `i128::MAX`.
fn scaled_magnitude(digits: &Vec<char>, keep: i128) -> (r: Option<u128>)
    requires
        all_digits(digits@),
        digits.len() < EXPONENT_CAP,
    ensures
        ({
            let m = scale_pow10(digits_value(digits@), keep - digits.len());
            if m <= i128::MAX {
                r == Some(m as u128)
            } else {
                r is None
            }
        }),
{
    let ghost dd = digits@;
    let len = digits.len();
    let ghost n = digits_value(dd);
    if keep <= 0 {
        proof {
            lemma_scale_negative_keep(dd, keep - len);
        }
        return Some(0);
    }
    let m: usize = if keep < len as i128 {
        keep as usize
    } else {
        len
    };
    let mut acc: u128 = 0;
    let mut i: usize = 0;
    while i < m
        invariant
            m <= len == dd.len(),
            dd == digits@,
            n == digits_value(dd),
            all_digits(dd),
            keep > 0,
            m as int == (if keep < len { keep as int } else { len as int }),
            i <= m,
            acc == digits_value(dd.take(i as int)),
            acc <= i128::MAX,
        decreases m - i,
    {
        let dg = digit_of(digits[i]) as u128;
        proof {
            lemma_digits_value_take_next(dd, i as int);
        }
        if acc > (170141183460469231731687303715884105727u128 - dg) / 10 {
            proof {
                let k = keep - len;
                assert(digits_value(dd.take(i + 1)) > i128::MAX);
                if k >= 0 {
                    lemma_digits_prefix_le(dd, i + 1);
                    lemma_pow10_positive(k as nat);
                    lemma_mul_inequality(1, pow10(k as nat) as int, n as int);
                    assert(scale_pow10(n, k) >= n);
                } else {
                    lemma_digits_value_take(dd, m as int);
                    assert(dd.take(m as int).take(i + 1) =~= dd.take(i + 1));
                    lemma_digits_prefix_le(dd.take(m as int), i + 1);
                    assert((-k) as nat == (len - m) as nat);
                    assert(scale_pow10(n, k) == digits_value(dd.take(m as int)));
                }
            }
            return None;
        }
        acc = acc * 10 + dg;
        i += 1;
    }
    if keep <= len as i128 {
        proof {
            let k = keep - len;
            if k == 0 {
                assert(dd.take(len as int) =~= dd);
                assert(pow10(0) == 1);
                assert(scale_pow10(n, 0) == n * 1);
            } else {
                lemma_digits_value_take(dd, m as int);
                assert((-k) as nat == (len - m) as nat);
            }
        }
        return Some(acc);
    }
    assert(dd.take(len as int) =~= dd);
    let mut extra: i128 = keep - len as i128;
    proof {
        lemma_pow10_add(0, 0);
    }
    while extra > 0 && acc != 0
        invariant
            extra >= 0,
            keep > len,
            len == dd.len(),
            dd == digits@,
            n == digits_value(dd),
            acc <= i128::MAX,
            acc * pow10(extra as nat) == n * pow10((keep - len) as nat),
        decreases extra,
    {
        if acc > 170141183460469231731687303715884105727u128 / 10 {
            proof {
                lemma_pow10_monotone(1, extra as nat);
                assert(pow10(0) == 1);
                assert(pow10(1) == 10);
                lemma_mul_inequality(10, pow10(extra as nat) as int, acc as int);
                assert(scale_pow10(n, keep - len) == n * pow10((keep - len) as nat));
            }
            return None;
        }
        proof {
            assert(pow10(extra as nat) == 10 * pow10((extra - 1) as nat));
            lemma_mul_is_associative(acc as int, 10, pow10((extra - 1) as nat) as int);
        }
        acc = acc * 10;
        extra = extra - 1;
    }
    proof {
        if acc == 0 {
            assert(n * pow10((keep - len) as nat) == 0);
        } else {
            assert(extra == 0);
            assert(pow10(0) == 1);
        }
        assert(scale_pow10(n, keep - len) == n * pow10((keep - len) as nat));
        if acc == 0 {
            assert(scale_pow10(n, keep - len) == 0);
        } else {
            assert(acc * pow10(0) == acc * 1);
            assert(acc == scale_pow10(n, keep - len));
        }
        assert(scale_pow10(digits_value(digits@), keep - digits.len()) == acc);
    }
    Some(acc)
}

/// Reads an exponent (`Sign? Digit+`) from `s[lo..hi]`: its sign and its magnitude,
/// exact below `EXPONENT_CAP` and held somewhere in `[EXPONENT_CAP, 10 * EXPONENT_CAP)` above it.
fn parse_exponent(s: &Vec<char>, lo: usize, hi: usize) -> (r: Option<(bool, u128)>)
    requires
        lo <= hi <= s.len(),
    ensures
        ({
            let (neg, d) = sign_split(s@.subrange(lo as int, hi as int));
            if d.len() > 0 && all_digits(d) {
                r matches Some((n2, a)) && n2 == neg && ((digits_value(d) < EXPONENT_CAP && a
                    == digits_value(d)) || (digits_value(d) >= EXPONENT_CAP && EXPONENT_CAP <= a
                    < EXPONENT_CAP * 10))
            } else {
                r is None
            }
        }),
{
    let ghost x = s@.subrange(lo as int, hi as int);
    let neg = lo < hi && s[lo] == '-';
    let xs = if lo < hi && (s[lo] == '+' || s[lo] == '-') {
        lo + 1
    } else {
        lo
    };
    let ghost xd = s@.subrange(xs as int, hi as int);
    proof {
        if x.len() > 0 && (x[0] == '+' || x[0] == '-') {
            assert(x.drop_first() =~= xd);
        } else {
            assert(x =~= xd);
        }
        assert(sign_split(x) == (neg, xd));
    }
    if xs == hi || !all_digits_exec(s, xs, hi) {
        return None;
    }
    let mut e_acc: u128 = 0;
    let mut j = xs;
    while j < hi
        invariant
            xs <= j <= hi <= s.len(),
            xd == s@.subrange(xs as int, hi as int),
            all_digits(xd),
            (digits_value(xd.take(j - xs)) < EXPONENT_CAP && e_acc == digits_value(
                xd.take(j - xs),
            )) || (digits_value(xd.take(j - xs)) >= EXPONENT_CAP && EXPONENT_CAP <= e_acc
                < EXPONENT_CAP * 10),
        decreases hi - j,
    {
        assert(is_digit(xd[j - xs]));
        assert(xd[j - xs] == s@[j as int]);
        let dg = digit_of(s[j]) as u128;
        proof {
            lemma_digits_value_take_next(xd, j - xs);
        }
        if e_acc < EXPONENT_CAP {
            e_acc = e_acc * 10 + dg;
        }
        j += 1;
    }
    assert(xd.take(xd.len() as int) =~= xd);
    Some((neg, e_acc))
}

/// The characters of `s[a..b]` followed by those of `s[c..d]`.
fn join_ranges(s: &Vec<char>, a: usize, b: usize, c: usize, d: usize) -> (r: Vec<char>)
    requires
        a <= b <= s.len(),
        c <= d <= s.len(),
    ensures
        r@ == s@.subrange(a as int, b as int) + s@.subrange(c as int, d as int),
{
    let mut out: Vec<char> = Vec::new();
    let mut k = a;
    while k < b
        invariant
            a <= k <= b <= s.len(),
            out@ == s@.subrange(a as int, k as int),
        decreases b - k,
    {
        out.push(s[k]);
        k += 1;
    }
    let mut k2 = c;
    while k2 < d
        invariant
            c <= k2 <= d <= s.len(),
            a <= b <= s.len(),
            out@ == s@.subrange(a as int, b as int) + s@.subrange(c as int, k2 as int),
        decreases d - k2,
    {
        out.push(s[k2]);
        k2 += 1;
    }
    out
}

/// A digit string, the length of its integer part and a (possibly saturated)
/// exponent give the same seconds as the exact exponent would.
proof fn lemma_decimal_keep(
    dgs: Seq<char>,
    ip_len: int,
    fp_len: int,
    ea: int,
    exp_neg: bool,
    e_acc: int,
    neg: bool,
)
    requires
        ea >= 0,
        all_digits(dgs),
        dgs.len() == ip_len + fp_len,
        0 <= ip_len,
        0 <= fp_len,
        dgs.len() <= usize::MAX,
        (ea < EXPONENT_CAP && e_acc == ea) || (ea >= EXPONENT_CAP && EXPONENT_CAP <= e_acc
            < EXPONENT_CAP * 10),
    ensures
        ({
            let e = if exp_neg {
                -ea
            } else {
                ea
            };
            let e_exec = if exp_neg {
                -e_acc
            } else {
                e_acc
            };
            seconds_of(neg, scale_pow10(digits_value(dgs), e - fp_len + 18)) == seconds_of(
                neg,
                scale_pow10(digits_value(dgs), (ip_len + e_exec + 18) - dgs.len()),
            )
        }),
{
    let e_exec = if exp_neg {
        -e_acc
    } else {
        e_acc
    };
    let e = if exp_neg {
        -ea
    } else {
        ea
    };
    if ea >= EXPONENT_CAP {
        if exp_neg {
            lemma_scale_negative_keep(dgs, e - fp_len + 18);
            lemma_scale_negative_keep(dgs, (ip_len + e_exec + 18) - dgs.len());
        } else {
            lemma_scale_large_k(
                digits_value(dgs),
                e - fp_len + 18,
                (ip_len + e_exec + 18) - dgs.len(),
                neg,
            );
        }
    } else {
        assert(e_exec == e);
    }
}

/// Reads `s[lo..hi]` as an unsigned decimal number (`Number` in the syntax of
/// `f64::from_str`), giving seconds with sign `neg`.
#[verifier::rlimit(40)]
#[verifier::spinoff_prover]
fn parse_decimal_body(s: &Vec<char>, lo: usize, hi: usize, neg: bool) -> (r: Option<Seconds>)
    requires
        lo <= hi <= s.len(),
    ensures
        r == (match decimal_parts(s@.subrange(lo as int, hi as int)) {
            Some((ip, fp, e)) => Some(
                seconds_of(neg, scale_pow10(digits_value(ip + fp), e - fp.len() + 18)),
            ),
            None => None,
        }),
{
    let ghost body = s@.subrange(lo as int, hi as int);
    let ei = index_of_either_exec(s, lo, hi, 'e', 'E');
    let ghost m = body.take(ei - lo);
    assert(m =~= s@.subrange(lo as int, ei as int));
    let ghost ex: Option<int> = if ei == hi {
        Some(0int)
    } else {
        exponent_value(body.skip(ei - lo + 1))
    };
    let (exp_neg, e_acc) = if ei < hi {
        assert(body.skip(ei - lo + 1) =~= s@.subrange(ei + 1, hi as int));
        match parse_exponent(s, ei + 1, hi) {
            None => {
                return None;
            },
            Some(p) => p,
        }
    } else {
        (false, 0u128)
    };
    assert(ex is Some);
    let ghost ea: int = if exp_neg {
        -(ex->0)
    } else {
        ex->0
    };
    assert(ea >= 0 && ((ea < EXPONENT_CAP && e_acc == ea) || (ea >= EXPONENT_CAP && EXPONENT_CAP
        <= e_acc < EXPONENT_CAP * 10)));
    let di = index_of_either_exec(s, lo, ei, '.', '.');
    let fp_start = if di < ei {
        di + 1
    } else {
        ei
    };
    let ghost ip = m.take(di - lo);
    let ghost fp = if di < ei {
        m.skip(di - lo + 1)
    } else {
        Seq::<char>::empty()
    };
    assert(ip =~= s@.subrange(lo as int, di as int));
    assert(fp =~= s@.subrange(fp_start as int, ei as int));
    if !all_digits_exec(s, lo, di) || !all_digits_exec(s, fp_start, ei) {
        return None;
    }
    if di == lo && fp_start == ei {
        return None;
    }
    assert(decimal_parts(body) == Some((ip, fp, ex->0)));
    let digits = join_ranges(s, lo, di, fp_start, ei);
    assert(digits@ == ip + fp);
    assert(all_digits(digits@)) by {
        assert forall|q: int| 0 <= q < digits@.len() implies is_digit(#[trigger] digits@[q]) by {
            if q < ip.len() {
                assert(digits@[q] == ip[q]);
            } else {
                assert(digits@[q] == fp[q - ip.len()]);
            }
        }
    }
    let e_val: i128 = if exp_neg {
        -(e_acc as i128)
    } else {
        e_acc as i128
    };
    let keep = (di - lo) as i128 + e_val + 18;
    let mag = scaled_magnitude(&digits, keep);
    proof {
        lemma_decimal_keep(digits@, ip.len() as int, fp.len() as int, ea, exp_neg, e_acc as int, neg);
    }
    match mag {
        None => Some(Seconds::Infinite(neg)),
        Some(v) => {
            let a = v as i128;
            Some(Seconds::Atto(if neg { -a } else { a }))
        },
    }
}

/// Reads `s[lo..hi]` in the syntax of `f64::from_str`, keeping the value exactly to
/// the attosecond (truncating finer digits toward zero).
pub fn parse_seconds(s: &Vec<char>, lo: usize, hi: usize) -> (r: Option<Seconds>)
    requires
        lo <= hi <= s.len(),
    ensures
        r == spec_parse_seconds(s@.subrange(lo as int, hi as int)),
{
    let ghost t = s@.subrange(lo as int, hi as int);
    let neg = lo < hi && s[lo] == '-';
    let start = if lo < hi && (s[lo] == '+' || s[lo] == '-') {
        lo + 1
    } else {
        lo
    };
    let ghost body = s@.subrange(start as int, hi as int);
    assert(sign_split(t) == (neg, body)) by {
        if t.len() > 0 && (t[0] == '+' || t[0] == '-') {
            assert(t.drop_first() =~= body);
        } else {
            assert(t =~= body);
        }
    }
    proof {
        reveal_strlit("inf");
        reveal_strlit("infinity");
        reveal_strlit("nan");
    }
    if range_eq_ignore_ascii_case(s, start, hi, "inf") || range_eq_ignore_ascii_case(
        s,
        start,
        hi,
        "infinity",
    ) {
        return Some(Seconds::Infinite(neg));
    }
    if range_eq_ignore_ascii_case(s, start, hi, "nan") {
        return Some(Seconds::NotANumber);
    }
    parse_decimal_body(s, start, hi, neg)
}

} // verus!
