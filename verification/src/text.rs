//! Character-level helpers shared by the parsers and formatters: decimal
//! digits, ASCII case folding, Unicode whitespace trimming and decimal
//! rendering of integers.
use vstd::prelude::*;
use crate::numparse::index_of_either;
use crate::schema::string_views;

verus! {

/// The character of decimal digit `d`.
pub open spec fn digit_char(d: nat) -> char {
    if d == 0 {
        '0'
    } else if d == 1 {
        '1'
    } else if d == 2 {
        '2'
    } else if d == 3 {
        '3'
    } else if d == 4 {
        '4'
    } else if d == 5 {
        '5'
    } else if d == 6 {
        '6'
    } else if d == 7 {
        '7'
    } else if d == 8 {
        '8'
    } else {
        '9'
    }
}

pub open spec fn is_digit(c: char) -> bool {
    '0' <= c && c <= '9'
}

pub open spec fn digit_val(c: char) -> nat {
    (c as int - '0' as int) as nat
}

pub open spec fn all_digits(s: Seq<char>) -> bool {
    forall|i: int| 0 <= i < s.len() ==> is_digit(#[trigger] s[i])
}

/// The natural number written by the decimal digits `s` (most significant first).
pub open spec fn digits_value(s: Seq<char>) -> nat
    decreases s.len(),
{
    if s.len() == 0 {
        0
    } else {
        digits_value(s.drop_last()) * 10 + digit_val(s.last())
    }
}

pub open spec fn pow10(n: nat) -> nat
    decreases n,
{
    if n == 0 {
        1
    } else {
        10 * pow10((n - 1) as nat)
    }
}

/// The shortest decimal rendering of `n`, as `{}` prints an integer.
pub open spec fn dec_seq(n: nat) -> Seq<char>
    decreases n,
{
    if n < 10 {
        seq![digit_char(n)]
    } else {
        dec_seq(n / 10).push(digit_char(n % 10))
    }
}

/// `n` rendered with at least two digits, as `{:02}` prints it.
pub open spec fn pad2_seq(n: nat) -> Seq<char> {
    if n < 10 {
        seq!['0', digit_char(n)]
    } else {
        dec_seq(n)
    }
}

/// Characters for which `char::is_whitespace` holds (the Unicode `White_Space` property).
pub open spec fn is_unicode_whitespace(c: char) -> bool {
    ||| ('\u{9}' <= c && c <= '\u{d}')
    ||| c == ' '
    ||| c == '\u{85}'
    ||| c == '\u{a0}'
    ||| c == '\u{1680}'
    ||| ('\u{2000}' <= c && c <= '\u{200a}')
    ||| c == '\u{2028}'
    ||| c == '\u{2029}'
    ||| c == '\u{202f}'
    ||| c == '\u{205f}'
    ||| c == '\u{3000}'
}

pub open spec fn trim_start_seq(s: Seq<char>) -> Seq<char>
    decreases s.len(),
{
    if s.len() > 0 && is_unicode_whitespace(s[0]) {
        trim_start_seq(s.drop_first())
    } else {
        s
    }
}

pub open spec fn trim_end_seq(s: Seq<char>) -> Seq<char>
    decreases s.len(),
{
    if s.len() > 0 && is_unicode_whitespace(s.last()) {
        trim_end_seq(s.drop_last())
    } else {
        s
    }
}

/// What `str::trim` leaves of `s`.
pub open spec fn trim_seq(s: Seq<char>) -> Seq<char> {
    trim_end_seq(trim_start_seq(s))
}

/// ASCII letters compare without regard to case; every other character must match exactly.
pub open spec fn char_eq_ignore_ascii_case(a: char, b: char) -> bool {
    ||| a == b
    ||| ('a' <= b && b <= 'z' && a as int == b as int - 32)
    ||| ('A' <= b && b <= 'Z' && a as int == b as int + 32)
}

pub open spec fn seq_eq_ignore_ascii_case(a: Seq<char>, b: Seq<char>) -> bool {
    &&& a.len() == b.len()
    &&& forall|i: int| 0 <= i < a.len() ==> char_eq_ignore_ascii_case(#[trigger] a[i], b[i])
}

pub fn is_whitespace_char(c: char) -> (r: bool)
    ensures
        r == is_unicode_whitespace(c),
{
    ('\u{9}' <= c && c <= '\u{d}') || c == ' ' || c == '\u{85}' || c == '\u{a0}' || c
        == '\u{1680}' || ('\u{2000}' <= c && c <= '\u{200a}') || c == '\u{2028}' || c
        == '\u{2029}' || c == '\u{202f}' || c == '\u{205f}' || c == '\u{3000}'
}

pub fn is_digit_char(c: char) -> (r: bool)
    ensures
        r == is_digit(c),
{
    '0' <= c && c <= '9'
}

pub fn digit_of(c: char) -> (d: u8)
    requires
        is_digit(c),
    ensures
        d == digit_val(c),
        d < 10,
{
    let v = c as u32;
    (v - 48) as u8
}

pub fn chars_eq_ignore_ascii_case(a: char, b: char) -> (r: bool)
    ensures
        r == char_eq_ignore_ascii_case(a, b),
{
    let x = a as u32;
    let y = b as u32;
    x == y || ('a' <= b && b <= 'z' && x + 32 == y) || ('A' <= b && b <= 'Z' && x == y + 32)
}

/// The characters of `s`, in order.
pub fn str_chars(s: &str) -> (r: Vec<char>)
    ensures
        r@ == s@,
{
    let n = s.unicode_len();
    let mut out: Vec<char> = Vec::new();
    for i in 0..n
        invariant
            n == s@.len(),
            out@ == s@.subrange(0, i as int),
    {
        out.push(s.get_char(i));
    }
    out
}

/// Whether `s[lo..hi]` equals `word`, ASCII letters compared without regard to case.
pub fn range_eq_ignore_ascii_case(s: &Vec<char>, lo: usize, hi: usize, word: &str) -> (r: bool)
    requires
        lo <= hi <= s.len(),
    ensures
        r == seq_eq_ignore_ascii_case(s@.subrange(lo as int, hi as int), word@),
{
    let w = str_chars(word);
    if hi - lo != w.len() {
        return false;
    }
    let mut i: usize = 0;
    while i < w.len()
        invariant
            hi - lo == w.len(),
            lo <= hi <= s.len(),
            w@ == word@,
            i <= w.len(),
            forall|j: int|
                0 <= j < i ==> char_eq_ignore_ascii_case(
                    #[trigger] s@.subrange(lo as int, hi as int)[j],
                    w@[j],
                ),
        decreases w.len() - i,
    {
        if !chars_eq_ignore_ascii_case(s[lo + i], w[i]) {
            assert(!char_eq_ignore_ascii_case(s@.subrange(lo as int, hi as int)[i as int], w@[i as int]));
            return false;
        }
        i += 1;
    }
    true
}

proof fn lemma_trim_start_skip(s: Seq<char>, i: int)
    requires
        0 <= i <= s.len(),
        forall|j: int| 0 <= j < i ==> is_unicode_whitespace(#[trigger] s[j]),
    ensures
        trim_start_seq(s) == trim_start_seq(s.skip(i)),
    decreases i,
{
    if i > 0 {
        assert(is_unicode_whitespace(s[0]));
        assert(s.drop_first().skip(i - 1) =~= s.skip(i));
        lemma_trim_start_skip(s.drop_first(), i - 1);
    } else {
        assert(s.skip(0) =~= s);
    }
}

proof fn lemma_trim_end_take(s: Seq<char>, i: int)
    requires
        0 <= i <= s.len(),
        forall|j: int| i <= j < s.len() ==> is_unicode_whitespace(#[trigger] s[j]),
    ensures
        trim_end_seq(s) == trim_end_seq(s.take(i)),
    decreases s.len() - i,
{
    if i < s.len() {
        assert(s.drop_last().take(i) =~= s.take(i));
        lemma_trim_end_take(s.drop_last(), i);
    } else {
        assert(s.take(i) =~= s);
    }
}

/// The bounds `(lo, hi)` of what `str::trim` keeps of `s`.
pub fn trim_bounds(s: &Vec<char>) -> (r: (usize, usize))
    ensures
        r.0 <= r.1 <= s.len(),
        s@.subrange(r.0 as int, r.1 as int) == trim_seq(s@),
{
    let n = s.len();
    let mut lo: usize = 0;
    while lo < n && is_whitespace_char(s[lo])
        invariant
            n == s.len(),
            lo <= n,
            forall|j: int| 0 <= j < lo ==> is_unicode_whitespace(#[trigger] s@[j]),
        decreases n - lo,
    {
        lo += 1;
    }
    proof {
        lemma_trim_start_skip(s@, lo as int);
    }
    let ghost t = s@.skip(lo as int);
    let mut hi: usize = n;
    while hi > lo && is_whitespace_char(s[hi - 1])
        invariant
            n == s.len(),
            lo <= hi <= n,
            t == s@.skip(lo as int),
            forall|j: int| hi - lo <= j < t.len() ==> is_unicode_whitespace(#[trigger] t[j]),
        decreases hi - lo,
    {
        hi -= 1;
    }
    proof {
        if lo == n {
            assert(t.len() == 0);
        } else {
            assert(!is_unicode_whitespace(t[0]));
        }
        assert(trim_start_seq(t) == t);
        lemma_trim_end_take(t, (hi - lo) as int);
        let u = t.take((hi - lo) as int);
        if hi > lo {
            assert(u.last() == s@[hi - 1]);
        }
        assert(trim_end_seq(u) == u);
        assert(u =~= s@.subrange(lo as int, hi as int));
    }
    (lo, hi)
}

fn digit_str(d: u64) -> (s: &'static str)
    requires
        d < 10,
    ensures
        s@ == seq![digit_char(d as nat)],
{
    proof {
        reveal_strlit("0");
        reveal_strlit("1");
        reveal_strlit("2");
        reveal_strlit("3");
        reveal_strlit("4");
        reveal_strlit("5");
        reveal_strlit("6");
        reveal_strlit("7");
        reveal_strlit("8");
        reveal_strlit("9");
    }
    if d == 0 {
        "0"
    } else if d == 1 {
        "1"
    } else if d == 2 {
        "2"
    } else if d == 3 {
        "3"
    } else if d == 4 {
        "4"
    } else if d == 5 {
        "5"
    } else if d == 6 {
        "6"
    } else if d == 7 {
        "7"
    } else if d == 8 {
        "8"
    } else {
        "9"
    }
}

/// Appends the decimal rendering of `n`.
pub fn push_decimal(out: &mut String, n: u64)
    ensures
        final(out)@ == old(out)@ + dec_seq(n as nat),
    decreases n,
{
    if n >= 10 {
        push_decimal(out, n / 10);
        out.append(digit_str(n % 10));
        proof {
            assert(old(out)@ + dec_seq(n as nat) =~= old(out)@ + dec_seq((n / 10) as nat) + seq![
                digit_char((n % 10) as nat),
            ]);
        }
    } else {
        out.append(digit_str(n));
    }
}

/// Appends the decimal rendering of `n`, for numbers past the `u64` range too.
pub fn push_decimal_wide(out: &mut String, n: u128)
    ensures
        final(out)@ == old(out)@ + dec_seq(n as nat),
    decreases n,
{
    if n >= 10 {
        push_decimal_wide(out, n / 10);
        out.append(digit_str((n % 10) as u64));
        proof {
            assert(old(out)@ + dec_seq(n as nat) =~= old(out)@ + dec_seq((n / 10) as nat) + seq![
                digit_char((n % 10) as nat),
            ]);
        }
    } else {
        out.append(digit_str(n as u64));
    }
}

/// Appends `num / den` with two decimals (see `fixed2_seq`), for a wider range of
/// numerators and denominators than `push_fixed2`.
pub fn push_fixed2_wide(out: &mut String, num: u128, den: u128)
    requires
        den > 0,
        den <= 0x10_0000_0000_0000_0000_0000_0000,
        num <= 0x10_0000_0000_0000_0000_0000_0000,
    ensures
        final(out)@ == old(out)@ + fixed2_seq(num as nat, den as nat),
{
    let x = num * 100;
    let q = x / den;
    let r = x % den;
    assert(r < den);
    let h: u128 = if 2 * r > den {
        q + 1
    } else if 2 * r == den && q % 2 == 1 {
        q + 1
    } else {
        q
    };
    assert(q <= x) by (nonlinear_arith)
        requires
            q == x / den,
            den >= 1,
            x >= 0,
    ;
    assert(h == round_half_even((num * 100) as nat, den as nat));
    push_decimal_wide(out, h / 100);
    proof {
        reveal_strlit(".");
    }
    out.append(".");
    push_pad2(out, (h % 100) as u64);
    proof {
        assert(final(out)@ =~= old(out)@ + fixed2_seq(num as nat, den as nat));
    }
}

/// Appends `n` with at least two digits.
pub fn push_pad2(out: &mut String, n: u64)
    ensures
        final(out)@ == old(out)@ + pad2_seq(n as nat),
{
    if n < 10 {
        proof {
            reveal_strlit("0");
        }
        out.append("0");
        out.append(digit_str(n));
        proof {
            assert(old(out)@ + pad2_seq(n as nat) =~= old(out)@ + seq!['0'] + seq![
                digit_char(n as nat),
            ]);
        }
    } else {
        push_decimal(out, n);
    }
}

/// The decimal rendering of `n`.
pub fn u64_to_string(n: u64) -> (s: String)
    ensures
        s@ == dec_seq(n as nat),
{
    let mut s = String::new();
    push_decimal(&mut s, n);
    proof {
        assert(s@ =~= dec_seq(n as nat));
    }
    s
}

/// `x / d` rounded to the nearest integer, ties to the even neighbour.
pub open spec fn round_half_even(x: nat, d: nat) -> nat {
    let q = x / d;
    let r = x % d;
    if 2 * r > d {
        q + 1
    } else if 2 * r == d && q % 2 == 1 {
        q + 1
    } else {
        q
    }
}

/// `num / den` written with exactly two decimals, rounded half to even, as `{:.2}`
/// prints a number whose exact value is `num / den`.
pub open spec fn fixed2_seq(num: nat, den: nat) -> Seq<char> {
    let h = round_half_even(num * 100, den);
    dec_seq(h / 100) + seq!['.'] + pad2_seq(h % 100)
}

/// Appends `num / den` with two decimals (see `fixed2_seq`).
#[verifier::spinoff_prover]
#[verifier::rlimit(40)]
pub fn push_fixed2(out: &mut String, num: u128, den: u128)
    requires
        den > 0,
        num <= 0x1_0000_0000_0000_1000,
        den >= 2 || num <= u64::MAX,
        den <= u64::MAX,
    ensures
        final(out)@ == old(out)@ + fixed2_seq(num as nat, den as nat),
{
    let x = num * 100;
    let q = x / den;
    let r = x % den;
    let h: u128 = if 2 * r > den {
        q + 1
    } else if 2 * r == den && q % 2 == 1 {
        q + 1
    } else {
        q
    };
    assert(h == round_half_even((num * 100) as nat, den as nat));
    assert(h / 100 <= u64::MAX) by {
        if den == 1 {
            assert(q == x && r == 0) by (nonlinear_arith)
                requires
                    q == x / den,
                    r == x % den,
                    den == 1,
            ;
            assert(h == x);
        } else {
            assert(q * 2 <= x) by (nonlinear_arith)
                requires
                    q == x / den,
                    den >= 2,
                    x >= 0,
            ;
        }
    }
    push_decimal(out, (h / 100) as u64);
    proof {
        reveal_strlit(".");
    }
    out.append(".");
    push_pad2(out, (h % 100) as u64);
    proof {
        assert(final(out)@ =~= old(out)@ + fixed2_seq(num as nat, den as nat));
    }
}

/// Trimming twice leaves what trimming once leaves.
pub proof fn lemma_trim_idempotent(s: Seq<char>)
    ensures
        trim_seq(trim_seq(s)) == trim_seq(s),
{
    lemma_trim_start_fixed(s);
    lemma_trim_end_keeps_start(trim_start_seq(s));
    lemma_trim_end_fixed(trim_start_seq(s));
}

proof fn lemma_trim_start_fixed(s: Seq<char>)
    ensures
        trim_start_seq(s).len() == 0 || !is_unicode_whitespace(trim_start_seq(s)[0]),
    decreases s.len(),
{
    if s.len() > 0 && is_unicode_whitespace(s[0]) {
        lemma_trim_start_fixed(s.drop_first());
    }
}

/// Trimming the end of a text that starts with a non-space keeps that start.
proof fn lemma_trim_end_keeps_start(s: Seq<char>)
    requires
        s.len() == 0 || !is_unicode_whitespace(s[0]),
    ensures
        trim_end_seq(s).len() == 0 || trim_end_seq(s)[0] == s[0],
        trim_end_seq(s).len() == 0 || !is_unicode_whitespace(trim_end_seq(s)[0]),
        trim_end_seq(s).len() <= s.len(),
    decreases s.len(),
{
    if s.len() > 0 && is_unicode_whitespace(s.last()) {
        if s.len() > 1 {
            lemma_trim_end_keeps_start(s.drop_last());
        }
    }
}

proof fn lemma_trim_end_fixed(s: Seq<char>)
    ensures
        trim_end_seq(s).len() == 0 || !is_unicode_whitespace(trim_end_seq(s).last()),
        trim_end_seq(trim_end_seq(s)) == trim_end_seq(s),
    decreases s.len(),
{
    if s.len() > 0 && is_unicode_whitespace(s.last()) {
        lemma_trim_end_fixed(s.drop_last());
    }
}

/// `texts` joined with `sep` between them.
pub open spec fn join_texts(texts: Seq<Seq<char>>, sep: Seq<char>) -> Seq<char>
    decreases texts.len(),
{
    if texts.len() == 0 {
        Seq::empty()
    } else if texts.len() == 1 {
        texts[0]
    } else {
        join_texts(texts.drop_last(), sep) + sep + texts.last()
    }
}

/// `texts` joined with `sep` between them, as `join` puts them together.
pub fn join_strings(texts: &Vec<String>, sep: &str) -> (s: String)
    ensures
        s@ == join_texts(string_views(texts@), sep@),
{
    let mut s = String::new();
    let mut i: usize = 0;
    while i < texts.len()
        invariant
            i <= texts@.len(),
            s@ == join_texts(string_views(texts@.take(i as int)), sep@),
        decreases texts@.len() - i,
    {
        let ghost before = s@;
        if i > 0 {
            s.append(sep);
        }
        s.append(texts[i].as_str());
        proof {
            let t = string_views(texts@.take(i + 1));
            assert(t.drop_last() =~= string_views(texts@.take(i as int)));
            assert(t.last() == texts@[i as int]@);
            if i == 0 {
                assert(before =~= Seq::<char>::empty());
                assert(s@ =~= t[0]);
            } else {
                assert(s@ =~= before + sep@ + t.last());
            }
        }
        i += 1;
    }
    assert(texts@.take(texts@.len() as int) =~= texts@);
    s
}

/// The pieces of `s` between commas (`str::split(',')`).
pub open spec fn split_commas(s: Seq<char>) -> Seq<Seq<char>>
    decreases s.len(),
{
    let i = index_of_either(s, ',', ',') as int;
    if i >= s.len() {
        seq![s]
    } else {
        seq![s.take(i)] + split_commas(s.skip(i + 1))
    }
}

/// How `split_commas` takes the first piece off.
pub proof fn lemma_split_commas_step(rest: Seq<char>)
    ensures
        index_of_either(rest, ',', ',') <= rest.len(),
        ({
            let i = index_of_either(rest, ',', ',') as int;
            if i < rest.len() {
                split_commas(rest) == seq![rest.take(i)] + split_commas(rest.skip(i + 1))
            } else {
                split_commas(rest) == seq![rest]
            }
        }),
    decreases rest.len(),
{
    if rest.len() > 0 && rest[0] != ',' {
        lemma_split_commas_step(rest.drop_first());
    }
}

} // verus!
