//! What the time texts read back as: the clock text of a time (`m:ss.cc` or
//! `h:mm:ss.cc`), and a sample count written with its `S`.
use vstd::prelude::*;
use crate::numparse::{
    decimal_parts, index_of_either, lemma_digits_value_push, scale_pow10, sign_split, spec_parse_seconds,
    spec_parse_unsigned, ATTO_PER_SECOND,
};
use crate::text::{
    all_digits, char_eq_ignore_ascii_case, dec_seq, digit_char, digit_val, digits_value, is_digit,
    is_unicode_whitespace, pad2_seq, pow10, seq_eq_ignore_ascii_case, trim_end_seq, trim_seq,
    trim_start_seq,
};
use crate::time::{
    spec_clock_parts, spec_clock_text, spec_parse_clock, spec_parse_time, spec_time_text, Seconds, TimeSpec,
};

verus! {

proof fn lemma_digit_char(d: nat)
    requires
        d < 10,
    ensures
        is_digit(digit_char(d)),
        digit_val(digit_char(d)) == d,
{
}

proof fn lemma_single_digit(c: char)
    ensures
        digits_value(seq![c]) == digit_val(c),
{
    assert(seq![c] =~= Seq::<char>::empty().push(c));
    lemma_digits_value_push(Seq::<char>::empty(), c);
}

/// `dec_seq(n)` is a non-empty run of digits that denotes `n`.
pub(crate) proof fn lemma_dec_digits(n: nat)
    ensures
        dec_seq(n).len() >= 1,
        all_digits(dec_seq(n)),
        digits_value(dec_seq(n)) == n,
    decreases n,
{
    if n < 10 {
        lemma_digit_char(n);
        lemma_single_digit(digit_char(n));
    } else {
        lemma_dec_digits(n / 10);
        lemma_digit_char(n % 10);
        let s = dec_seq(n / 10);
        lemma_digits_value_push(s, digit_char(n % 10));
        assert forall|i: int| 0 <= i < s.push(digit_char(n % 10)).len() implies is_digit(
            #[trigger] s.push(digit_char(n % 10))[i],
        ) by {
            if i < s.len() {
                assert(is_digit(s[i]));
            }
        }
    }
}

/// `pad2_seq(n)` of a number below one hundred is two digits that denote it.
proof fn lemma_pad2_digits(n: nat)
    requires
        n < 100,
    ensures
        pad2_seq(n).len() == 2,
        all_digits(pad2_seq(n)),
        digits_value(pad2_seq(n)) == n,
{
    if n < 10 {
        lemma_digit_char(n);
        let s = seq!['0', digit_char(n)];
        assert(s =~= seq!['0'].push(digit_char(n)));
        lemma_single_digit('0');
        lemma_digits_value_push(seq!['0'], digit_char(n));
        assert(is_digit(s[0]) && is_digit(s[1]));
    } else {
        lemma_dec_digits(n / 10);
        lemma_dec_digits(n);
        assert(dec_seq(n / 10).len() == 1);
    }
}

/// A run of digits holds neither of two characters that are not digits.
proof fn lemma_index_in_digits(s: Seq<char>, a: char, b: char)
    requires
        all_digits(s),
        !is_digit(a),
        !is_digit(b),
    ensures
        index_of_either(s, a, b) == s.len(),
    decreases s.len(),
{
    if s.len() > 0 {
        assert(is_digit(s[0]));
        let t = s.drop_first();
        assert forall|i: int| 0 <= i < t.len() implies is_digit(#[trigger] t[i]) by {
            assert(t[i] == s[i + 1]);
        }
        lemma_index_in_digits(t, a, b);
    }
}

/// Digits, then `c`, then anything: the first `c` (or `d`) is right after the digits.
proof fn lemma_index_after_digits(s: Seq<char>, c: char, d: char, rest: Seq<char>)
    requires
        all_digits(s),
        !is_digit(c),
        !is_digit(d),
    ensures
        index_of_either(s.push(c) + rest, c, d) == s.len(),
    decreases s.len(),
{
    let t = s.push(c) + rest;
    if s.len() > 0 {
        assert(is_digit(s[0]));
        assert(t[0] == s[0]);
        let s1 = s.drop_first();
        assert forall|i: int| 0 <= i < s1.len() implies is_digit(#[trigger] s1[i]) by {
            assert(s1[i] == s[i + 1]);
        }
        assert(t.drop_first() =~= s1.push(c) + rest);
        lemma_index_after_digits(s1, c, d, rest);
    } else {
        assert(t[0] == c);
    }
}

proof fn lemma_pow10_values()
    ensures
        pow10(16) == 10_000_000_000_000_000,
        pow10(18) == 1_000_000_000_000_000_000,
{
    reveal_with_fuel(pow10, 19);
}

/// A text that starts with a digit is no infinity and no not-a-number.
proof fn lemma_not_special(s: Seq<char>)
    requires
        s.len() > 0,
        is_digit(s[0]),
    ensures
        !seq_eq_ignore_ascii_case(s, seq!['i', 'n', 'f']),
        !seq_eq_ignore_ascii_case(s, seq!['i', 'n', 'f', 'i', 'n', 'i', 't', 'y']),
        !seq_eq_ignore_ascii_case(s, seq!['n', 'a', 'n']),
        sign_split(s) == (false, s),
{
    assert(!char_eq_ignore_ascii_case(s[0], 'i'));
    assert(!char_eq_ignore_ascii_case(s[0], 'n'));
}

/// Whole seconds written in digits read as that many seconds.
proof fn lemma_parse_whole(w: Seq<char>)
    requires
        w.len() > 0,
        all_digits(w),
        digits_value(w) * ATTO_PER_SECOND <= i128::MAX,
    ensures
        spec_parse_seconds(w) == Some(Seconds::Atto((digits_value(w) * ATTO_PER_SECOND) as i128)),
{
    lemma_not_special(w);
    lemma_index_in_digits(w, 'e', 'E');
    lemma_index_in_digits(w, '.', '.');
    assert(w.take(w.len() as int) =~= w);
    assert(w + Seq::<char>::empty() =~= w);
    assert(decimal_parts(w) == Some((w, Seq::<char>::empty(), 0int)));
    lemma_pow10_values();
    assert(scale_pow10(digits_value(w), 18) == digits_value(w) * ATTO_PER_SECOND);
}

/// `w.f`, whole seconds and two digits of hundredths, reads as that many hundredths.
proof fn lemma_parse_hundredths(w: Seq<char>, f: Seq<char>)
    requires
        w.len() > 0,
        all_digits(w),
        f.len() == 2,
        all_digits(f),
        (digits_value(w) * 100 + digits_value(f)) * 10_000_000_000_000_000 <= i128::MAX,
    ensures
        spec_parse_seconds(w.push('.') + f) == Some(
            Seconds::Atto(((digits_value(w) * 100 + digits_value(f)) * 10_000_000_000_000_000) as i128),
        ),
{
    let body = w.push('.') + f;
    assert(body[0] == w[0]);
    lemma_not_special(body);
    assert forall|i: int| 0 <= i < body.len() implies #[trigger] body[i] != 'e' && body[i] != 'E' by {
        if i < w.len() {
            assert(is_digit(w[i]));
        } else if i > w.len() {
            assert(body[i] == f[i - w.len() - 1]);
            assert(is_digit(f[i - w.len() - 1]));
        }
    }
    lemma_index_none(body, 'e', 'E');
    lemma_index_after_digits(w, '.', '.', f);
    assert(body.take(body.len() as int) =~= body);
    assert(body.take(w.len() as int) =~= w);
    assert(body.skip(w.len() + 1int) =~= f);
    assert(decimal_parts(body) == Some((w, f, 0int)));
    let wf = w + f;
    assert(wf =~= w.push(f[0]).push(f[1]));
    lemma_digits_value_push(w, f[0]);
    lemma_digits_value_push(w.push(f[0]), f[1]);
    assert(f =~= seq![f[0]].push(f[1]));
    lemma_digits_value_push(seq![f[0]], f[1]);
    lemma_single_digit(f[0]);
    lemma_pow10_values();
}

/// A text without `a` and `b` has its first of them at its end.
proof fn lemma_index_none(s: Seq<char>, a: char, b: char)
    requires
        forall|i: int| 0 <= i < s.len() ==> #[trigger] s[i] != a && s[i] != b,
    ensures
        index_of_either(s, a, b) == s.len(),
    decreases s.len(),
{
    if s.len() > 0 {
        let t = s.drop_first();
        assert forall|i: int| 0 <= i < t.len() implies #[trigger] t[i] != a && t[i] != b by {
            assert(t[i] == s[i + 1]);
        }
        lemma_index_none(t, a, b);
    }
}

/// A text that starts and ends with a digit is its own trimming.
proof fn lemma_trim_digits_ends(s: Seq<char>)
    requires
        s.len() > 0,
        is_digit(s[0]),
        is_digit(s.last()),
    ensures
        trim_seq(s) == s,
{
    assert(!is_unicode_whitespace(s[0]));
    assert(!is_unicode_whitespace(s.last()));
    assert(trim_start_seq(s) == s);
    assert(trim_end_seq(s) == s);
}

/// `s.cc`: seconds and hundredths in two digits each, and what they read as.
proof fn lemma_seconds_part(ss: nat, cc: nat)
    requires
        ss < 60,
        cc < 100,
    ensures
        ({
            let sc = pad2_seq(ss).push('.') + pad2_seq(cc);
            &&& sc.len() == 5
            &&& is_digit(sc[0])
            &&& is_digit(sc.last())
            &&& index_of_either(sc, ':', ':') == sc.len()
            &&& spec_parse_seconds(sc) == Some(
                Seconds::Atto(((ss * 100 + cc) * 10_000_000_000_000_000) as i128),
            )
        }),
{
    lemma_pad2_digits(ss);
    lemma_pad2_digits(cc);
    let sc = pad2_seq(ss).push('.') + pad2_seq(cc);
    assert(sc.last() == pad2_seq(cc)[1]);
    assert(sc[0] == pad2_seq(ss)[0]);
    lemma_parse_hundredths(pad2_seq(ss), pad2_seq(cc));
    assert forall|i: int| 0 <= i < sc.len() implies #[trigger] sc[i] != ':' by {
        if i < 2 {
            assert(is_digit(pad2_seq(ss)[i]));
        } else if i > 2 {
            assert(sc[i] == pad2_seq(cc)[i - 3]);
            assert(is_digit(pad2_seq(cc)[i - 3]));
        }
    }
    lemma_index_none(sc, ':', ':');
}

/// `h:mm:ss.cc` reads as that many hours, minutes, seconds and hundredths.
#[verifier::rlimit(40)]
proof fn lemma_read_hms(h: nat, mm: nat, ss: nat, cc: nat)
    requires
        h > 0,
        mm < 60,
        ss < 60,
        cc < 100,
        (h * 3600 + mm * 60 + ss) * 1_000_000_000_000_000_000 + cc * 10_000_000_000_000_000 <= i128::MAX,
    ensures
        spec_parse_time(dec_seq(h).push(':') + (pad2_seq(mm).push(':') + (pad2_seq(ss).push('.') + pad2_seq(cc))))
            == Ok::<TimeSpec, Seq<char>>(
            TimeSpec::Seconds(
                Seconds::Atto(
                    ((h * 3600 + mm * 60 + ss) * 1_000_000_000_000_000_000 + cc * 10_000_000_000_000_000) as i128,
                ),
            ),
        ),
{
    let hs = dec_seq(h);
    let ms = pad2_seq(mm);
    let sc = pad2_seq(ss).push('.') + pad2_seq(cc);
    let rest = ms.push(':') + sc;
    let text = hs.push(':') + rest;
    lemma_dec_digits(h);
    lemma_pad2_digits(mm);
    lemma_seconds_part(ss, cc);
    assert(text[0] == hs[0]);
    assert(text.last() == sc.last());
    lemma_trim_digits_ends(text);
    lemma_index_after_digits(hs, ':', ':', rest);
    lemma_index_after_digits(ms, ':', ':', sc);
    assert(text.take(hs.len() as int) =~= hs);
    assert(text.skip(hs.len() + 1int) =~= rest);
    assert(rest.take(2) =~= ms);
    assert(rest.skip(3) =~= sc);
    assert(h * 1_000_000_000_000_000_000 <= i128::MAX) by (nonlinear_arith)
        requires
            (h * 3600 + mm * 60 + ss) * 1_000_000_000_000_000_000 + cc * 10_000_000_000_000_000 <= i128::MAX,
    ;
    assert(mm * 1_000_000_000_000_000_000 <= 60 * 1_000_000_000_000_000_000);
    lemma_parse_whole(hs);
    lemma_parse_whole(ms);
    assert(text.last() != 'S' && text.last() != 'm' && text.last() != 's');
    assert(spec_parse_clock(text) == Ok::<TimeSpec, Seq<char>>(
        TimeSpec::Seconds(
            Seconds::Atto(
                ((h * 3600 + mm * 60 + ss) * 1_000_000_000_000_000_000 + cc * 10_000_000_000_000_000) as i128,
            ),
        ),
    ));
}

/// `m:ss.cc` reads as that many minutes, seconds and hundredths.
#[verifier::rlimit(40)]
proof fn lemma_read_ms(m: nat, ss: nat, cc: nat)
    requires
        ss < 60,
        cc < 100,
        (m * 60 + ss) * 1_000_000_000_000_000_000 + cc * 10_000_000_000_000_000 <= i128::MAX,
    ensures
        spec_parse_time(dec_seq(m).push(':') + (pad2_seq(ss).push('.') + pad2_seq(cc))) == Ok::<
            TimeSpec,
            Seq<char>,
        >(
            TimeSpec::Seconds(
                Seconds::Atto(((m * 60 + ss) * 1_000_000_000_000_000_000 + cc * 10_000_000_000_000_000) as i128),
            ),
        ),
{
    let ms = dec_seq(m);
    let sc = pad2_seq(ss).push('.') + pad2_seq(cc);
    let text = ms.push(':') + sc;
    lemma_dec_digits(m);
    lemma_seconds_part(ss, cc);
    assert(text[0] == ms[0]);
    assert(text.last() == sc.last());
    lemma_trim_digits_ends(text);
    lemma_index_after_digits(ms, ':', ':', sc);
    assert(text.take(ms.len() as int) =~= ms);
    assert(text.skip(ms.len() + 1int) =~= sc);
    assert(m * 1_000_000_000_000_000_000 <= i128::MAX) by (nonlinear_arith)
        requires
            (m * 60 + ss) * 1_000_000_000_000_000_000 + cc * 10_000_000_000_000_000 <= i128::MAX,
    ;
    lemma_parse_whole(ms);
    assert(text.last() != 'S' && text.last() != 'm' && text.last() != 's');
    assert(spec_parse_clock(text) == Ok::<TimeSpec, Seq<char>>(
        TimeSpec::Seconds(
            Seconds::Atto(((m * 60 + ss) * 1_000_000_000_000_000_000 + cc * 10_000_000_000_000_000) as i128),
        ),
    ));
}

/// Whole seconds and hundredths of a non-negative time of whole hundredths.
proof fn lemma_clock_parts_exact(a: i128)
    requires
        0 <= a,
        a % 10_000_000_000_000_000 == 0,
        a / ATTO_PER_SECOND <= u64::MAX,
    ensures
        ({
            let (total, centis) = spec_clock_parts(Seconds::Atto(a));
            &&& centis < 100
            &&& a == total * 1_000_000_000_000_000_000 + centis * 10_000_000_000_000_000
        }),
{
    let ai: int = a as int;
    let total: nat = (ai / 1_000_000_000_000_000_000) as nat;
    let r: int = ai % 1_000_000_000_000_000_000;
    let centis: nat = (r / 10_000_000_000_000_000) as nat;
    assert(ai == total * 1_000_000_000_000_000_000 + r);
    assert(r == centis * 10_000_000_000_000_000);
    assert(centis < 100);
    assert(spec_clock_parts(Seconds::Atto(a)) == (total as u64, centis as u32));
}

/// The clock text, spelled out as hours (when there are any), minutes, seconds and
/// hundredths.
proof fn lemma_clock_text_shape(total: u64, centis: u32)
    ensures
        ({
            let hours = total as nat / 3600;
            let minutes = (total as nat % 3600) / 60;
            let seconds = total as nat % 60;
            let sc = pad2_seq(seconds).push('.') + pad2_seq(centis as nat);
            &&& hours > 0 ==> spec_clock_text(total, centis) == dec_seq(hours).push(':') + (pad2_seq(
                minutes,
            ).push(':') + sc)
            &&& hours == 0 ==> spec_clock_text(total, centis) == dec_seq(minutes).push(':') + sc
            &&& total == hours * 3600 + minutes * 60 + seconds
            &&& minutes < 60
            &&& seconds < 60
        }),
{
    let hours = total as nat / 3600;
    let minutes = (total as nat % 3600) / 60;
    let seconds = total as nat % 60;
    let sc = pad2_seq(seconds).push('.') + pad2_seq(centis as nat);
    if hours > 0 {
        assert(spec_clock_text(total, centis) =~= dec_seq(hours).push(':') + (pad2_seq(minutes).push(':') + sc));
    } else {
        assert(spec_clock_text(total, centis) =~= dec_seq(minutes).push(':') + sc);
    }
}

/// The clock text of a time of whole hundredths of a second, below `u64::MAX + 1`
/// seconds, reads back as that time.
pub proof fn law_clock_text_reads_back(a: i128)
    requires
        0 <= a,
        a % 10_000_000_000_000_000 == 0,
        a / ATTO_PER_SECOND <= u64::MAX,
    ensures
        spec_parse_time(spec_time_text(TimeSpec::Seconds(Seconds::Atto(a)))) == Ok::<TimeSpec, Seq<char>>(
            TimeSpec::Seconds(Seconds::Atto(a)),
        ),
{
    lemma_clock_parts_exact(a);
    let (total, centis) = spec_clock_parts(Seconds::Atto(a));
    lemma_clock_text_shape(total, centis);
    let hours = total as nat / 3600;
    let minutes = (total as nat % 3600) / 60;
    let seconds = total as nat % 60;
    assert(spec_time_text(TimeSpec::Seconds(Seconds::Atto(a))) == spec_clock_text(total, centis));
    if hours > 0 {
        lemma_read_hms(hours, minutes, seconds, centis as nat);
    } else {
        lemma_read_ms(minutes, seconds, centis as nat);
    }
}


/// A sample count written in decimal with the `S` suffix reads as that count.
pub proof fn law_sample_count_reads_back(n: u64)
    ensures
        spec_parse_time(dec_seq(n as nat).push('S')) == Ok::<TimeSpec, Seq<char>>(TimeSpec::Samples(n)),
{
    let d = dec_seq(n as nat);
    let t = d.push('S');
    lemma_dec_digits(n as nat);
    assert(t[0] == d[0]);
    assert(!is_unicode_whitespace(t[0]));
    assert(!is_unicode_whitespace(t.last()));
    assert(trim_start_seq(t) == t);
    assert(trim_end_seq(t) == t);
    assert(t.drop_last() =~= d);
    assert(is_digit(d[0]));
    assert(spec_parse_unsigned(d, u64::MAX as nat) == Some(n as nat));
}

} // verus!
