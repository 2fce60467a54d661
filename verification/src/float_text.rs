//! The decimal text accepted by `str::parse` for binary floating-point
//! numbers, and the exact rounding boundaries that decide whether such a text
//! denotes a finite, nonnegative, positive or bounded `f32`/`f64`.
//!
//! Text is parsed by the documented grammar (case-insensitive for `inf`,
//! `infinity`, `nan` and the exponent marker):
//!
//! ```text
//! Float  ::= Sign? ( 'inf' | 'infinity' | 'nan' | Number )
//! Number ::= ( Digit+ | Digit+ '.' Digit* | Digit* '.' Digit+ ) Exp?
//! Exp    ::= 'e' Sign? Digit+
//! Sign   ::= [+-]
//! ```
//!
//! The parse rounds to the nearest representable value, ties to even, so a
//! boundary such as "rounds to at most 1.0" is the exact midpoint between
//! 1.0 and the next float, `1 + 2^-24`, which itself still rounds to 1.0.

use vstd::prelude::*;

use crate::decimal::{compare_decimal, dec_compare, dec_equal, dec_less, scaled_pair, Comparison};
use crate::digits::{
    add_digits, all_digits, digits_value, lemma_pow10_monotone, lemma_pow_adds,
    lemma_pow_positive, lemma_value_at_least_top, lemma_value_below, mul_small, pow10,
    pow_digits, pow_nat, shift_up,
};
use crate::text::{ascii_lower, ascii_lower_char, ascii_lower_seq, chars_of};

verus! {

/// The meaning of a well-formed float text.
pub enum FloatText {
    /// `(-1)^negative * digits_value(digits) * 10^exponent`.
    Number { negative: bool, digits: Seq<u8>, exponent: int },
    Infinity { negative: bool },
    NotANumber,
}

pub open spec fn is_ascii_digit(c: char) -> bool {
    '0' <= c && c <= '9'
}

pub open spec fn all_ascii_digits(s: Seq<char>) -> bool {
    forall|i: int| 0 <= i < s.len() ==> is_ascii_digit(#[trigger] s[i])
}

pub open spec fn digit_of(c: char) -> u8 {
    ((c as u32) - ('0' as u32)) as u8
}

/// Decimal value of a run of ASCII digits, most significant first.
pub open spec fn ascii_number_value(s: Seq<char>) -> nat
    decreases s.len(),
{
    if s.len() == 0 {
        0
    } else {
        ascii_number_value(s.drop_last()) * 10 + digit_of(s.last()) as nat
    }
}

/// The digits of `m`, least significant first.
pub open spec fn le_digits(m: Seq<char>) -> Seq<u8> {
    Seq::new(m.len(), |i: int| digit_of(m[m.len() - 1 - i]))
}

/// First index at or after `i` holding `e` or `E` (or the length).
pub open spec fn first_exp_marker(s: Seq<char>, i: int) -> int
    decreases s.len() - i,
{
    if i >= s.len() {
        s.len() as int
    } else if s[i] == 'e' || s[i] == 'E' {
        i
    } else {
        first_exp_marker(s, i + 1)
    }
}

/// First index at or after `i` holding `.` (or the length).
pub open spec fn first_dot(s: Seq<char>, i: int) -> int
    decreases s.len() - i,
{
    if i >= s.len() {
        s.len() as int
    } else if s[i] == '.' {
        i
    } else {
        first_dot(s, i + 1)
    }
}

/// `Sign? Digit+` as an integer.
pub open spec fn parse_exponent(x: Seq<char>) -> Option<int> {
    if x.len() == 0 {
        None
    } else {
        let neg = x[0] == '-';
        let ds = if x[0] == '+' || x[0] == '-' {
            x.skip(1)
        } else {
            x
        };
        if ds.len() == 0 || !all_ascii_digits(ds) {
            None
        } else if neg {
            Some(-(ascii_number_value(ds) as int))
        } else {
            Some(ascii_number_value(ds) as int)
        }
    }
}

/// The integer and fraction digits of a `Number` (without exponent).
pub open spec fn mantissa_parts(body: Seq<char>) -> (Seq<char>, Seq<char>) {
    let mant = body.take(first_exp_marker(body, 0));
    let d = first_dot(mant, 0);
    let ip = mant.take(d);
    let fp = if d < mant.len() {
        mant.skip(d + 1)
    } else {
        Seq::empty()
    };
    (ip, fp)
}

/// `Number` as digits (least significant first) and a decimal exponent.
pub open spec fn parse_number(body: Seq<char>) -> Option<(Seq<u8>, int)> {
    let e = first_exp_marker(body, 0);
    let (ip, fp) = mantissa_parts(body);
    if !(all_ascii_digits(ip) && all_ascii_digits(fp) && ip.len() + fp.len() >= 1) {
        None
    } else {
        let ex = if e < body.len() {
            parse_exponent(body.skip(e + 1))
        } else {
            Some(0int)
        };
        match ex {
            None => None,
            Some(x) => Some((le_digits(ip + fp), x - fp.len())),
        }
    }
}

/// Text after an optional sign.
pub open spec fn unsigned_body(s: Seq<char>) -> Seq<char> {
    if s.len() > 0 && (s[0] == '+' || s[0] == '-') {
        s.skip(1)
    } else {
        s
    }
}

/// The float text grammar of `str::parse::<f32>` / `str::parse::<f64>`.
pub open spec fn parse_float_text(s: Seq<char>) -> Option<FloatText> {
    let negative = s.len() > 0 && s[0] == '-';
    let body = unsigned_body(s);
    let low = ascii_lower_seq(body);
    if low == "inf"@ || low == "infinity"@ {
        Some(FloatText::Infinity { negative })
    } else if low == "nan"@ {
        Some(FloatText::NotANumber)
    } else {
        match parse_number(body) {
            None => None,
            Some((digits, exponent)) => Some(FloatText::Number { negative, digits, exponent }),
        }
    }
}

/// `2^128 - 2^103`: the midpoint between `f32::MAX` and `2^128`; it and
/// everything above it round to infinity.
pub open spec fn f32_overflow_bound() -> nat {
    (pow_nat(2, 128) - pow_nat(2, 103)) as nat
}

/// `2^1024 - 2^970`: the same boundary for `f64`.
pub open spec fn f64_overflow_bound() -> nat {
    (pow_nat(2, 1024) - pow_nat(2, 970)) as nat
}

/// `2^-150 = 5^150 * 10^-150`: half the smallest `f32` subnormal; magnitudes up
/// to and including it round to zero.
pub open spec fn f32_zero_tie_digits() -> nat {
    pow_nat(5, 150)
}

/// `2^-1075 = 5^1075 * 10^-1075`: the same boundary for `f64`.
pub open spec fn f64_zero_tie_digits() -> nat {
    pow_nat(5, 1075)
}

/// A finite number text whose magnitude rounds to a finite `f32`.
pub open spec fn f32_finite(t: FloatText) -> bool {
    t matches FloatText::Number { digits, exponent, .. } && dec_less(
        digits_value(digits),
        exponent,
        f32_overflow_bound(),
        0,
    )
}

/// A finite number text whose magnitude rounds to a finite `f64`.
pub open spec fn f64_finite(t: FloatText) -> bool {
    t matches FloatText::Number { digits, exponent, .. } && dec_less(
        digits_value(digits),
        exponent,
        f64_overflow_bound(),
        0,
    )
}

/// The text's magnitude is at most `b * 10^eb`.
pub open spec fn magnitude_at_most(t: FloatText, b: nat, eb: int) -> bool {
    t matches FloatText::Number { digits, exponent, .. } && !dec_less(
        b,
        eb,
        digits_value(digits),
        exponent,
    )
}

/// The text's magnitude exceeds `b * 10^eb`.
pub open spec fn magnitude_above(t: FloatText, b: nat, eb: int) -> bool {
    t matches FloatText::Number { digits, exponent, .. } && dec_less(
        b,
        eb,
        digits_value(digits),
        exponent,
    )
}

pub open spec fn is_negative_number(t: FloatText) -> bool {
    t matches FloatText::Number { negative, .. } && negative
}

/// The rounded `f32` is `>= 0.0` (a negative text rounding to `-0.0` counts).
pub open spec fn f32_not_below_zero(t: FloatText) -> bool {
    !is_negative_number(t) || magnitude_at_most(t, f32_zero_tie_digits(), -150)
}

/// The rounded `f32` is `> 0.0`.
pub open spec fn f32_above_zero(t: FloatText) -> bool {
    !is_negative_number(t) && magnitude_above(t, f32_zero_tie_digits(), -150)
}

/// The rounded `f64` is `> 0.0`.
pub open spec fn f64_above_zero(t: FloatText) -> bool {
    !is_negative_number(t) && magnitude_above(t, f64_zero_tie_digits(), -1075)
}

/// The rounded `f32` is `<= bound`, where `b * 10^eb` is the largest value
/// that still rounds to `bound`.
pub open spec fn f32_at_most(t: FloatText, b: nat, eb: int) -> bool {
    is_negative_number(t) || magnitude_at_most(t, b, eb)
}

/// `1 + 2^-24`: the largest value that rounds to `1.0_f32`.
pub open spec fn one_tie() -> (nat, int) {
    (pow10(24) + pow_nat(5, 24), -24)
}

/// `3 + 2^-23`: the largest value that rounds to `3.0_f32`.
pub open spec fn three_tie() -> (nat, int) {
    (3 * pow10(23) + pow_nat(5, 23), -23)
}

/// `24 + 2^-20`: the largest value that rounds to `24.0_f32`.
pub open spec fn twenty_four_tie() -> (nat, int) {
    (24 * pow10(20) + pow_nat(5, 20), -20)
}

/// `90 + 2^-47`: the largest magnitude that rounds to `90.0_f64` (the tie
/// rounds to the even `90.0`).
pub open spec fn latitude_tie() -> (nat, int) {
    (90 * pow10(47) + pow_nat(5, 47), -47)
}

/// `180 + 2^-46`: the largest magnitude that rounds to `180.0_f64`.
pub open spec fn longitude_tie() -> (nat, int) {
    (180 * pow10(46) + pow_nat(5, 46), -46)
}

/// A parsed number in executable form. A decimal exponent too large to hold
/// exactly is recorded only by its sign (`exponent_huge`), which is all any
/// comparison against the boundaries above needs.
pub struct ParsedNumber {
    pub negative: bool,
    pub digits: Vec<u8>,
    pub exponent: i128,
    pub exponent_huge: i8,
}

/// Bound on exponents held exactly; beyond it only the sign is kept.
pub open spec fn huge_exponent() -> int {
    0x1_0000_0000_0000_0000_0000_0000
}

/// `p` describes the number `digits_value(digits) * 10^exponent`.
pub open spec fn parsed_matches(p: ParsedNumber, digits: Seq<u8>, exponent: int) -> bool {
    &&& p.digits@ == digits
    &&& all_digits(digits)
    &&& p.digits.len() == digits.len()
    &&& ((p.exponent_huge == 0 && p.exponent == exponent && -2 * huge_exponent() <= exponent
        <= 2 * huge_exponent()) || (p.exponent_huge == 1 && exponent >= huge_exponent() / 2) || (
    p.exponent_huge == -1 && exponent <= -huge_exponent()))
}

/// Executable classification of a float text.
pub enum FloatParse {
    Number(ParsedNumber),
    Infinity,
    NotANumber,
    Invalid,
}

/// `p` is the executable form of `t`.
pub open spec fn float_parse_matches(p: FloatParse, t: Option<FloatText>) -> bool {
    match t {
        None => p is Invalid,
        Some(FloatText::Infinity { .. }) => p is Infinity,
        Some(FloatText::NotANumber) => p is NotANumber,
        Some(FloatText::Number { negative, digits, exponent }) => p matches FloatParse::Number(n)
            && n.negative == negative && parsed_matches(n, digits, exponent),
    }
}

proof fn lemma_first_exp_marker(s: Seq<char>, i: int)
    requires
        0 <= i <= s.len(),
    ensures
        i <= first_exp_marker(s, i) <= s.len(),
        forall|k: int| i <= k < first_exp_marker(s, i) ==> #[trigger] s[k] != 'e' && s[k] != 'E',
        first_exp_marker(s, i) < s.len() ==> (s[first_exp_marker(s, i)] == 'e' || s[first_exp_marker(
            s,
            i,
        )] == 'E'),
    decreases s.len() - i,
{
    if i < s.len() && !(s[i] == 'e' || s[i] == 'E') {
        lemma_first_exp_marker(s, i + 1);
    }
}

proof fn lemma_first_dot(s: Seq<char>, i: int)
    requires
        0 <= i <= s.len(),
    ensures
        i <= first_dot(s, i) <= s.len(),
        forall|k: int| i <= k < first_dot(s, i) ==> #[trigger] s[k] != '.',
        first_dot(s, i) < s.len() ==> s[first_dot(s, i)] == '.',
    decreases s.len() - i,
{
    if i < s.len() && s[i] != '.' {
        lemma_first_dot(s, i + 1);
    }
}

/// `v[from..]` equals `lit` after ASCII lowercasing.
fn lower_tail_equals(v: &Vec<char>, from: usize, lit: &str) -> (b: bool)
    requires
        from <= v.len(),
    ensures
        b == (ascii_lower_seq(v@.skip(from as int)) == lit@),
{
    let n = lit.unicode_len();
    if v.len() - from != n {
        assert(ascii_lower_seq(v@.skip(from as int)).len() != lit@.len());
        return false;
    }
    let mut i: usize = 0;
    while i < n
        invariant
            i <= n,
            n == lit@.len(),
            from + n == v.len(),
            forall|k: int| 0 <= k < i ==> ascii_lower(v@[from + k]) == lit@[k],
        decreases n - i,
    {
        if ascii_lower_char(v[from + i]) != lit.get_char(i) {
            assert(ascii_lower_seq(v@.skip(from as int))[i as int] != lit@[i as int]);
            return false;
        }
        i = i + 1;
    }
    assert(ascii_lower_seq(v@.skip(from as int)) == lit@);
    true
}

/// `ascii_number_value` of `s` extended by one digit.
proof fn lemma_ascii_number_push(s: Seq<char>, c: char)
    ensures
        ascii_number_value(s.push(c)) == ascii_number_value(s) * 10 + digit_of(c) as nat,
{
    assert(s.push(c).drop_last() == s);
}

/// Parses `Sign? Digit+` from `v[from..]`, saturating the magnitude.
fn parse_exponent_exec(v: &Vec<char>, from: usize) -> (r: Option<(i128, i8)>)
    requires
        from <= v.len(),
    ensures
        parse_exponent(v@.skip(from as int)) is None <==> r is None,
        r matches Some((x, huge)) ==> {
            let e = parse_exponent(v@.skip(from as int))->0;
            (huge == 0 && x == e && -huge_exponent() <= e <= huge_exponent()) || (huge == 1 && e
                >= huge_exponent()) || (huge == -1 && e <= -huge_exponent())
        },
{
    let ghost x = v@.skip(from as int);
    if from >= v.len() {
        return None;
    }
    let neg = v[from] == '-';
    let start = if v[from] == '+' || v[from] == '-' {
        from + 1
    } else {
        from
    };
    let ghost ds = if x[0] == '+' || x[0] == '-' {
        x.skip(1)
    } else {
        x
    };
    assert(ds == v@.skip(start as int));
    if start >= v.len() {
        return None;
    }
    let cap: u128 = 0x1_0000_0000_0000_0000_0000_0000;
    let mut acc: u128 = 0;
    let mut i: usize = start;
    assert(v@.subrange(start as int, start as int) == Seq::<char>::empty());
    while i < v.len()
        invariant
            start <= i <= v.len(),
            all_ascii_digits(v@.subrange(start as int, i as int)),
            acc as int == if ascii_number_value(v@.subrange(start as int, i as int))
                < cap as int {
                ascii_number_value(v@.subrange(start as int, i as int)) as int
            } else {
                cap as int
            },
            cap == 0x1_0000_0000_0000_0000_0000_0000,
            ds == v@.skip(start as int),
            x == v@.skip(from as int),
            x.len() > 0,
            ds == (if x[0] == '+' || x[0] == '-' {
                x.skip(1)
            } else {
                x
            }),
            neg == (x[0] == '-'),
        decreases v.len() - i,
    {
        let c = v[i];
        if !('0' <= c && c <= '9') {
            assert(ds[i - start] == c);
            assert(!is_ascii_digit(ds[i - start]));
            assert(!all_ascii_digits(ds));
            assert(x.len() > 0);
            assert(parse_exponent(x) is None);
            return None;
        }
        let d = (c as u32 - '0' as u32) as u128;
        proof {
            lemma_ascii_number_push(v@.subrange(start as int, i as int), c);
            assert(v@.subrange(start as int, i as int).push(c) == v@.subrange(
                start as int,
                i + 1,
            ));
        }
        if acc >= cap {
            acc = cap;
        } else {
            let t = acc * 10 + d;
            acc = if t >= cap {
                cap
            } else {
                t
            };
        }
        i = i + 1;
    }
    assert(v@.subrange(start as int, v.len() as int) == ds);
    if acc >= cap {
        if neg {
            Some((0, -1))
        } else {
            Some((0, 1))
        }
    } else {
        let a = acc as i128;
        if neg {
            Some((-a, 0))
        } else {
            Some((a, 0))
        }
    }
}

/// Whether `v[a..b]` is all ASCII digits.
fn digits_in_range(v: &Vec<char>, a: usize, b: usize) -> (r: bool)
    requires
        a <= b <= v.len(),
    ensures
        r == all_ascii_digits(v@.subrange(a as int, b as int)),
{
    let mut k: usize = a;
    while k < b
        invariant
            a <= k <= b <= v.len(),
            forall|j: int| a <= j < k ==> is_ascii_digit(#[trigger] v@[j]),
        decreases b - k,
    {
        if !('0' <= v[k] && v[k] <= '9') {
            assert(v@.subrange(a as int, b as int)[k - a] == v@[k as int]);
            return false;
        }
        k = k + 1;
    }
    assert forall|i: int| 0 <= i < b - a implies is_ascii_digit(
        #[trigger] v@.subrange(a as int, b as int)[i],
    ) by {
        assert(v@.subrange(a as int, b as int)[i] == v@[a + i]);
    }
    true
}

/// Index of the first exponent marker in `v[from..]`, as an index of `v`.
fn find_exp_marker(v: &Vec<char>, from: usize) -> (e: usize)
    requires
        from <= v.len(),
    ensures
        from <= e <= v.len(),
        e - from == first_exp_marker(v@.skip(from as int), 0),
{
    let ghost body = v@.skip(from as int);
    let mut e: usize = from;
    while e < v.len() && v[e] != 'e' && v[e] != 'E'
        invariant
            from <= e <= v.len(),
            body == v@.skip(from as int),
            first_exp_marker(body, (e - from) as int) == first_exp_marker(body, 0),
        decreases v.len() - e,
    {
        e = e + 1;
    }
    e
}

/// Index of the first `.` in `v[from..e]`, as an index of `v`.
fn find_dot(v: &Vec<char>, from: usize, e: usize) -> (d: usize)
    requires
        from <= e <= v.len(),
    ensures
        from <= d <= e,
        d - from == first_dot(v@.subrange(from as int, e as int), 0),
{
    let ghost mant = v@.subrange(from as int, e as int);
    let mut d: usize = from;
    while d < e && v[d] != '.'
        invariant
            from <= d <= e <= v.len(),
            mant == v@.subrange(from as int, e as int),
            first_dot(mant, (d - from) as int) == first_dot(mant, 0),
        decreases e - d,
    {
        d = d + 1;
    }
    d
}

/// Digits of `v[a..b] + v[c..e]`, least significant first.
fn collect_digits(v: &Vec<char>, a: usize, b: usize, c: usize, e: usize) -> (r: Vec<u8>)
    requires
        a <= b <= c <= e <= v.len(),
        all_ascii_digits(v@.subrange(a as int, b as int)),
        all_ascii_digits(v@.subrange(c as int, e as int)),
    ensures
        r@ == le_digits(v@.subrange(a as int, b as int) + v@.subrange(c as int, e as int)),
        all_digits(r@),
{
    let ghost comb = v@.subrange(a as int, b as int) + v@.subrange(c as int, e as int);
    let il = b - a;
    let n = il + (e - c);
    let mut digits: Vec<u8> = Vec::new();
    let mut t: usize = 0;
    while t < n
        invariant
            a <= b <= c <= e <= v.len(),
            il == b - a,
            n == il + (e - c),
            comb == v@.subrange(a as int, b as int) + v@.subrange(c as int, e as int),
            comb.len() == n,
            all_ascii_digits(v@.subrange(a as int, b as int)),
            all_ascii_digits(v@.subrange(c as int, e as int)),
            t <= n,
            digits@ == Seq::new(t as nat, |i: int| digit_of(comb[n - 1 - i])),
            all_digits(digits@),
        decreases n - t,
    {
        let c_idx = n - 1 - t;
        let ch = if c_idx < il {
            v[a + c_idx]
        } else {
            v[c + (c_idx - il)]
        };
        assert(ch == comb[c_idx as int]);
        assert(is_ascii_digit(comb[c_idx as int]));
        let dg = (ch as u32 - '0' as u32) as u8;
        digits.push(dg);
        t = t + 1;
        assert(digits@ == Seq::new(t as nat, |i: int| digit_of(comb[n - 1 - i])));
    }
    assert(digits@ == le_digits(comb));
    digits
}

/// Parses a float text by the grammar of `parse_float_text`.
#[verifier::rlimit(60)]
pub fn parse_float(text: &str) -> (r: FloatParse)
    ensures
        float_parse_matches(r, parse_float_text(text@)),
{
    let v = chars_of(text);
    let negative = v.len() > 0 && v[0] == '-';
    let from: usize = if v.len() > 0 && (v[0] == '+' || v[0] == '-') {
        1
    } else {
        0
    };
    let ghost body = unsigned_body(text@);
    assert(body == v@.skip(from as int));
    if lower_tail_equals(&v, from, "inf") || lower_tail_equals(&v, from, "infinity") {
        return FloatParse::Infinity;
    }
    if lower_tail_equals(&v, from, "nan") {
        return FloatParse::NotANumber;
    }
    let e = find_exp_marker(&v, from);
    proof {
        lemma_first_exp_marker(body, 0);
    }
    let ghost mant = body.take((e - from) as int);
    assert(mant == v@.subrange(from as int, e as int));
    let d = find_dot(&v, from, e);
    proof {
        lemma_first_dot(mant, 0);
    }
    let ghost ip = mant.take((d - from) as int);
    let ghost fp = if d < e {
        mant.skip((d - from) + 1)
    } else {
        Seq::<char>::empty()
    };
    assert(mantissa_parts(body) == (ip, fp));
    assert(ip == v@.subrange(from as int, d as int));
    let frac_start: usize = if d < e {
        d + 1
    } else {
        e
    };
    assert(fp == v@.subrange(frac_start as int, e as int));
    if !digits_in_range(&v, from, d) || !digits_in_range(&v, frac_start, e) {
        return FloatParse::Invalid;
    }
    let frac_len = e - frac_start;
    if (d - from) + frac_len == 0 {
        return FloatParse::Invalid;
    }
    let (ex, huge): (i128, i8) = if e < v.len() {
        assert(body.skip((e - from) + 1) == v@.skip(e + 1));
        match parse_exponent_exec(&v, e + 1) {
            None => {
                return FloatParse::Invalid;
            },
            Some(p) => p,
        }
    } else {
        (0, 0)
    };
    let digits = collect_digits(&v, from, d, frac_start, e);
    let ghost spec_x: int = if e < v.len() {
        parse_exponent(body.skip((e - from) + 1))->0
    } else {
        0
    };
    assert(parse_number(body) == Some((digits@, spec_x - fp.len())));
    let exponent: i128 = if huge == 0 {
        ex - frac_len as i128
    } else {
        0
    };
    FloatParse::Number(ParsedNumber { negative, digits, exponent, exponent_huge: huge })
}

/// `v` without high zero digits.
fn normalize_digits(v: Vec<u8>) -> (r: Vec<u8>)
    requires
        all_digits(v@),
    ensures
        all_digits(r@),
        digits_value(r@) == digits_value(v@),
        r.len() <= v.len(),
        digits_value(r@) >= 1 ==> r.len() > 0 && r@.last() >= 1,
{
    let mut k: usize = v.len();
    while k > 0 && v[k - 1] == 0
        invariant
            k <= v.len(),
            forall|i: int| k <= i < v.len() ==> v@[i] == 0,
        decreases k,
    {
        k = k - 1;
    }
    let mut r: Vec<u8> = Vec::new();
    let mut i: usize = 0;
    while i < k
        invariant
            i <= k <= v.len(),
            r@ == v@.take(i as int),
        decreases k - i,
    {
        r.push(v[i]);
        i = i + 1;
        assert(r@ == v@.take(i as int));
    }
    proof {
        let z = (v.len() - k) as nat;
        assert(v@ == v@.take(k as int) + crate::digits::zeros(z));
        crate::digits::lemma_value_high_zeros(v@.take(k as int), z);
        if k == 0 {
            assert(r@ == Seq::<u8>::empty());
        }
    }
    r
}

/// Digits of `f32_overflow_bound()`.
fn f32_overflow_digits() -> (r: Vec<u8>)
    ensures
        all_digits(r@),
        digits_value(r@) == f32_overflow_bound(),
        r.len() > 0,
        r@.last() >= 1,
{
    let p = pow_digits(2, 103);
    let m = mul_small(&p, 33554431);
    proof {
        lemma_pow_adds(2, 103, 25);
        reveal_with_fuel(pow_nat, 26);
        assert(pow_nat(2, 25) == 33554432);
        let x = pow_nat(2, 103);
        assert(x * 33554431 == x * 33554432 - x) by (nonlinear_arith);
        lemma_pow_positive(2, 103);
        lemma_value_below(m@);
        crate::digits::lemma_pow_positive(2, 128);
        assert(x * 33554431 >= 1) by (nonlinear_arith)
            requires
                x >= 1,
        ;
    }
    normalize_digits(m)
}

/// Digits of `f64_overflow_bound()`.
fn f64_overflow_digits() -> (r: Vec<u8>)
    ensures
        all_digits(r@),
        digits_value(r@) == f64_overflow_bound(),
        r.len() > 0,
        r@.last() >= 1,
{
    let p = pow_digits(2, 970);
    let m1 = mul_small(&p, 134217727);
    let m2 = mul_small(&m1, 134217729);
    proof {
        lemma_pow_adds(2, 970, 54);
        lemma_pow_adds(2, 27, 27);
        reveal_with_fuel(pow_nat, 28);
        assert(pow_nat(2, 27) == 134217728);
        let x = pow_nat(2, 970);
        assert(pow_nat(2, 54) == 134217728 * 134217728);
        assert((x * 134217727) * 134217729 == x * (134217728 * 134217728) - x) by (
        nonlinear_arith);
        lemma_pow_positive(2, 970);
        assert((x * 134217727) * 134217729 >= 1) by (nonlinear_arith)
            requires
                x >= 1,
        ;
    }
    normalize_digits(m2)
}

/// Digits of `5^k`.
fn pow5_digits(k: usize) -> (r: Vec<u8>)
    ensures
        all_digits(r@),
        digits_value(r@) == pow_nat(5, k as nat),
        r.len() > 0,
        r@.last() >= 1,
{
    let p = pow_digits(5, k);
    proof {
        lemma_pow_positive(5, k as nat);
    }
    normalize_digits(p)
}

/// Digits of `lead * 10^k + 5^k`.
fn tie_digits(lead: &Vec<u8>, k: usize) -> (r: Vec<u8>)
    requires
        all_digits(lead@),
        digits_value(lead@) >= 1,
    ensures
        all_digits(r@),
        digits_value(r@) == digits_value(lead@) * pow10(k as nat) + pow_nat(5, k as nat),
        r.len() > 0,
        r@.last() >= 1,
{
    let hi = shift_up(lead, k);
    let lo = pow_digits(5, k);
    let sum = add_digits(&hi, &lo);
    proof {
        lemma_pow_positive(10, k as nat);
        let a = digits_value(lead@);
        let q = pow10(k as nat);
        assert(a * q >= 1) by (nonlinear_arith)
            requires
                a >= 1,
                q >= 1,
        ;
    }
    normalize_digits(sum)
}

/// Digits of a small number given least significant digit first.
fn small_digits(d0: u8, d1: u8) -> (r: Vec<u8>)
    requires
        d0 <= 9,
        d1 <= 9,
    ensures
        all_digits(r@),
        digits_value(r@) == d0 as nat + 10 * d1 as nat,
{
    let mut r: Vec<u8> = Vec::new();
    r.push(d0);
    r.push(d1);
    proof {
        let e = Seq::<u8>::empty();
        crate::digits::lemma_value_push(e, d0);
        crate::digits::lemma_value_push(e.push(d0), d1);
        assert(e.push(d0).push(d1) == r@);
        assert(digits_value(e) == 0);
        assert(pow10(0) == 1);
        assert(pow10(1) == 10 * pow10(0));
        let p0 = pow10(0);
        let p1 = pow10(1);
        assert(d0 as nat * p0 == d0 as nat) by (nonlinear_arith)
            requires
                p0 == 1,
        ;
        assert(d1 as nat * p1 == 10 * d1 as nat) by (nonlinear_arith)
            requires
                p1 == 10,
        ;
        assert(e.push(d0).len() == 1);
    }
    r
}

/// `a < 10^na`, `b >= 1` and `na + ea <= eb` give `a * 10^ea < b * 10^eb`.
proof fn lemma_less_by_magnitude(a: nat, na: nat, ea: int, b: nat, eb: int)
    requires
        a < pow10(na),
        b >= 1,
        na + ea <= eb,
    ensures
        dec_less(a, ea, b, eb),
{
    let q = (eb - ea) as nat;
    lemma_pow10_monotone(na, q);
    let pq = pow10(q);
    assert(b * pq >= pq) by (nonlinear_arith)
        requires
            b >= 1,
    ;
    assert(pow10(0) == 1);
    assert(a * pow10(0) == a);
    assert(scaled_pair(a, ea, b, eb) == (a * pow10(0), b * pq));
}

/// Zero is below any positive `b * 10^eb`.
proof fn lemma_zero_less(ea: int, b: nat, eb: int)
    requires
        b >= 1,
    ensures
        dec_less(0, ea, b, eb),
{
    let m = if ea <= eb {
        ea
    } else {
        eb
    };
    let q = (eb - m) as nat;
    lemma_pow_positive(10, q);
    let pq = pow10(q);
    assert(b * pq >= 1) by (nonlinear_arith)
        requires
            b >= 1,
            pq >= 1,
    ;
    assert(0 * pow10((ea - m) as nat) == 0);
}

/// Compares the magnitude of a parsed number with `b * 10^eb`.
fn magnitude_compare(
    n: &ParsedNumber,
    Ghost(digits): Ghost<Seq<u8>>,
    Ghost(exponent): Ghost<int>,
    b: &Vec<u8>,
    eb: i128,
) -> (r: Comparison)
    requires
        parsed_matches(*n, digits, exponent),
        all_digits(b@),
        b.len() > 0,
        b@.last() >= 1,
        -2000 <= eb <= 0,
    ensures
        r == dec_compare(digits_value(digits), exponent, digits_value(b@), eb as int),
{
    if n.exponent_huge == 0 {
        return compare_decimal(&n.digits, n.exponent, b, eb);
    }
    let ghost va = digits_value(digits);
    let ghost vb = digits_value(b@);
    proof {
        lemma_value_below(b@);
        lemma_value_at_least_top(b@);
        lemma_pow_positive(10, (b.len() - 1) as nat);
        lemma_value_below(digits);
    }
    let mut k: usize = n.digits.len();
    while k > 0 && n.digits[k - 1] == 0
        invariant
            k <= n.digits.len(),
            forall|i: int| k <= i < n.digits.len() ==> n.digits@[i] == 0,
        decreases k,
    {
        k = k - 1;
    }
    proof {
        let z = (n.digits.len() - k) as nat;
        assert(digits == digits.take(k as int) + crate::digits::zeros(z));
        crate::digits::lemma_value_high_zeros(digits.take(k as int), z);
    }
    if k == 0 {
        proof {
            assert(digits.take(0) == Seq::<u8>::empty());
            assert(va == 0);
            lemma_zero_less(exponent, vb, eb as int);
        }
        return Comparison::Less;
    }
    proof {
        let at = digits.take(k as int);
        assert(at.last() == n.digits@[k - 1]);
        lemma_value_at_least_top(at);
        lemma_pow_positive(10, (k - 1) as nat);
    }
    if n.exponent_huge > 0 {
        proof {
            lemma_less_by_magnitude(vb, b.len() as nat, eb as int, va, exponent);
        }
        Comparison::Greater
    } else {
        proof {
            lemma_less_by_magnitude(va, digits.len(), exponent, vb, eb as int);
        }
        Comparison::Less
    }
}

/// `b * 10^eb < a * 10^ea` exactly when the comparison of `a` with `b` says
/// greater.
proof fn lemma_compare_swap(a: nat, ea: int, b: nat, eb: int)
    ensures
        dec_less(b, eb, a, ea) <==> dec_compare(a, ea, b, eb) == Comparison::Greater,
{
    assert(scaled_pair(b, eb, a, ea).0 == scaled_pair(a, ea, b, eb).1);
    assert(scaled_pair(b, eb, a, ea).1 == scaled_pair(a, ea, b, eb).0);
}

/// A bound that a float-valued command-line option must meet after parsing.
#[derive(Clone, Copy, Debug, PartialEq, Eq, Structural)]
pub enum FloatRule {
    /// A finite `f32`.
    FiniteF32,
    /// A finite `f32` that is `>= 0`.
    NonnegativeF32,
    /// A finite `f32` that is `> 0`.
    PositiveF32,
    /// A finite `f64` that is `> 0`.
    PositiveF64,
    /// A finite `f32` in `0..=1`.
    NormalizedF32,
    /// A finite `f32` in `0..=3`.
    DensityF32,
    /// A finite `f32` in `0..=24`.
    HourF32,
    /// A finite `f64` in `-90..=90`.
    LatitudeF64,
    /// A finite `f64` in `-180..=180`.
    LongitudeF64,
}

/// The parsed, rounded value meets `rule`.
pub open spec fn float_rule_holds(t: FloatText, rule: FloatRule) -> bool {
    match rule {
        FloatRule::FiniteF32 => f32_finite(t),
        FloatRule::NonnegativeF32 => f32_finite(t) && f32_not_below_zero(t),
        FloatRule::PositiveF32 => f32_finite(t) && f32_above_zero(t),
        FloatRule::PositiveF64 => f64_finite(t) && f64_above_zero(t),
        FloatRule::NormalizedF32 => f32_finite(t) && f32_not_below_zero(t) && f32_at_most(
            t,
            one_tie().0,
            one_tie().1,
        ),
        FloatRule::DensityF32 => f32_finite(t) && f32_not_below_zero(t) && f32_at_most(
            t,
            three_tie().0,
            three_tie().1,
        ),
        FloatRule::HourF32 => f32_finite(t) && f32_not_below_zero(t) && f32_at_most(
            t,
            twenty_four_tie().0,
            twenty_four_tie().1,
        ),
        FloatRule::LatitudeF64 => f64_finite(t) && magnitude_at_most(
            t,
            latitude_tie().0,
            latitude_tie().1,
        ),
        FloatRule::LongitudeF64 => f64_finite(t) && magnitude_at_most(
            t,
            longitude_tie().0,
            longitude_tie().1,
        ),
    }
}

/// Tests `rule` on a parsed number.
fn check_number_rule(n: &ParsedNumber, Ghost(t): Ghost<FloatText>, rule: FloatRule) -> (b: bool)
    requires
        t matches FloatText::Number { negative, digits, exponent } && n.negative == negative
            && parsed_matches(*n, digits, exponent),
    ensures
        b == float_rule_holds(t, rule),
{
            let ghost digits = t->Number_digits;
            let ghost exponent = t->Number_exponent;
            let ghost va = digits_value(digits);
            // Finiteness.
            let finite = if rule == FloatRule::PositiveF64 || rule == FloatRule::LatitudeF64
                || rule == FloatRule::LongitudeF64 {
                let top = f64_overflow_digits();
                magnitude_compare(n, Ghost(digits), Ghost(exponent), &top, 0)
                    == Comparison::Less
            } else {
                let top = f32_overflow_digits();
                magnitude_compare(n, Ghost(digits), Ghost(exponent), &top, 0)
                    == Comparison::Less
            };
            if !finite {
                return false;
            }
            // Lower bound.
            let low_ok = if rule == FloatRule::FiniteF32 || rule == FloatRule::LatitudeF64
                || rule == FloatRule::LongitudeF64 {
                true
            } else if rule == FloatRule::PositiveF64 {
                let tie = pow5_digits(1075);
                let c = magnitude_compare(n, Ghost(digits), Ghost(exponent), &tie, -1075);
                proof {
                    lemma_compare_swap(va, exponent, digits_value(tie@), -1075);
                }
                !n.negative && c == Comparison::Greater
            } else {
                let tie = pow5_digits(150);
                let c = magnitude_compare(n, Ghost(digits), Ghost(exponent), &tie, -150);
                proof {
                    lemma_compare_swap(va, exponent, digits_value(tie@), -150);
                }
                if rule == FloatRule::PositiveF32 {
                    !n.negative && c == Comparison::Greater
                } else {
                    !n.negative || c != Comparison::Greater
                }
            };
            if !low_ok {
                return false;
            }
            // Upper bound.
            if rule == FloatRule::NormalizedF32 {
                let lead = small_digits(1, 0);
                let tie = tie_digits(&lead, 24);
                proof {
                    let p = pow10(24);
                    assert(1 * p == p);
                    assert(digits_value(tie@) == one_tie().0);
                }
                let c = magnitude_compare(n, Ghost(digits), Ghost(exponent), &tie, -24);
                proof {
                    lemma_compare_swap(va, exponent, digits_value(tie@), -24);
                }
                n.negative || c != Comparison::Greater
            } else if rule == FloatRule::DensityF32 {
                let lead = small_digits(3, 0);
                let tie = tie_digits(&lead, 23);
                proof {
                    let p = pow10(23);
                    assert(3 * p == p * 3) by (nonlinear_arith);
                    assert(digits_value(tie@) == three_tie().0);
                }
                let c = magnitude_compare(n, Ghost(digits), Ghost(exponent), &tie, -23);
                proof {
                    lemma_compare_swap(va, exponent, digits_value(tie@), -23);
                }
                n.negative || c != Comparison::Greater
            } else if rule == FloatRule::HourF32 {
                let lead = small_digits(4, 2);
                let tie = tie_digits(&lead, 20);
                proof {
                    let p = pow10(20);
                    assert(24 * p == p * 24) by (nonlinear_arith);
                    assert(digits_value(tie@) == twenty_four_tie().0);
                }
                let c = magnitude_compare(n, Ghost(digits), Ghost(exponent), &tie, -20);
                proof {
                    lemma_compare_swap(va, exponent, digits_value(tie@), -20);
                }
                n.negative || c != Comparison::Greater
            } else if rule == FloatRule::LatitudeF64 {
                let lead = small_digits(0, 9);
                let tie = tie_digits(&lead, 47);
                proof {
                    let p = pow10(47);
                    assert(90 * p == p * 90) by (nonlinear_arith);
                    assert(digits_value(tie@) == latitude_tie().0);
                }
                let c = magnitude_compare(n, Ghost(digits), Ghost(exponent), &tie, -47);
                proof {
                    lemma_compare_swap(va, exponent, digits_value(tie@), -47);
                }
                c != Comparison::Greater
            } else if rule == FloatRule::LongitudeF64 {
                let eighteen = small_digits(8, 1);
                let lead = shift_up(&eighteen, 1);
                proof {
                    assert(pow10(1) == 10 * pow10(0));
                    assert(pow10(0) == 1);
                    assert(digits_value(lead@) == 180);
                }
                let tie = tie_digits(&lead, 46);
                proof {
                    let p = pow10(46);
                    assert(180 * p == p * 180) by (nonlinear_arith);
                    assert(digits_value(tie@) == longitude_tie().0);
                }
                let c = magnitude_compare(n, Ghost(digits), Ghost(exponent), &tie, -46);
                proof {
                    lemma_compare_swap(va, exponent, digits_value(tie@), -46);
                }
                c != Comparison::Greater
            } else {
                true
            }
}

/// Parses `text` as a float and tests `rule`: `None` when the text is not a
/// float at all, otherwise whether the rounded value meets the rule.
pub fn check_float_rule(text: &str, rule: FloatRule) -> (r: Option<bool>)
    ensures
        parse_float_text(text@) is None <==> r is None,
        r is Some ==> r->0 == float_rule_holds(parse_float_text(text@)->0, rule),
{
    let p = parse_float(text);
    let ghost t = parse_float_text(text@);
    match p {
        FloatParse::Invalid => None,
        FloatParse::Infinity => Some(false),
        FloatParse::NotANumber => Some(false),
        FloatParse::Number(n) => Some(check_number_rule(&n, Ghost(t->0), rule)),
    }
}

} // verus!
