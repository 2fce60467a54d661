//! Exact comparison of decimal numbers `digits * 10^exponent`, with digits
//! of arbitrary length held least significant first.

use vstd::prelude::*;

use crate::digits::{
    all_digits, digits_value, lemma_pow10_monotone, lemma_pow_adds, lemma_pow_positive,
    lemma_value_at_least_top, lemma_value_below, lemma_value_high_zeros, lemma_value_shift, pow10,
    zeros,
};

verus! {

/// Outcome of a three-way comparison.
#[derive(Clone, Copy, Debug, PartialEq, Eq, Structural)]
pub enum Comparison {
    Less,
    Equal,
    Greater,
}

/// The two sides of `a * 10^ea` against `b * 10^eb`, both scaled by the same
/// power of ten so that they are naturals.
pub open spec fn scaled_pair(a: nat, ea: int, b: nat, eb: int) -> (nat, nat) {
    let m = if ea <= eb {
        ea
    } else {
        eb
    };
    (a * pow10((ea - m) as nat), b * pow10((eb - m) as nat))
}

/// `a * 10^ea < b * 10^eb`.
pub open spec fn dec_less(a: nat, ea: int, b: nat, eb: int) -> bool {
    scaled_pair(a, ea, b, eb).0 < scaled_pair(a, ea, b, eb).1
}

/// `a * 10^ea == b * 10^eb`.
pub open spec fn dec_equal(a: nat, ea: int, b: nat, eb: int) -> bool {
    scaled_pair(a, ea, b, eb).0 == scaled_pair(a, ea, b, eb).1
}

/// The result of comparing `a * 10^ea` with `b * 10^eb`.
pub open spec fn dec_compare(a: nat, ea: int, b: nat, eb: int) -> Comparison {
    if dec_less(a, ea, b, eb) {
        Comparison::Less
    } else if dec_equal(a, ea, b, eb) {
        Comparison::Equal
    } else {
        Comparison::Greater
    }
}

/// Digit-wise order from the top: equal above `j`, smaller at `j`.
proof fn lemma_lex_less(s: Seq<u8>, t: Seq<u8>, j: int)
    requires
        s.len() == t.len(),
        all_digits(s),
        all_digits(t),
        0 <= j < s.len(),
        s[j] < t[j],
        forall|i: int| j < i < s.len() ==> s[i] == t[i],
    ensures
        digits_value(s) < digits_value(t),
    decreases s.len(),
{
    let n = s.len();
    let p = pow10((n - 1) as nat);
    let vs = digits_value(s.drop_last());
    let vt = digits_value(t.drop_last());
    assert(all_digits(s.drop_last()));
    assert(all_digits(t.drop_last()));
    if j == n - 1 {
        lemma_value_below(s.drop_last());
        let a = s.last() as nat;
        let b = t.last() as nat;
        assert(vs + a * p < b * p + vt) by (nonlinear_arith)
            requires
                vs < p,
                a < b,
        ;
    } else {
        lemma_lex_less(s.drop_last(), t.drop_last(), j);
        assert(s.last() == t.last());
    }
}

proof fn lemma_scale_below(x: nat, k: nat, q: nat)
    requires
        x < pow10(k),
    ensures
        x * pow10(q) < pow10(k + q),
{
    lemma_pow_adds(10, k, q);
    lemma_pow_positive(10, q);
    let pk = pow10(k);
    let pq = pow10(q);
    assert(x * pq < pk * pq) by (nonlinear_arith)
        requires
            x < pk,
            pq >= 1,
    ;
}

proof fn lemma_scale_above(x: nat, k: nat, q: nat)
    requires
        x >= pow10(k),
    ensures
        x * pow10(q) >= pow10(k + q),
{
    lemma_pow_adds(10, k, q);
    let pk = pow10(k);
    let pq = pow10(q);
    assert(x * pq >= pk * pq) by (nonlinear_arith)
        requires
            x >= pk,
    ;
}

/// Removing high zero digits keeps the value.
proof fn lemma_value_strip_high_zeros(s: Seq<u8>, k: int)
    requires
        0 <= k <= s.len(),
        forall|i: int| k <= i < s.len() ==> s[i] == 0,
    ensures
        digits_value(s.take(k)) == digits_value(s),
{
    let z = (s.len() - k) as nat;
    assert(s == s.take(k) + zeros(z));
    lemma_value_high_zeros(s.take(k), z);
}

/// Compares `a * 10^ea` with `b * 10^eb` exactly, where `b` has a nonzero most
/// significant digit.
pub(crate) fn compare_decimal(a: &Vec<u8>, ea: i128, b: &Vec<u8>, eb: i128) -> (r: Comparison)
    requires
        all_digits(a@),
        all_digits(b@),
        b.len() > 0,
        b@.last() >= 1,
        -0x10_0000_0000_0000_0000_0000_0000 <= ea <= 0x10_0000_0000_0000_0000_0000_0000,
        -0x10_0000_0000_0000_0000_0000_0000 <= eb <= 0x10_0000_0000_0000_0000_0000_0000,
    ensures
        r == dec_compare(digits_value(a@), ea as int, digits_value(b@), eb as int),
{
    let ghost va = digits_value(a@);
    let ghost vb = digits_value(b@);
    let ghost m: int = if ea <= eb {
        ea as int
    } else {
        eb as int
    };
    let ghost sa = va * pow10((ea - m) as nat);
    let ghost sb = vb * pow10((eb - m) as nat);
    proof {
        lemma_value_below(b@);
        lemma_value_at_least_top(b@);
    }
    // Drop high zero digits of `a`.
    let mut k: usize = a.len();
    while k > 0 && a[k - 1] == 0
        invariant
            k <= a.len(),
            forall|i: int| k <= i < a.len() ==> a@[i] == 0,
        decreases k,
    {
        k = k - 1;
    }
    proof {
        lemma_value_strip_high_zeros(a@, k as int);
    }
    let ghost at = a@.take(k as int);
    assert(all_digits(at));
    if k == 0 {
        proof {
            assert(at == Seq::<u8>::empty());
            assert(va == 0);
            lemma_pow_positive(10, (eb - m) as nat);
            lemma_pow_positive(10, (b.len() - 1) as nat);
            assert(vb * pow10((eb - m) as nat) >= 1) by (nonlinear_arith)
                requires
                    vb >= 1,
                    pow10((eb - m) as nat) >= 1,
            ;
            assert(va * pow10((ea - m) as nat) == 0) by (nonlinear_arith)
                requires
                    va == 0,
            ;
            assert(dec_less(va, ea as int, vb, eb as int));
        }
        return Comparison::Less;
    }
    proof {
        lemma_value_below(at);
        assert(at.last() == a@[k - 1]);
        lemma_value_at_least_top(at);
    }
    let bl = b.len();
    let pa: i128 = k as i128 + ea;
    let pb: i128 = bl as i128 + eb;
    if pa < pb {
        proof {
            // sa < 10^(pa - m) <= 10^(pb - 1 - m) <= sb
            lemma_scale_below(va, k as nat, (ea - m) as nat);
            lemma_scale_above(vb, (bl - 1) as nat, (eb - m) as nat);
            lemma_pow10_monotone((k + ea - m) as nat, (bl - 1 + eb - m) as nat);
            assert(k as nat + (ea - m) as nat == (k + ea - m) as nat);
            assert((bl - 1) as nat + (eb - m) as nat == (bl - 1 + eb - m) as nat);
            assert(sa < sb);
            assert(dec_less(va, ea as int, vb, eb as int));
        }
        return Comparison::Less;
    }
    if pa > pb {
        proof {
            lemma_scale_below(vb, bl as nat, (eb - m) as nat);
            lemma_scale_above(va, (k - 1) as nat, (ea - m) as nat);
            lemma_pow10_monotone((bl + eb - m) as nat, (k - 1 + ea - m) as nat);
            assert(bl as nat + (eb - m) as nat == (bl + eb - m) as nat);
            assert((k - 1) as nat + (ea - m) as nat == (k - 1 + ea - m) as nat);
            assert(sb < sa);
            assert(!dec_less(va, ea as int, vb, eb as int));
            assert(!dec_equal(va, ea as int, vb, eb as int));
        }
        return Comparison::Greater;
    }
    // Same magnitude: compare digit by digit from the top, padding the
    // shorter side with low zeros.
    let l: usize = if k >= bl {
        k
    } else {
        bl
    };
    let ghost pad_a = zeros((l - k) as nat) + at;
    let ghost pad_b = zeros((l - bl) as nat) + b@;
    proof {
        lemma_value_shift(at, (l - k) as nat);
        lemma_value_shift(b@, (l - bl) as nat);
        if k <= bl {
            assert(m == eb);
            assert(ea - m == l - k);
            assert(eb - m == 0);
            assert(pow10(0) == 1);
        } else {
            assert(m == ea);
            assert(eb - m == l - bl);
            assert(ea - m == 0);
            assert(pow10(0) == 1);
        }
        assert(sa == digits_value(pad_a));
        assert(sb == digits_value(pad_b));
        assert(all_digits(pad_a));
        assert(all_digits(pad_b));
        assert(dec_less(va, ea as int, vb, eb as int) <==> digits_value(pad_a) < digits_value(
            pad_b,
        ));
        assert(dec_equal(va, ea as int, vb, eb as int) <==> digits_value(pad_a) == digits_value(
            pad_b,
        ));
    }
    let mut j: usize = 0;
    while j < l
        invariant
            j <= l,
            k <= a.len(),
            l >= k,
            l >= bl,
            bl == b.len(),
            pad_a == zeros((l - k) as nat) + at,
            pad_b == zeros((l - bl) as nat) + b@,
            at == a@.take(k as int),
            pad_a.len() == l,
            pad_b.len() == l,
            all_digits(pad_a),
            all_digits(pad_b),
            va == digits_value(a@),
            vb == digits_value(b@),
            dec_less(va, ea as int, vb, eb as int) <==> digits_value(pad_a) < digits_value(pad_b),
            dec_equal(va, ea as int, vb, eb as int) <==> digits_value(pad_a) == digits_value(pad_b),
            forall|i: int| l - j <= i < l ==> pad_a[i] == pad_b[i],
        decreases l - j,
    {
        let da: u8 = if j < k {
            a[k - 1 - j]
        } else {
            0
        };
        let db: u8 = if j < bl {
            b[bl - 1 - j]
        } else {
            0
        };
        assert(da == pad_a[l - 1 - j]);
        assert(db == pad_b[l - 1 - j]);
        if da < db {
            proof {
                lemma_lex_less(pad_a, pad_b, l - 1 - j);
            }
            return Comparison::Less;
        }
        if da > db {
            proof {
                lemma_lex_less(pad_b, pad_a, l - 1 - j);
            }
            return Comparison::Greater;
        }
        j = j + 1;
    }
    assert(pad_a == pad_b);
    Comparison::Equal
}

} // verus!
