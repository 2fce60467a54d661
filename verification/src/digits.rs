//! Arbitrary-precision decimal naturals held as digit vectors, least
//! significant digit first, with the few operations needed to build exact
//! rounding boundaries (products of powers of two and five).

use vstd::prelude::*;

verus! {

/// `b` raised to the `k`th power.
pub open spec fn pow_nat(b: nat, k: nat) -> nat
    decreases k,
{
    if k == 0 {
        1
    } else {
        b * pow_nat(b, (k - 1) as nat)
    }
}

/// `10^k`.
pub open spec fn pow10(k: nat) -> nat {
    pow_nat(10, k)
}

/// Every entry is a decimal digit.
pub open spec fn all_digits(s: Seq<u8>) -> bool {
    forall|i: int| 0 <= i < s.len() ==> #[trigger] s[i] <= 9
}

/// The natural number whose decimal digits, least significant first, are `s`.
pub open spec fn digits_value(s: Seq<u8>) -> nat
    decreases s.len(),
{
    if s.len() == 0 {
        0
    } else {
        digits_value(s.drop_last()) + s.last() as nat * pow10((s.len() - 1) as nat)
    }
}

/// `k` zero digits.
pub open spec fn zeros(k: nat) -> Seq<u8> {
    Seq::new(k, |i: int| 0u8)
}

pub(crate) proof fn lemma_pow_positive(b: nat, k: nat)
    requires
        b >= 1,
    ensures
        pow_nat(b, k) >= 1,
    decreases k,
{
    if k > 0 {
        lemma_pow_positive(b, (k - 1) as nat);
        assert(b * pow_nat(b, (k - 1) as nat) >= 1) by (nonlinear_arith)
            requires
                b >= 1,
                pow_nat(b, (k - 1) as nat) >= 1,
        ;
    }
}

pub(crate) proof fn lemma_pow_adds(b: nat, i: nat, j: nat)
    ensures
        pow_nat(b, i + j) == pow_nat(b, i) * pow_nat(b, j),
    decreases i,
{
    if i > 0 {
        lemma_pow_adds(b, (i - 1) as nat, j);
        assert((i + j - 1) as nat == (i - 1) as nat + j);
        let p = pow_nat(b, (i - 1) as nat);
        let q = pow_nat(b, j);
        assert(pow_nat(b, i + j) == b * pow_nat(b, ((i - 1) as nat + j) as nat));
        assert(pow_nat(b, i) == b * p);
        assert(b * (p * q) == (b * p) * q) by (nonlinear_arith);
    } else {
        assert(pow_nat(b, 0) == 1);
        assert(i + j == j);
    }
}

pub(crate) proof fn lemma_pow10_strictly_grows(i: nat, j: nat)
    requires
        i < j,
    ensures
        pow10(i) < pow10(j),
    decreases j,
{
    lemma_pow_positive(10, (j - 1) as nat);
    if i < j - 1 {
        lemma_pow10_strictly_grows(i, (j - 1) as nat);
    }
    assert(pow10(j) == 10 * pow10((j - 1) as nat));
}

pub(crate) proof fn lemma_pow10_monotone(i: nat, j: nat)
    requires
        i <= j,
    ensures
        pow10(i) <= pow10(j),
{
    if i < j {
        lemma_pow10_strictly_grows(i, j);
    }
}

/// The value is below `10^len`.
pub(crate) proof fn lemma_value_below(s: Seq<u8>)
    requires
        all_digits(s),
    ensures
        digits_value(s) < pow10(s.len()),
    decreases s.len(),
{
    if s.len() > 0 {
        let d = s.drop_last();
        assert(all_digits(d));
        lemma_value_below(d);
        let p = pow10((s.len() - 1) as nat);
        let v = digits_value(d);
        let l = s.last() as nat;
        assert(l <= 9);
        assert(v + l * p < 10 * p) by (nonlinear_arith)
            requires
                v < p,
                l <= 9,
        ;
        assert(pow10(s.len()) == 10 * p);
    }
}

/// A nonzero most significant digit puts the value at or above `10^(len-1)`.
pub(crate) proof fn lemma_value_at_least_top(s: Seq<u8>)
    requires
        s.len() > 0,
        s.last() >= 1,
    ensures
        digits_value(s) >= pow10((s.len() - 1) as nat),
{
    let p = pow10((s.len() - 1) as nat);
    let l = s.last() as nat;
    assert(l * p >= p) by (nonlinear_arith)
        requires
            l >= 1,
    ;
}

/// Value of a prefix extended by one more digit.
pub(crate) proof fn lemma_value_take_step(s: Seq<u8>, i: int)
    requires
        0 <= i < s.len(),
    ensures
        digits_value(s.take(i + 1)) == digits_value(s.take(i)) + s[i] as nat * pow10(i as nat),
{
    assert(s.take(i + 1).drop_last() == s.take(i));
}

/// Value of `s` extended by one more (most significant) digit.
pub(crate) proof fn lemma_value_push(s: Seq<u8>, d: u8)
    ensures
        digits_value(s.push(d)) == digits_value(s) + d as nat * pow10(s.len()),
{
    assert(s.push(d).drop_last() == s);
}

/// Zero digits are worth nothing.
pub(crate) proof fn lemma_value_zeros(k: nat)
    ensures
        digits_value(zeros(k)) == 0,
    decreases k,
{
    if k > 0 {
        assert(zeros(k).drop_last() == zeros((k - 1) as nat));
        lemma_value_zeros((k - 1) as nat);
    }
}

/// Appending zero digits at the top leaves the value unchanged.
pub(crate) proof fn lemma_value_high_zeros(s: Seq<u8>, k: nat)
    ensures
        digits_value(s + zeros(k)) == digits_value(s),
    decreases k,
{
    if k > 0 {
        assert((s + zeros(k)).drop_last() == s + zeros((k - 1) as nat));
        assert((s + zeros(k)).last() == 0);
        lemma_value_high_zeros(s, (k - 1) as nat);
    } else {
        assert(s + zeros(0) == s);
    }
}

/// Inserting `k` zero digits at the bottom multiplies by `10^k`.
pub(crate) proof fn lemma_value_shift(s: Seq<u8>, k: nat)
    ensures
        digits_value(zeros(k) + s) == digits_value(s) * pow10(k),
    decreases s.len(),
{
    if s.len() == 0 {
        assert(zeros(k) + s == zeros(k));
        lemma_value_zeros(k);
        assert(digits_value(s) == 0);
        assert(0 * pow10(k) == 0);
    } else {
        let d = s.drop_last();
        assert((zeros(k) + s).drop_last() == zeros(k) + d);
        assert((zeros(k) + s).last() == s.last());
        lemma_value_shift(d, k);
        lemma_pow_adds(10, (s.len() - 1) as nat, k);
        assert(((zeros(k) + s).len() - 1) as nat == (s.len() - 1) as nat + k);
        let v = digits_value(d);
        let l = s.last() as nat;
        let p = pow10((s.len() - 1) as nat);
        let q = pow10(k);
        let n1 = ((zeros(k) + s).len() - 1) as nat;
        assert(n1 == (s.len() - 1) as nat + k);
        assert(pow10(n1) == p * q);
        assert(digits_value(zeros(k) + s) == digits_value(zeros(k) + d) + l * pow10(n1));
        assert(digits_value(s) == v + l * p);
        assert(v * q + l * (p * q) == (v + l * p) * q) by (nonlinear_arith);
    }
}

/// Little-endian digits of `s * m`.
pub(crate) fn mul_small(s: &Vec<u8>, m: u32) -> (r: Vec<u8>)
    requires
        all_digits(s@),
    ensures
        all_digits(r@),
        digits_value(r@) == digits_value(s@) * m,
{
    let mut r: Vec<u8> = Vec::new();
    let mut carry: u64 = 0;
    let mut i: usize = 0;
    assert(s@.take(0) == Seq::<u8>::empty());
    assert(digits_value(r@) == 0);
    while i < s.len()
        invariant
            i <= s.len(),
            r.len() == i,
            all_digits(s@),
            all_digits(r@),
            carry <= m,
            digits_value(r@) + carry * pow10(i as nat) == digits_value(s@.take(i as int)) * m,
        decreases s.len() - i,
    {
        let x = s[i] as u64;
        assert(x <= 9);
        assert(x * (m as u64) + carry <= 10 * (m as u64)) by (nonlinear_arith)
            requires
                x <= 9,
                carry <= m,
        ;
        let t: u64 = x * (m as u64) + carry;
        let d: u8 = (t % 10) as u8;
        let c2: u64 = t / 10;
        proof {
            lemma_value_push(r@, d);
            lemma_value_take_step(s@, i as int);
            let p = pow10(i as nat);
            assert(pow10((i + 1) as nat) == 10 * p);
            let vr = digits_value(r@);
            let vs = digits_value(s@.take(i as int));
            assert(t == 10 * c2 + d);
            assert(vr + d * p + c2 * (10 * p) == (vs + x * p) * m) by (nonlinear_arith)
                requires
                    vr + carry * p == vs * m,
                    t == x * m + carry,
                    t == 10 * c2 + d,
            ;
        }
        r.push(d);
        carry = c2;
        i = i + 1;
    }
    assert(s@.take(s.len() as int) == s@);
    while carry > 0
        invariant
            all_digits(r@),
            digits_value(r@) + carry * pow10(r.len() as nat) == digits_value(s@) * m,
        decreases carry,
    {
        let d: u8 = (carry % 10) as u8;
        let c2 = carry / 10;
        proof {
            lemma_value_push(r@, d);
            let p = pow10(r.len() as nat);
            assert(pow10((r.len() + 1) as nat) == 10 * p);
            let vr = digits_value(r@);
            assert(vr + d * p + c2 * (10 * p) == vr + carry * p) by (nonlinear_arith)
                requires
                    carry == 10 * c2 + d,
            ;
        }
        r.push(d);
        carry = c2;
    }
    r
}

/// Little-endian digits of `a + b`.
pub(crate) fn add_digits(a: &Vec<u8>, b: &Vec<u8>) -> (r: Vec<u8>)
    requires
        all_digits(a@),
        all_digits(b@),
    ensures
        all_digits(r@),
        digits_value(r@) == digits_value(a@) + digits_value(b@),
{
    let n = if a.len() >= b.len() {
        a.len()
    } else {
        b.len()
    };
    let ghost ea = a@ + zeros((n - a.len()) as nat);
    let ghost eb = b@ + zeros((n - b.len()) as nat);
    proof {
        lemma_value_high_zeros(a@, (n - a.len()) as nat);
        lemma_value_high_zeros(b@, (n - b.len()) as nat);
    }
    let mut r: Vec<u8> = Vec::new();
    let mut carry: u8 = 0;
    let mut i: usize = 0;
    while i < n
        invariant
            i <= n,
            n >= a.len(),
            n >= b.len(),
            ea == a@ + zeros((n - a.len()) as nat),
            eb == b@ + zeros((n - b.len()) as nat),
            ea.len() == n,
            eb.len() == n,
            r.len() == i,
            all_digits(a@),
            all_digits(b@),
            all_digits(r@),
            carry <= 1,
            digits_value(r@) + carry * pow10(i as nat) == digits_value(ea.take(i as int))
                + digits_value(eb.take(i as int)),
        decreases n - i,
    {
        let x: u8 = if i < a.len() {
            a[i]
        } else {
            0
        };
        let y: u8 = if i < b.len() {
            b[i]
        } else {
            0
        };
        assert(x == ea[i as int]);
        assert(y == eb[i as int]);
        let t: u8 = x + y + carry;
        let d: u8 = t % 10;
        let c2: u8 = t / 10;
        proof {
            lemma_value_push(r@, d);
            lemma_value_take_step(ea, i as int);
            lemma_value_take_step(eb, i as int);
            let p = pow10(i as nat);
            assert(pow10((i + 1) as nat) == 10 * p);
            let vr = digits_value(r@);
            let va = digits_value(ea.take(i as int));
            let vb = digits_value(eb.take(i as int));
            assert(vr + d * p + c2 * (10 * p) == (va + x * p) + (vb + y * p)) by (nonlinear_arith)
                requires
                    vr + carry * p == va + vb,
                    t == x + y + carry,
                    t == 10 * c2 + d,
            ;
        }
        r.push(d);
        carry = c2;
        i = i + 1;
    }
    assert(ea.take(n as int) == ea);
    assert(eb.take(n as int) == eb);
    if carry > 0 {
        proof {
            lemma_value_push(r@, carry);
        }
        r.push(carry);
    }
    r
}

/// Little-endian digits of `s * 10^k`.
pub(crate) fn shift_up(s: &Vec<u8>, k: usize) -> (r: Vec<u8>)
    requires
        all_digits(s@),
    ensures
        all_digits(r@),
        digits_value(r@) == digits_value(s@) * pow10(k as nat),
{
    let mut r: Vec<u8> = Vec::new();
    let mut i: usize = 0;
    while i < k
        invariant
            i <= k,
            r@ == zeros(i as nat),
        decreases k - i,
    {
        r.push(0);
        i = i + 1;
        assert(r@ == zeros(i as nat));
    }
    let mut j: usize = 0;
    while j < s.len()
        invariant
            j <= s.len(),
            r@ == zeros(k as nat) + s@.take(j as int),
        decreases s.len() - j,
    {
        r.push(s[j]);
        j = j + 1;
        assert(r@ == zeros(k as nat) + s@.take(j as int));
    }
    assert(s@.take(s.len() as int) == s@);
    proof {
        lemma_value_shift(s@, k as nat);
    }
    r
}

/// Little-endian digits of `base^k`.
pub(crate) fn pow_digits(base: u32, k: usize) -> (r: Vec<u8>)
    ensures
        all_digits(r@),
        digits_value(r@) == pow_nat(base as nat, k as nat),
{
    let mut r: Vec<u8> = Vec::new();
    r.push(1);
    proof {
        assert(r@.drop_last() == Seq::<u8>::empty());
        assert(pow10(0) == 1);
        assert(r@.len() == 1 && r@.last() == 1);
        assert(digits_value(r@) == digits_value(r@.drop_last()) + 1 * pow10(0));
        assert(digits_value(r@) == 1);
        assert(pow_nat(base as nat, 0) == 1);
    }
    let mut i: usize = 0;
    while i < k
        invariant
            i <= k,
            all_digits(r@),
            digits_value(r@) == pow_nat(base as nat, i as nat),
        decreases k - i,
    {
        r = mul_small(&r, base);
        i = i + 1;
        proof {
            let p = pow_nat(base as nat, (i - 1) as nat);
            assert(p * base == base * p) by (nonlinear_arith);
        }
    }
    r
}

} // verus!
