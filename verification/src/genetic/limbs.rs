//! Whole numbers of any size, as limbs of 32 bits with the lowest first:
//! what it takes to tell exactly which of two large powers is the greater.

use vstd::prelude::*;

verus! {

/// The number of values of one limb.
pub const LIMB_BASE: u64 = 4294967296;

/// `b` to the power of `e`.
pub open spec fn power(b: int, e: nat) -> int
    decreases e,
{
    if e == 0 {
        1
    } else {
        b * power(b, (e - 1) as nat)
    }
}

/// What the limb at place `n` counts for: the base to the power of `n`.
pub open spec fn limb_weight(n: nat) -> nat
    decreases n,
{
    if n == 0 {
        1
    } else {
        4294967296 * limb_weight((n - 1) as nat)
    }
}

/// The number that the limbs stand for.
pub open spec fn limbs_value(limbs: Seq<u32>) -> nat
    decreases limbs.len(),
{
    if limbs.len() == 0 {
        0
    } else {
        limbs_value(limbs.drop_last()) + limbs.last() as nat * limb_weight((limbs.len() - 1) as nat)
    }
}

/// The order of two numbers: -1 where `a` is the smaller, 0 where they
/// are equal, 1 where `a` is the greater.
pub open spec fn order_of(a: int, b: int) -> int {
    if a < b {
        -1
    } else if a == b {
        0
    } else {
        1
    }
}

/// The power of a sum of exponents is the product of the powers.
pub proof fn lemma_power_adds(b: int, e: nat, f: nat)
    ensures
        power(b, e + f) == power(b, e) * power(b, f),
    decreases e,
{
    if e == 0 {
        assert(1 * power(b, f) == power(b, f)) by (nonlinear_arith);
    } else {
        lemma_power_adds(b, (e - 1) as nat, f);
        let p = power(b, (e - 1) as nat);
        let q = power(b, f);
        assert(power(b, e + f) == b * power(b, (e + f - 1) as nat));
        assert(b * (p * q) == (b * p) * q) by (nonlinear_arith);
    }
}

/// A power of a power is the power of the product of the exponents.
pub proof fn lemma_power_of_power(b: int, e: nat, f: nat)
    ensures
        power(power(b, e), f) == power(b, e * f),
    decreases f,
{
    if f == 0 {
        assert(e * f == 0) by (nonlinear_arith)
            requires
                f == 0,
        ;
    } else {
        lemma_power_of_power(b, e, (f - 1) as nat);
        lemma_power_adds(b, e, e * ((f - 1) as nat));
        assert(e + e * ((f - 1) as nat) == e * f) by (nonlinear_arith)
            requires
                f > 0,
        ;
    }
}

/// The power of a product is the product of the powers.
pub proof fn lemma_power_of_product(a: int, b: int, e: nat)
    ensures
        power(a * b, e) == power(a, e) * power(b, e),
    decreases e,
{
    if e == 0 {
    } else {
        lemma_power_of_product(a, b, (e - 1) as nat);
        let p = power(a, (e - 1) as nat);
        let q = power(b, (e - 1) as nat);
        assert((a * b) * (p * q) == (a * p) * (b * q)) by (nonlinear_arith);
    }
}

/// Two numbers that are not negative stand in the order of their powers.
pub proof fn lemma_power_keeps_order(a: int, b: int, e: nat)
    requires
        0 <= a,
        0 <= b,
        e > 0,
    ensures
        order_of(power(a, e), power(b, e)) == order_of(a, b),
    decreases e,
{
    if a < b {
        lemma_power_grows_strictly(a, b, e);
    } else if b < a {
        lemma_power_grows_strictly(b, a, e);
    }
}

/// A positive power of a number that is not negative grows strictly
/// with the number.
pub proof fn lemma_power_grows_strictly(a: int, b: int, e: nat)
    requires
        0 <= a < b,
        e > 0,
    ensures
        0 <= power(a, e) < power(b, e),
    decreases e,
{
    lemma_power_grows(a, b, (e - 1) as nat);
    lemma_power_positive(b, 0, (e - 1) as nat);
    let p = power(a, (e - 1) as nat);
    let q = power(b, (e - 1) as nat);
    assert(0 <= a * p < b * q) by (nonlinear_arith)
        requires
            0 <= a < b,
            0 <= p <= q,
            1 <= q,
    ;
}

/// A power of a number that is not negative grows with the number.
pub proof fn lemma_power_grows(a: int, b: int, e: nat)
    requires
        0 <= a <= b,
    ensures
        0 <= power(a, e) <= power(b, e),
    decreases e,
{
    if e > 0 {
        lemma_power_grows(a, b, (e - 1) as nat);
        let p = power(a, (e - 1) as nat);
        let q = power(b, (e - 1) as nat);
        assert(0 <= a * p <= b * q) by (nonlinear_arith)
            requires
                0 <= a <= b,
                0 <= p <= q,
        ;
    }
}

/// A power of a positive number is positive, and grows with the exponent.
pub proof fn lemma_power_positive(b: int, e: nat, f: nat)
    requires
        1 <= b,
        e <= f,
    ensures
        1 <= power(b, e) <= power(b, f),
    decreases f,
{
    if e == 0 {
        if f > 0 {
            lemma_power_positive(b, 0, (f - 1) as nat);
            let q = power(b, (f - 1) as nat);
            assert(1 <= b * q) by (nonlinear_arith)
                requires
                    1 <= b,
                    1 <= q,
            ;
        }
    } else {
        lemma_power_positive(b, (e - 1) as nat, (f - 1) as nat);
        let p = power(b, (e - 1) as nat);
        let q = power(b, (f - 1) as nat);
        assert(1 <= b * p <= b * q) by (nonlinear_arith)
            requires
                1 <= b,
                1 <= p <= q,
        ;
    }
}

/// A number below 100000, to a power, stays below ten to five times that
/// power.
pub proof fn lemma_power_below_tens(b: int, e: nat)
    requires
        0 <= b <= 100000,
    ensures
        0 <= power(b, e) <= power(10, 5 * e),
    decreases e,
{
    if e > 0 {
        lemma_power_below_tens(b, (e - 1) as nat);
        let p = power(b, (e - 1) as nat);
        let q = power(10, (5 * (e - 1)) as nat);
        assert(power(10, 5 * e) == 100000 * q) by {
            reveal_with_fuel(power, 6);
        }
        assert(0 <= b * p <= 100000 * q) by (nonlinear_arith)
            requires
                0 <= b <= 100000,
                0 <= p <= q,
        ;
    }
}

/// Limbs stand for a number below the weight of the place after the last.
pub proof fn lemma_value_bound(limbs: Seq<u32>)
    ensures
        limbs_value(limbs) < limb_weight(limbs.len()),
    decreases limbs.len(),
{
    if limbs.len() > 0 {
        lemma_value_bound(limbs.drop_last());
        let w = limb_weight((limbs.len() - 1) as nat);
        let top = limbs.last() as int;
        assert(top * w + w <= 4294967296 * w) by (nonlinear_arith)
            requires
                0 <= top <= 4294967295,
                0 <= w,
        ;
    }
}

/// Of limbs of one length, those with the smaller limb at the highest
/// place where they differ stand for the smaller number.
pub proof fn lemma_order_by_top(a: Seq<u32>, b: Seq<u32>, i: int)
    requires
        a.len() == b.len(),
        0 <= i < a.len(),
        forall|j: int| i < j < a.len() ==> a[j] == b[j],
        a[i] < b[i],
    ensures
        limbs_value(a) < limbs_value(b),
    decreases a.len(),
{
    let w = limb_weight((a.len() - 1) as nat);
    if i == a.len() - 1 {
        lemma_value_bound(a.drop_last());
        let x = a[i] as int;
        let y = b[i] as int;
        assert(x * w + w <= y * w) by (nonlinear_arith)
            requires
                x < y,
                0 <= w,
        ;
    } else {
        lemma_order_by_top(a.drop_last(), b.drop_last(), i);
    }
}

/// One more limb at the top adds the limb times the weight of its place.
pub proof fn lemma_value_pushed(limbs: Seq<u32>, top: u32)
    ensures
        limbs_value(limbs.push(top)) == limbs_value(limbs) + top * limb_weight(limbs.len()),
        top == 0 ==> limbs_value(limbs.push(top)) == limbs_value(limbs),
{
    assert(limbs.push(top).drop_last() =~= limbs);
    let w = limb_weight(limbs.len()) as int;
    assert(0 * w == 0) by (nonlinear_arith);
}

/// The product of a number and a limb.
pub fn times(v: &Vec<u32>, c: u32) -> (out: Vec<u32>)
    requires
        v@.len() < usize::MAX,
    ensures
        limbs_value(out@) == limbs_value(v@) * c,
        out@.len() <= v@.len() + 1,
{
    let mut out: Vec<u32> = Vec::new();
    let mut carry: u64 = 0;
    let mut i: usize = 0;
    proof {
        assert(v@.take(0) =~= Seq::<u32>::empty());
        assert(limbs_value(v@.take(0)) == 0);
        assert(limbs_value(out@) == 0);
        let w = limb_weight(0) as int;
        assert(0 * w == 0 && 0 * (c as int) == 0) by (nonlinear_arith);
    }
    while i < v.len()
        invariant
            i <= v@.len(),
            out@.len() == i,
            carry < 4294967296,
            limbs_value(out@) + carry * limb_weight(i as nat) == limbs_value(v@.take(i as int)) * c,
        decreases v.len() - i,
    {
        let limb: u64 = v[i] as u64;
        assert(limb * (c as u64) + carry <= 18446744069414584320) by (nonlinear_arith)
            requires
                limb <= 4294967295,
                c <= 4294967295,
                carry <= 4294967295,
        ;
        let t: u64 = limb * (c as u64) + carry;
        let low: u32 = (t % LIMB_BASE) as u32;
        let high: u64 = t / LIMB_BASE;
        proof {
            let w = limb_weight(i as nat) as int;
            let before = limbs_value(out@) as int;
            let part = limbs_value(v@.take(i as int)) as int;
            assert(v@.take(i + 1).drop_last() =~= v@.take(i as int));
            lemma_value_pushed(out@, low);
            assert(limb_weight((i + 1) as nat) == 4294967296 * w);
            assert(before + low * w + high * (4294967296 * w) == (part + limb * w) * c)
                by (nonlinear_arith)
                requires
                    before + carry * w == part * c,
                    t == limb * c + carry,
                    t == high * 4294967296 + low,
            ;
        }
        out.push(low);
        carry = high;
        i += 1;
    }
    assert(v@.take(v@.len() as int) =~= v@);
    if carry != 0 {
        proof {
            lemma_value_pushed(out@, carry as u32);
        }
        out.push(carry as u32);
    }
    out
}

/// The product of a number and a power of a limb.
pub fn times_power(v: Vec<u32>, base: u32, exponent: u32) -> (out: Vec<u32>)
    requires
        v@.len() + exponent < usize::MAX,
    ensures
        limbs_value(out@) == limbs_value(v@) * power(base as int, exponent as nat),
        out@.len() <= v@.len() + exponent,
{
    let mut out = v;
    let mut i: u32 = 0;
    while i < exponent
        invariant
            i <= exponent,
            v@.len() + exponent < usize::MAX,
            out@.len() <= v@.len() + i,
            limbs_value(out@) == limbs_value(v@) * power(base as int, i as nat),
        decreases exponent - i,
    {
        proof {
            let p = power(base as int, i as nat);
            let x = limbs_value(v@) as int;
            assert(x * p * base == x * (base * p)) by (nonlinear_arith);
        }
        out = times(&out, base);
        i += 1;
    }
    out
}

/// The number one.
pub fn one() -> (out: Vec<u32>)
    ensures
        limbs_value(out@) == 1,
        out@.len() == 1,
{
    let mut out: Vec<u32> = Vec::new();
    out.push(1);
    proof {
        assert(out@.drop_last() =~= Seq::<u32>::empty());
        reveal_with_fuel(limbs_value, 2);
    }
    out
}

/// The order of two numbers: -1, 0 or 1 as the first is the smaller, the
/// same, or the greater.
pub fn order(a: Vec<u32>, b: Vec<u32>) -> (sign: i8)
    ensures
        sign == order_of(limbs_value(a@) as int, limbs_value(b@) as int),
{
    let mut x = a;
    let mut y = b;
    while x.len() < y.len()
        invariant
            limbs_value(x@) == limbs_value(a@),
            y@ == b@,
        decreases y.len() - x.len(),
    {
        proof {
            lemma_value_pushed(x@, 0);
        }
        x.push(0);
    }
    while y.len() < x.len()
        invariant
            limbs_value(x@) == limbs_value(a@),
            limbs_value(y@) == limbs_value(b@),
            y@.len() <= x@.len(),
        decreases x.len() - y.len(),
    {
        proof {
            lemma_value_pushed(y@, 0);
        }
        y.push(0);
    }
    let mut i: usize = x.len();
    while i > 0
        invariant
            i <= x@.len(),
            x@.len() == y@.len(),
            limbs_value(x@) == limbs_value(a@),
            limbs_value(y@) == limbs_value(b@),
            forall|j: int| i <= j < x@.len() ==> x@[j] == y@[j],
        decreases i,
    {
        i -= 1;
        if x[i] < y[i] {
            proof {
                lemma_order_by_top(x@, y@, i as int);
            }
            return -1;
        }
        if x[i] > y[i] {
            proof {
                lemma_order_by_top(y@, x@, i as int);
            }
            return 1;
        }
    }
    assert(x@ =~= y@);
    0
}

} // verus!
