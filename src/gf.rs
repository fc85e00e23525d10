//! Arithmetic in the finite field GF(2^8) with the reduction polynomial
//! x^8 + x^4 + x^3 + x + 1.
use vstd::prelude::*;

verus! {

/// The product of `a` with the polynomial `x`, reduced.
pub open spec fn xtime(a: u8) -> u8 {
    if a & 0x80u8 != 0 {
        ((a << 1u8) as u8) ^ 0x1bu8
    } else {
        (a << 1u8) as u8
    }
}

/// The field product of `a` and `b`, taking `n` bits of `b`: for every bit `i`
/// of `b`, the term `a * x^i`, summed by XOR.
pub open spec fn mul_bits(a: u8, b: u8, n: nat) -> u8
    decreases n,
{
    if n == 0 {
        0
    } else {
        (if b & 1u8 != 0 { a } else { 0u8 }) ^ mul_bits(xtime(a), b >> 1u8, (n - 1) as nat)
    }
}

/// The field product `a * b`.
pub open spec fn gf_mul_spec(a: u8, b: u8) -> u8 {
    mul_bits(a, b, 8)
}

/// The product `a * b` written out over the eight bits of `b`.
pub open spec fn mul_closed(a: u8, b: u8) -> u8 {
    let a1 = xtime(a);
    let a2 = xtime(a1);
    let a3 = xtime(a2);
    let a4 = xtime(a3);
    let a5 = xtime(a4);
    let a6 = xtime(a5);
    let a7 = xtime(a6);
    let b1 = b >> 1u8;
    let b2 = b1 >> 1u8;
    let b3 = b2 >> 1u8;
    let b4 = b3 >> 1u8;
    let b5 = b4 >> 1u8;
    let b6 = b5 >> 1u8;
    let b7 = b6 >> 1u8;
    (if b & 1u8 != 0 { a } else { 0u8 }) ^ ((if b1 & 1u8 != 0 { a1 } else { 0u8 }) ^ ((if b2 & 1u8
        != 0 { a2 } else { 0u8 }) ^ ((if b3 & 1u8 != 0 { a3 } else { 0u8 }) ^ ((if b4 & 1u8 != 0 {
        a4
    } else { 0u8 }) ^ ((if b5 & 1u8 != 0 { a5 } else { 0u8 }) ^ ((if b6 & 1u8 != 0 { a6 } else {
        0u8
    }) ^ ((if b7 & 1u8 != 0 { a7 } else { 0u8 }) ^ 0u8)))))))
}

proof fn lemma_mul_closed(a: u8, b: u8)
    ensures
        gf_mul_spec(a, b) == mul_closed(a, b),
{
    reveal_with_fuel(mul_bits, 9);
}

/// `x` raised to the power `n` by square-and-multiply over the bits of `n`,
/// starting from the accumulator `r`.
pub open spec fn pow_acc(r: u8, x: u8, n: nat) -> u8
    decreases n,
{
    if n == 0 {
        r
    } else {
        pow_acc(if n % 2 == 1 { gf_mul_spec(r, x) } else { r }, gf_mul_spec(x, x), n / 2)
    }
}

/// The field power `x^n`.
pub open spec fn gf_pow_spec(x: u8, n: nat) -> u8 {
    pow_acc(1, x, n)
}

/// The multiplicative inverse of `x`, and 0 for 0.
pub open spec fn gf_inv_spec(x: u8) -> u8 {
    if x == 0 {
        0
    } else {
        gf_pow_spec(x, 254)
    }
}

proof fn lemma_xor_facts(p: u8, t: u8, r: u8)
    by (bit_vector)
    ensures
        (p ^ t) ^ r == p ^ (t ^ r),
        p ^ 0u8 == p,
        0u8 ^ p == p,
{
}

proof fn lemma_xtime_shift(a: u8)
    by (bit_vector)
    ensures
        xtime(a) == (if a & 0x80u8 != 0 { ((a << 1u8) as u8) ^ 0x1bu8 } else { (a << 1u8) as u8 }),
{
}

pub fn gf_mul(a: u8, b: u8) -> (r: u8)
    ensures
        r == gf_mul_spec(a, b),
{
    let mut a = a;
    let mut b = b;
    let ghost a0 = a;
    let ghost b0 = b;
    let mut p: u8 = 0;
    let mut i: u8 = 0;
    proof {
        lemma_xor_facts(mul_bits(a0, b0, 8), 0, 0);
    }
    while i < 8
        invariant
            i <= 8,
            p ^ mul_bits(a, b, (8 - i) as nat) == mul_bits(a0, b0, 8),
        decreases 8 - i,
    {
        let ghost pa = a;
        let ghost pb = b;
        let ghost pp = p;
        let ghost t: u8 = if pb & 1u8 != 0 { pa } else { 0u8 };
        if (b & 1) != 0 {
            p ^= a;
        }
        let carry = a & 0x80;
        a <<= 1;
        if carry != 0 {
            a ^= 0x1b;
        }
        b >>= 1;
        proof {
            lemma_xtime_shift(pa);
            lemma_xor_facts(pp, t, mul_bits(a, b, (8 - i - 1) as nat));
            lemma_xor_facts(pp, 0, 0);
        }
        i += 1;
    }
    proof {
        lemma_xor_facts(p, 0, 0);
    }
    p
}

proof fn lemma_halve(n: u16)
    by (bit_vector)
    ensures
        (n & 1u16 != 0) == (n % 2 == 1),
        n >> 1u16 == n / 2,
{
}

pub fn gf_pow(x: u8, power: u16) -> (r: u8)
    ensures
        r == gf_pow_spec(x, power as nat),
{
    let mut x = x;
    let mut power = power;
    let ghost x0 = x;
    let ghost p0 = power;
    let mut result: u8 = 1;
    while power > 0
        invariant
            pow_acc(result, x, power as nat) == pow_acc(1, x0, p0 as nat),
        decreases power,
    {
        proof {
            lemma_halve(power);
        }
        if (power & 1) != 0 {
            result = gf_mul(result, x);
        }
        x = gf_mul(x, x);
        power >>= 1;
    }
    result
}

pub fn gf_inv(x: u8) -> (r: u8)
    ensures
        r == gf_inv_spec(x),
        x == 0 ==> r == 0,
        x != 0 ==> gf_mul_spec(x, r) == 1,
{
    proof {
        inverse_law(x);
    }
    if x == 0 {
        0
    } else {
        gf_pow(x, 254)
    }
}

#[verifier::rlimit(100)]
proof fn lemma_inverse_chain(x: u8, x1: u8, r1: u8, x2: u8, r2: u8, x3: u8, r3: u8, x4: u8, r4: u8, x5: u8, r5: u8, x6: u8, r6: u8, x7: u8, r7: u8)
    by (bit_vector)
    requires
        x != 0,
        x1 == mul_closed(x, x),
        r1 == mul_closed(1u8, x1),
        x2 == mul_closed(x1, x1),
        r2 == mul_closed(r1, x2),
        x3 == mul_closed(x2, x2),
        r3 == mul_closed(r2, x3),
        x4 == mul_closed(x3, x3),
        r4 == mul_closed(r3, x4),
        x5 == mul_closed(x4, x4),
        r5 == mul_closed(r4, x5),
        x6 == mul_closed(x5, x5),
        r6 == mul_closed(r5, x6),
        x7 == mul_closed(x6, x6),
        r7 == mul_closed(r6, x7),
    ensures
        mul_closed(x, r7) == 1,
        x == 3 ==> r7 == 0xf6,
{
}

proof fn lemma_undo_three(b: u8, y: u8)
    by (bit_vector)
    requires
        y == mul_closed(b, 3u8),
    ensures
        mul_closed(y, 0xf6u8) == b,
{
}

/// Every nonzero element times its inverse is 1, and the inverse of 0 is 0.
pub proof fn inverse_law(x: u8)
    ensures
        x != 0 ==> gf_mul_spec(x, gf_inv_spec(x)) == 1,
        gf_inv_spec(0) == 0,
        gf_inv_spec(3) == 0xf6,
{
    lemma_inverse_closed(x);
    lemma_inverse_closed(3);
}

/// Multiplying by 3 and then by the inverse of 3 gives every byte back.
pub proof fn field_round_trip(b: u8)
    ensures
        gf_mul_spec(gf_mul_spec(b, 3), gf_inv_spec(3)) == b,
{
    inverse_law(3);
    let y = gf_mul_spec(b, 3);
    lemma_mul_closed(b, 3);
    lemma_mul_closed(y, 0xf6);
    lemma_undo_three(b, y);
}

proof fn lemma_inverse_closed(x: u8)
    ensures
        x != 0 ==> gf_mul_spec(x, gf_inv_spec(x)) == 1,
        x == 3 ==> gf_inv_spec(x) == 0xf6,
{
    if x != 0 {
        let x1 = gf_mul_spec(x, x);
        let r1 = gf_mul_spec(1u8, x1);
        let x2 = gf_mul_spec(x1, x1);
        let r2 = gf_mul_spec(r1, x2);
        let x3 = gf_mul_spec(x2, x2);
        let r3 = gf_mul_spec(r2, x3);
        let x4 = gf_mul_spec(x3, x3);
        let r4 = gf_mul_spec(r3, x4);
        let x5 = gf_mul_spec(x4, x4);
        let r5 = gf_mul_spec(r4, x5);
        let x6 = gf_mul_spec(x5, x5);
        let r6 = gf_mul_spec(r5, x6);
        let x7 = gf_mul_spec(x6, x6);
        let r7 = gf_mul_spec(r6, x7);
        reveal_with_fuel(pow_acc, 9);
        assert(gf_pow_spec(x, 254) == r7);
        lemma_mul_closed(x, x);
        lemma_mul_closed(1u8, x1);
        lemma_mul_closed(x1, x1);
        lemma_mul_closed(r1, x2);
        lemma_mul_closed(x2, x2);
        lemma_mul_closed(r2, x3);
        lemma_mul_closed(x3, x3);
        lemma_mul_closed(r3, x4);
        lemma_mul_closed(x4, x4);
        lemma_mul_closed(r4, x5);
        lemma_mul_closed(x5, x5);
        lemma_mul_closed(r5, x6);
        lemma_mul_closed(x6, x6);
        lemma_mul_closed(r6, x7);
        lemma_mul_closed(x, r7);
        lemma_inverse_chain(x, x1, r1, x2, r2, x3, r3, x4, r4, x5, r5, x6, r6, x7, r7);
    }
}

} // verus!
