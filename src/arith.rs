//! The multiplicative step of a pass: multiplication by a parameter modulo the
//! prime 257, or multiplication in GF(2^8), each with its exact inverse.
use vstd::prelude::*;
use vstd::arithmetic::div_mod::{lemma_mod_multiples_vanish, lemma_mul_mod_noop_left, lemma_small_mod};
use crate::gf::{field_round_trip, gf_inv, gf_inv_spec, gf_mul, gf_mul_spec};

verus! {

/// The prime modulus of modular mode.
pub const MODULUS: u16 = 257;

/// The pass parameters of modular mode, in declaration order.
pub const PRIME_FIRST: u16 = 251;
pub const PRIME_SECOND: u16 = 241;
pub const PRIME_THIRD: u16 = 239;

/// The single pass parameter of field mode.
pub const FIELD_PARAM: u16 = 3;

pub open spec fn is_modular_prime(p: u16) -> bool {
    p == PRIME_FIRST || p == PRIME_SECOND || p == PRIME_THIRD
}

/// The inverse of `p` modulo 257, for each modular parameter.
pub open spec fn prime_inverse_spec(p: u16) -> int {
    if p == PRIME_FIRST {
        214
    } else if p == PRIME_SECOND {
        16
    } else {
        157
    }
}

/// The residue `c * p mod m`.
pub open spec fn residue(c: int, p: int, m: int) -> int {
    (c * p) % m
}

/// The forward modular step. The byte whose product is 256 modulo 257 would not
/// fit in a byte; it is sent to `257 - p`, the one residue below 256 that no
/// byte reaches otherwise, so that the step is a bijection on bytes.
pub open spec fn mod_forward_spec(b: u8, p: u16) -> u8 {
    let m = residue(b as int, p as int, 257);
    if m == 256 {
        (257 - p) as u8
    } else {
        m as u8
    }
}

/// The byte whose forward image is `y`.
pub open spec fn mod_inverse_spec(y: u8, p: u16) -> u8 {
    choose|b: u8| mod_forward_spec(b, p) == y
}

/// The multiplier that satisfies `p * q == 257 * k + 1` with `q` the inverse of `p`.
pub open spec fn prime_inverse_quotient(p: u16) -> int {
    if p == PRIME_FIRST {
        209
    } else if p == PRIME_SECOND {
        15
    } else {
        146
    }
}

/// Multiplying by `s` and then by `t`, where `s * t` is 1 modulo 257, gives back `a`.
proof fn lemma_cancel(a: int, s: int, t: int, k: int)
    requires
        0 <= a <= 256,
        s * t == 257 * k + 1,
    ensures
        residue(residue(a, s, 257), t, 257) == a,
{
    lemma_mul_mod_noop_left(a * s, t, 257);
    assert(a * s * t == 257 * (a * k) + a) by (nonlinear_arith)
        requires
            s * t == 257 * k + 1,
    ;
    lemma_mod_multiples_vanish(a * k, a, 257);
    lemma_small_mod(a as nat, 257);
}

/// Multiplying the residue `a * p` by the inverse of `p` gives back `a`, and
/// the other way round.
proof fn lemma_undo(a: int, p: u16)
    requires
        is_modular_prime(p),
        0 <= a <= 256,
    ensures
        residue(residue(a, p as int, 257), prime_inverse_spec(p), 257) == a,
        residue(residue(a, prime_inverse_spec(p), 257), p as int, 257) == a,
{
    let q = prime_inverse_spec(p);
    let k = prime_inverse_quotient(p);
    assert(p * q == 257 * k + 1);
    lemma_cancel(a, p as int, q, k);
    lemma_cancel(a, q, p as int, k);
}

/// The byte `257 - q` is the one whose product with `p` is 256 modulo 257.
proof fn lemma_collision_byte(p: u16)
    requires
        is_modular_prime(p),
    ensures
        residue(257 - prime_inverse_spec(p), p as int, 257) == 256,
{
    let q = prime_inverse_spec(p);
    let k = prime_inverse_quotient(p);
    assert((257 - q) * p == 257 * (p - k - 1) + 256) by (nonlinear_arith)
        requires
            p * q == 257 * k + 1,
    ;
    lemma_mod_multiples_vanish(p - k - 1, 256, 257);
    lemma_small_mod(256, 257);
}

proof fn lemma_residue_injective(a: int, b: int, p: u16)
    requires
        is_modular_prime(p),
        0 <= a <= 256,
        0 <= b <= 256,
        residue(a, p as int, 257) == residue(b, p as int, 257),
    ensures
        a == b,
{
    lemma_undo(a, p);
    lemma_undo(b, p);
}

proof fn lemma_forward_injective(a: u8, b: u8, p: u16)
    requires
        is_modular_prime(p),
        mod_forward_spec(a, p) == mod_forward_spec(b, p),
    ensures
        a == b,
{
    let ra = residue(a as int, p as int, 257);
    let rb = residue(b as int, p as int, 257);
    assert(residue(256, p as int, 257) == 257 - p);
    if ra == 256 && rb != 256 {
        lemma_residue_injective(b as int, 256, p);
    } else if ra != 256 && rb == 256 {
        lemma_residue_injective(a as int, 256, p);
    } else if ra == 256 && rb == 256 {
        lemma_residue_injective(a as int, b as int, p);
    } else {
        lemma_residue_injective(a as int, b as int, p);
    }
}

/// The modular step is invertible: undoing the forward image of any byte gives
/// the byte back.
pub proof fn modular_round_trip(b: u8, p: u16)
    requires
        is_modular_prime(p),
    ensures
        mod_inverse_spec(mod_forward_spec(b, p), p) == b,
{
    let y = mod_forward_spec(b, p);
    let r = mod_inverse_spec(y, p);
    assert(mod_forward_spec(r, p) == y);
    lemma_forward_injective(r, b, p);
}

/// The first byte `c` with `c * prime mod modulo == value`, or 0 if there is none.
pub fn modular_inverse_map(value: u8, prime: u16, modulo: u16) -> (r: u8)
    requires
        modulo > 0,
    ensures
        (exists|c: u8| residue(c as int, prime as int, modulo as int) == value) ==> {
            &&& residue(r as int, prime as int, modulo as int) == value
            &&& forall|c: u8| c < r ==> #[trigger] residue(c as int, prime as int, modulo as int) != value
        },
        !(exists|c: u8| residue(c as int, prime as int, modulo as int) == value) ==> r == 0,
{
    let mut candidate: u16 = 0;
    while candidate <= 255
        invariant
            candidate <= 256,
            modulo > 0,
            forall|c: u8| c < candidate ==> #[trigger] residue(c as int, prime as int, modulo as int) != value,
        decreases 256 - candidate,
    {
        assert((candidate as u32) * (prime as u32) <= 255 * 65535) by (nonlinear_arith)
            requires
                candidate <= 255,
        ;
        if ((candidate as u32) * (prime as u32)) % (modulo as u32) == value as u32 {
            assert(residue((candidate as u8) as int, prime as int, modulo as int) == value);
            return candidate as u8;
        }
        candidate += 1;
    }
    assert(candidate == 256);
    0
}

fn prime_inverse(p: u16) -> (r: u16)
    requires
        is_modular_prime(p),
    ensures
        r == prime_inverse_spec(p),
{
    if p == PRIME_FIRST {
        214
    } else if p == PRIME_SECOND {
        16
    } else {
        157
    }
}

pub fn modular_forward(b: u8, p: u16) -> (r: u8)
    requires
        is_modular_prime(p),
    ensures
        r == mod_forward_spec(b, p),
{
    assert((b as u32) * (p as u32) <= 255 * 255) by (nonlinear_arith)
        requires
            p <= 255,
    ;
    let m = ((b as u32) * (p as u32)) % 257;
    if m == 256 {
        (257 - p) as u8
    } else {
        m as u8
    }
}

pub fn modular_inverse(y: u8, p: u16) -> (r: u8)
    requires
        is_modular_prime(p),
    ensures
        r == mod_inverse_spec(y, p),
        mod_forward_spec(r, p) == y,
{
    let q = prime_inverse(p);
    proof {
        assert(residue(256, p as int, 257) == 257 - p);
    }
    let r = if y as u16 == 257 - p {
        proof {
            lemma_collision_byte(p);
        }
        (257 - q) as u8
    } else {
        proof {
            let c = residue(y as int, q as int, 257);
            lemma_undo(y as int, p);
            if c == 256 {
                assert(residue(256, p as int, 257) == y);
            }
            assert(residue((c as u8) as int, p as int, 257) == y);
        }
        modular_inverse_map(y, p, 257)
    };
    proof {
        assert(mod_forward_spec(r, p) == y);
        lemma_forward_injective(r, mod_inverse_spec(y, p), p);
    }
    r
}

/// How a pass multiplies each byte: modulo 257 with one of three primes, or in
/// GF(2^8) with one fixed element.
#[derive(Clone, Copy, Debug, PartialEq, Eq, Structural)]
pub enum Arithmetic {
    Modular,
    Field,
}

impl Arithmetic {
    /// How many passes a zone can take, one for each parameter.
    pub open spec fn budget(self) -> nat {
        match self {
            Arithmetic::Modular => 3,
            Arithmetic::Field => 1,
        }
    }

    /// The parameter of index `i`, in declaration order.
    pub open spec fn param_spec(self, i: int) -> u16 {
        match self {
            Arithmetic::Modular => if i == 0 {
                PRIME_FIRST
            } else if i == 1 {
                PRIME_SECOND
            } else {
                PRIME_THIRD
            },
            Arithmetic::Field => FIELD_PARAM,
        }
    }

    pub open spec fn forward_spec(self, b: u8, param: u16) -> u8 {
        match self {
            Arithmetic::Modular => mod_forward_spec(b, param),
            Arithmetic::Field => gf_mul_spec(b, param as u8),
        }
    }

    pub open spec fn inverse_spec(self, y: u8, param: u16) -> u8 {
        match self {
            Arithmetic::Modular => mod_inverse_spec(y, param),
            Arithmetic::Field => gf_mul_spec(y, gf_inv_spec(param as u8)),
        }
    }

    pub fn pass_budget(&self) -> (r: usize)
        ensures
            r == self.budget(),
    {
        match self {
            Arithmetic::Modular => 3,
            Arithmetic::Field => 1,
        }
    }

    pub fn param(&self, i: usize) -> (r: u16)
        requires
            i < self.budget(),
        ensures
            r == self.param_spec(i as int),
    {
        match self {
            Arithmetic::Modular => if i == 0 {
                PRIME_FIRST
            } else if i == 1 {
                PRIME_SECOND
            } else {
                PRIME_THIRD
            },
            Arithmetic::Field => FIELD_PARAM,
        }
    }

    pub fn forward_step(&self, b: u8, i: usize) -> (r: u8)
        requires
            i < self.budget(),
        ensures
            r == self.forward_spec(b, self.param_spec(i as int)),
    {
        let p = self.param(i);
        match self {
            Arithmetic::Modular => modular_forward(b, p),
            Arithmetic::Field => gf_mul(b, p as u8),
        }
    }

    pub fn inverse_step(&self, y: u8, i: usize) -> (r: u8)
        requires
            i < self.budget(),
        ensures
            r == self.inverse_spec(y, self.param_spec(i as int)),
    {
        let p = self.param(i);
        match self {
            Arithmetic::Modular => modular_inverse(y, p),
            Arithmetic::Field => gf_mul(y, gf_inv(p as u8)),
        }
    }

    /// Each step is undone by its inverse, for every parameter and byte.
    pub proof fn step_round_trip(self, b: u8, i: int)
        requires
            0 <= i < self.budget(),
        ensures
            self.inverse_spec(self.forward_spec(b, self.param_spec(i)), self.param_spec(i)) == b,
    {
        match self {
            Arithmetic::Modular => modular_round_trip(b, self.param_spec(i)),
            Arithmetic::Field => field_round_trip(b),
        }
    }
}

} // verus!
