//! One reversible pass over a zone: mask, multiply, mask, swap adjacent
//! pairs, mask; and its mirror.
use vstd::prelude::*;
use crate::arith::Arithmetic;

verus! {

/// The partner of position `i` under the pair swap of a zone of length `n`:
/// neighbours swap when `n` is even, and nothing moves when it is odd.
pub open spec fn swap_index(i: int, n: int) -> int {
    if n % 2 == 0 {
        if i % 2 == 0 {
            i + 1
        } else {
            i - 1
        }
    } else {
        i
    }
}

pub open spec fn xor_seq(s: Seq<u8>, m: Seq<u8>) -> Seq<u8> {
    Seq::new(s.len(), |i: int| s[i] ^ m[i])
}

pub open spec fn pair_swap(s: Seq<u8>) -> Seq<u8> {
    Seq::new(s.len(), |i: int| s[swap_index(i, s.len() as int)])
}

/// Mask with `a`, take the forward step, mask with `b`.
pub open spec fn premix(z: Seq<u8>, a: Seq<u8>, b: Seq<u8>, arith: Arithmetic, p: u16) -> Seq<u8> {
    Seq::new(z.len(), |i: int| arith.forward_spec(z[i] ^ a[i], p) ^ b[i])
}

/// Unmask `b`, take the inverse step, unmask `a`.
pub open spec fn postmix(u: Seq<u8>, a: Seq<u8>, b: Seq<u8>, arith: Arithmetic, p: u16) -> Seq<u8> {
    Seq::new(u.len(), |i: int| arith.inverse_spec(u[i] ^ b[i], p) ^ a[i])
}

pub open spec fn forward_pass_spec(
    z: Seq<u8>,
    a: Seq<u8>,
    b: Seq<u8>,
    c: Seq<u8>,
    arith: Arithmetic,
    p: u16,
) -> Seq<u8> {
    xor_seq(pair_swap(premix(z, a, b, arith, p)), c)
}

pub open spec fn inverse_pass_spec(
    z: Seq<u8>,
    a: Seq<u8>,
    b: Seq<u8>,
    c: Seq<u8>,
    arith: Arithmetic,
    p: u16,
) -> Seq<u8> {
    postmix(pair_swap(xor_seq(z, c)), a, b, arith, p)
}

proof fn lemma_xor_cancel(x: u8, y: u8)
    by (bit_vector)
    ensures
        (x ^ y) ^ y == x,
{
}

proof fn lemma_swap_index(i: int, n: int)
    requires
        0 <= i < n,
    ensures
        0 <= swap_index(i, n) < n,
        swap_index(swap_index(i, n), n) == i,
{
}

/// XOR `mask` into `data`, byte by byte.
pub fn xor_in_place(data: &mut [u8], mask: &[u8])
    requires
        mask@.len() == old(data)@.len(),
    ensures
        final(data)@ == xor_seq(old(data)@, mask@),
{
    let ghost z = data@;
    let n = data.len();
    let mut i: usize = 0;
    while i < n
        invariant
            n == data@.len(),
            n == z.len(),
            mask@.len() == n,
            i <= n,
            forall|j: int| 0 <= j < i ==> data@[j] == z[j] ^ mask@[j],
            forall|j: int| i <= j < n ==> data@[j] == z[j],
        decreases n - i,
    {
        data[i] = data[i] ^ mask[i];
        i += 1;
    }
    assert(data@ =~= xor_seq(z, mask@));
}

/// Swap every adjacent pair when the length is even; leave odd lengths alone.
pub fn swap_pairs(data: &mut [u8])
    ensures
        final(data)@ == pair_swap(old(data)@),
{
    let ghost z = data@;
    let n = data.len();
    if n % 2 == 0 {
        let mut k: usize = 0;
        while k < n
            invariant
                n == data@.len(),
                n == z.len(),
                n % 2 == 0,
                k % 2 == 0,
                k <= n,
                forall|j: int| 0 <= j < k ==> data@[j] == z[swap_index(j, n as int)],
                forall|j: int| k <= j < n ==> data@[j] == z[j],
            decreases n - k,
        {
            let t = data[k];
            data[k] = data[k + 1];
            data[k + 1] = t;
            k += 2;
        }
    }
    assert(data@ =~= pair_swap(z));
}

/// The forward pass with parameter `param` of `arith` and the three masks.
pub fn forward_pass(
    data: &mut [u8],
    pi: &[u8],
    phi: &[u8],
    logistic: &[u8],
    arith: Arithmetic,
    param: usize,
)
    requires
        pi@.len() == old(data)@.len(),
        phi@.len() == old(data)@.len(),
        logistic@.len() == old(data)@.len(),
        param < arith.budget(),
    ensures
        final(data)@ == forward_pass_spec(
            old(data)@,
            pi@,
            phi@,
            logistic@,
            arith,
            arith.param_spec(param as int),
        ),
{
    let ghost z = data@;
    let ghost p = arith.param_spec(param as int);
    let n = data.len();
    let mut i: usize = 0;
    while i < n
        invariant
            n == data@.len(),
            n == z.len(),
            pi@.len() == n,
            phi@.len() == n,
            param < arith.budget(),
            p == arith.param_spec(param as int),
            i <= n,
            forall|j: int| 0 <= j < i ==> data@[j] == premix(z, pi@, phi@, arith, p)[j],
            forall|j: int| i <= j < n ==> data@[j] == z[j],
        decreases n - i,
    {
        let m = arith.forward_step(data[i] ^ pi[i], param);
        data[i] = m ^ phi[i];
        i += 1;
    }
    assert(data@ =~= premix(z, pi@, phi@, arith, p));
    swap_pairs(data);
    xor_in_place(data, logistic);
}

/// The inverse pass: the forward pass's stages undone in reverse order.
pub fn inverse_pass(
    data: &mut [u8],
    pi: &[u8],
    phi: &[u8],
    logistic: &[u8],
    arith: Arithmetic,
    param: usize,
)
    requires
        pi@.len() == old(data)@.len(),
        phi@.len() == old(data)@.len(),
        logistic@.len() == old(data)@.len(),
        param < arith.budget(),
    ensures
        final(data)@ == inverse_pass_spec(
            old(data)@,
            pi@,
            phi@,
            logistic@,
            arith,
            arith.param_spec(param as int),
        ),
{
    let ghost p = arith.param_spec(param as int);
    xor_in_place(data, logistic);
    swap_pairs(data);
    let ghost u = data@;
    let n = data.len();
    let mut i: usize = 0;
    while i < n
        invariant
            n == data@.len(),
            n == u.len(),
            pi@.len() == n,
            phi@.len() == n,
            param < arith.budget(),
            p == arith.param_spec(param as int),
            i <= n,
            forall|j: int| 0 <= j < i ==> data@[j] == postmix(u, pi@, phi@, arith, p)[j],
            forall|j: int| i <= j < n ==> data@[j] == u[j],
        decreases n - i,
    {
        let m = arith.inverse_step(data[i] ^ phi[i], param);
        data[i] = m ^ pi[i];
        i += 1;
    }
    assert(data@ =~= postmix(u, pi@, phi@, arith, p));
}

/// For every parameter and matching masks, the inverse pass undoes the forward pass.
pub proof fn pass_round_trip(
    z: Seq<u8>,
    a: Seq<u8>,
    b: Seq<u8>,
    c: Seq<u8>,
    arith: Arithmetic,
    i: int,
)
    requires
        a.len() == z.len(),
        b.len() == z.len(),
        c.len() == z.len(),
        0 <= i < arith.budget(),
    ensures
        inverse_pass_spec(
            forward_pass_spec(z, a, b, c, arith, arith.param_spec(i)),
            a,
            b,
            c,
            arith,
            arith.param_spec(i),
        ) == z,
{
    let p = arith.param_spec(i);
    let n = z.len() as int;
    let t = premix(z, a, b, arith, p);
    let f = forward_pass_spec(z, a, b, c, arith, p);
    let u = pair_swap(xor_seq(f, c));
    assert forall|j: int| 0 <= j < n implies u[j] == t[j] by {
        lemma_swap_index(j, n);
        let s = swap_index(j, n);
        lemma_swap_index(s, n);
        lemma_xor_cancel(t[swap_index(s, n)], c[s]);
    }
    let r = inverse_pass_spec(f, a, b, c, arith, p);
    assert forall|j: int| 0 <= j < n implies r[j] == z[j] by {
        lemma_xor_cancel(arith.forward_spec(z[j] ^ a[j], p), b[j]);
        arith.step_round_trip(z[j] ^ a[j], i);
        lemma_xor_cancel(z[j], a[j]);
    }
    assert(r =~= z);
}

} // verus!
