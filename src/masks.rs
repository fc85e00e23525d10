//! The three masks of an operation. The first two come from a seeded
//! pseudorandom generator; the third, from the logistic map, is handed in.
use vstd::prelude::*;

verus! {

pub const PI_SEED: u64 = 3141592653;
pub const PHI_SEED: u64 = 1618033988;
/// The seed that selects the logistic-map generator instead of the general one.
pub const LOGISTIC_SEED: u64 = 2718281828;

/// The first `len` bytes drawn from the standard generator seeded with `seed`.
pub uninterp spec fn prng_bytes(seed: u64, len: nat) -> Seq<u8>;

/// Relies on rand's `StdRng::seed_from_u64` and `Rng::gen::<u8>`: a generator
/// seeded with `seed` and read one byte at a time, which gives the same bytes
/// for the same seed and length.
#[verifier::external_body]
fn draw_bytes(seed: u64, size: usize) -> (r: Vec<u8>)
    ensures
        r@ == prng_bytes(seed, size as nat),
        r@.len() == size,
{
    let mut rng = <rand::rngs::StdRng as rand::SeedableRng>::seed_from_u64(seed);
    (0..size).map(|_| rand::Rng::gen::<u8>(&mut rng)).collect()
}

/// The mask of `size` bytes that the general generator gives for `seed`.
pub fn prng_mask(seed: u64, size: usize) -> (r: Vec<u8>)
    ensures
        r@ == prng_bytes(seed, size as nat),
        r@.len() == size,
{
    draw_bytes(seed, size)
}

/// The masks of one operation, each as long as the data.
pub struct Masks {
    pub pi: Vec<u8>,
    pub phi: Vec<u8>,
    pub logistic: Vec<u8>,
}

impl Masks {
    pub open spec fn len(&self) -> nat {
        self.pi@.len()
    }

    pub open spec fn wf(&self) -> bool {
        &&& self.phi@.len() == self.pi@.len()
        &&& self.logistic@.len() == self.pi@.len()
    }

    /// The masks for data of `size` bytes, with the logistic mask given.
    pub fn new(size: usize, logistic: Vec<u8>) -> (r: Masks)
        requires
            logistic@.len() == size,
        ensures
            r.wf(),
            r.len() == size,
            r.pi@ == prng_bytes(PI_SEED, size as nat),
            r.phi@ == prng_bytes(PHI_SEED, size as nat),
            r.logistic@ == logistic@,
    {
        Masks { pi: prng_mask(PI_SEED, size), phi: prng_mask(PHI_SEED, size), logistic }
    }
}

} // verus!
