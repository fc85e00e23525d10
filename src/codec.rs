//! What the whole codec guarantees: compressing transforms every zone and
//! frames the result; decompressing checks the frame and transforms back.
use vstd::prelude::*;
use crate::arith::Arithmetic;
use crate::container::{check_spec, container_spec, payload_of, pow256, sealed_is_valid, CodecError};
use crate::zones::{plan_ok, reversed_plans, transform_round_trip, transform_spec, Direction};

verus! {

/// A compressed container is sixteen bytes longer than its input.
pub proof fn compressed_size(
    data: Seq<u8>,
    pi: Seq<u8>,
    phi: Seq<u8>,
    logistic: Seq<u8>,
    arith: Arithmetic,
    plans: Seq<Seq<int>>,
)
    requires
        data.len() < pow256(8),
    ensures
        container_spec(transform_spec(data, pi, phi, logistic, arith, Direction::Forward, plans)).len()
            == 16 + data.len(),
{
    sealed_is_valid(transform_spec(data, pi, phi, logistic, arith, Direction::Forward, plans));
}

/// A compressed container passes every check, and when decoding takes each
/// zone's passes in the reverse order of encoding, it gives back the input.
pub proof fn round_trip(
    data: Seq<u8>,
    pi: Seq<u8>,
    phi: Seq<u8>,
    logistic: Seq<u8>,
    arith: Arithmetic,
    plans: Seq<Seq<int>>,
)
    requires
        data.len() < pow256(8),
        pi.len() == data.len(),
        phi.len() == data.len(),
        logistic.len() == data.len(),
        forall|k: int| 0 <= k < plans.len() ==> plan_ok(arith, #[trigger] plans[k]),
    ensures
        ({
            let sealed = container_spec(
                transform_spec(data, pi, phi, logistic, arith, Direction::Forward, plans),
            );
            &&& check_spec(sealed) == Ok::<(), CodecError>(())
            &&& transform_spec(
                payload_of(sealed),
                pi,
                phi,
                logistic,
                arith,
                Direction::Inverse,
                reversed_plans(plans),
            ) == data
        }),
{
    let t = transform_spec(data, pi, phi, logistic, arith, Direction::Forward, plans);
    sealed_is_valid(t);
    transform_round_trip(data, pi, phi, logistic, arith, plans);
}

} // verus!
