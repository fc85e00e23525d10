//! Zones and the passes applied to them: what a whole buffer becomes when each
//! zone takes its own sequence of passes, and why such a sequence is undone by
//! its reverse.
use vstd::prelude::*;
use crate::arith::Arithmetic;
use crate::pass::{forward_pass_spec, inverse_pass_spec, pass_round_trip};

verus! {

/// The length of a zone; the last zone of a buffer may be shorter.
pub const MICROZONE_SIZE: usize = 1024;

/// Which way passes are applied.
#[derive(Clone, Copy, Debug, PartialEq, Eq, Structural)]
pub enum Direction {
    Forward,
    Inverse,
}

pub open spec fn zone_start(k: int) -> int {
    k * 1024
}

pub open spec fn zone_end(n: int, k: int) -> int {
    if (k + 1) * 1024 < n {
        (k + 1) * 1024
    } else {
        n
    }
}

/// How many zones a buffer of `n` bytes has.
pub open spec fn zone_count(n: nat) -> nat {
    ((n + 1023) / 1024) as nat
}

/// Zone `k` of `s`.
pub open spec fn zone_of(s: Seq<u8>, k: int) -> Seq<u8> {
    s.subrange(zone_start(k), zone_end(s.len() as int, k))
}

/// One pass with the parameter of index `i`.
pub open spec fn pass_spec(
    z: Seq<u8>,
    a: Seq<u8>,
    b: Seq<u8>,
    c: Seq<u8>,
    arith: Arithmetic,
    dir: Direction,
    i: int,
) -> Seq<u8> {
    match dir {
        Direction::Forward => forward_pass_spec(z, a, b, c, arith, arith.param_spec(i)),
        Direction::Inverse => inverse_pass_spec(z, a, b, c, arith, arith.param_spec(i)),
    }
}

/// The passes of `plan` applied to `z` in order.
pub open spec fn zone_apply(
    z: Seq<u8>,
    a: Seq<u8>,
    b: Seq<u8>,
    c: Seq<u8>,
    arith: Arithmetic,
    dir: Direction,
    plan: Seq<int>,
) -> Seq<u8>
    decreases plan.len(),
{
    if plan.len() == 0 {
        z
    } else {
        zone_apply(pass_spec(z, a, b, c, arith, dir, plan[0]), a, b, c, arith, dir, plan.drop_first())
    }
}

pub open spec fn reversed(p: Seq<int>) -> Seq<int>
    decreases p.len(),
{
    if p.len() == 0 {
        p
    } else {
        reversed(p.drop_first()).push(p[0])
    }
}

/// Every entry of `plan` names a parameter of `arith`.
pub open spec fn plan_ok(arith: Arithmetic, plan: Seq<int>) -> bool {
    forall|j: int| 0 <= j < plan.len() ==> 0 <= #[trigger] plan[j] < arith.budget()
}

/// The plan of zone `k`: none for a zone that `plans` does not reach.
pub open spec fn plan_at(plans: Seq<Seq<int>>, k: int) -> Seq<int> {
    if 0 <= k < plans.len() {
        plans[k]
    } else {
        Seq::empty()
    }
}

/// Zone `k` of `s` after its passes.
pub open spec fn piece(
    s: Seq<u8>,
    pi: Seq<u8>,
    phi: Seq<u8>,
    logistic: Seq<u8>,
    arith: Arithmetic,
    dir: Direction,
    plans: Seq<Seq<int>>,
    k: int,
) -> Seq<u8> {
    zone_apply(
        zone_of(s, k),
        zone_of(pi, k),
        zone_of(phi, k),
        zone_of(logistic, k),
        arith,
        dir,
        plan_at(plans, k),
    )
}

/// The buffer `s` with every zone `k` after the passes of `plans[k]`.
pub open spec fn transform_spec(
    s: Seq<u8>,
    pi: Seq<u8>,
    phi: Seq<u8>,
    logistic: Seq<u8>,
    arith: Arithmetic,
    dir: Direction,
    plans: Seq<Seq<int>>,
) -> Seq<u8> {
    Seq::new(
        s.len(),
        |j: int| piece(s, pi, phi, logistic, arith, dir, plans, j / 1024)[j % 1024],
    )
}

/// Every zone's plan reversed.
pub open spec fn reversed_plans(plans: Seq<Seq<int>>) -> Seq<Seq<int>> {
    Seq::new(plans.len(), |k: int| reversed(plans[k]))
}

pub proof fn lemma_pass_len(
    z: Seq<u8>,
    a: Seq<u8>,
    b: Seq<u8>,
    c: Seq<u8>,
    arith: Arithmetic,
    dir: Direction,
    plan: Seq<int>,
)
    requires
        a.len() == z.len(),
        b.len() == z.len(),
        c.len() == z.len(),
    ensures
        zone_apply(z, a, b, c, arith, dir, plan).len() == z.len(),
    decreases plan.len(),
{
    if plan.len() > 0 {
        lemma_pass_len(pass_spec(z, a, b, c, arith, dir, plan[0]), a, b, c, arith, dir, plan.drop_first());
    }
}

/// Applying `plan` and then `x` is applying `plan.push(x)`.
pub proof fn lemma_apply_push(
    z: Seq<u8>,
    a: Seq<u8>,
    b: Seq<u8>,
    c: Seq<u8>,
    arith: Arithmetic,
    dir: Direction,
    plan: Seq<int>,
    x: int,
)
    ensures
        zone_apply(z, a, b, c, arith, dir, plan.push(x)) == pass_spec(
            zone_apply(z, a, b, c, arith, dir, plan),
            a,
            b,
            c,
            arith,
            dir,
            x,
        ),
    decreases plan.len(),
{
    if plan.len() == 0 {
        assert(plan.push(x).drop_first() =~= Seq::<int>::empty());
        reveal_with_fuel(zone_apply, 2);
    } else {
        assert(plan.push(x)[0] == plan[0]);
        assert(plan.push(x).drop_first() =~= plan.drop_first().push(x));
        lemma_apply_push(pass_spec(z, a, b, c, arith, dir, plan[0]), a, b, c, arith, dir, plan.drop_first(), x);
    }
}

/// Undoing the passes of a zone in reverse order gives the zone back.
pub proof fn zone_round_trip(
    z: Seq<u8>,
    a: Seq<u8>,
    b: Seq<u8>,
    c: Seq<u8>,
    arith: Arithmetic,
    plan: Seq<int>,
)
    requires
        a.len() == z.len(),
        b.len() == z.len(),
        c.len() == z.len(),
        plan_ok(arith, plan),
    ensures
        zone_apply(
            zone_apply(z, a, b, c, arith, Direction::Forward, plan),
            a,
            b,
            c,
            arith,
            Direction::Inverse,
            reversed(plan),
        ) == z,
    decreases plan.len(),
{
    if plan.len() > 0 {
        let x = plan[0];
        let rest = plan.drop_first();
        let y = forward_pass_spec(z, a, b, c, arith, arith.param_spec(x));
        assert(y.len() == z.len());
        assert(plan_ok(arith, rest)) by {
            assert forall|j: int| 0 <= j < rest.len() implies 0 <= #[trigger] rest[j] < arith.budget() by {
                assert(rest[j] == plan[j + 1]);
            }
        }
        zone_round_trip(y, a, b, c, arith, rest);
        let f = zone_apply(z, a, b, c, arith, Direction::Forward, plan);
        lemma_apply_push(f, a, b, c, arith, Direction::Inverse, reversed(rest), x);
        pass_round_trip(z, a, b, c, arith, x);
    }
}

pub proof fn lemma_zone_index(j: int, k: int)
    requires
        zone_start(k) <= j < zone_start(k) + 1024,
        0 <= k,
    ensures
        j / 1024 == k,
        j % 1024 == j - zone_start(k),
{
    assert(j / 1024 == k) by (nonlinear_arith)
        requires
            k * 1024 <= j < k * 1024 + 1024,
    ;
}

pub proof fn lemma_index_zone(j: int, n: int)
    requires
        0 <= j < n,
    ensures
        0 <= j / 1024 < zone_count(n as nat),
        zone_start(j / 1024) <= j < zone_end(n, j / 1024),
        j % 1024 == j - zone_start(j / 1024),
{
    assert(0 <= j / 1024 <= (n - 1) / 1024) by (nonlinear_arith)
        requires
            0 <= j < n,
    ;
    assert((j / 1024) * 1024 <= j < (j / 1024) * 1024 + 1024) by (nonlinear_arith)
        requires
            0 <= j,
    ;
}

/// Zone `k` of a transformed buffer is the transformed zone.
pub proof fn lemma_zone_of_transform(
    s: Seq<u8>,
    pi: Seq<u8>,
    phi: Seq<u8>,
    logistic: Seq<u8>,
    arith: Arithmetic,
    dir: Direction,
    plans: Seq<Seq<int>>,
    k: int,
)
    requires
        pi.len() == s.len(),
        phi.len() == s.len(),
        logistic.len() == s.len(),
        0 <= k < zone_count(s.len()),
    ensures
        zone_of(transform_spec(s, pi, phi, logistic, arith, dir, plans), k) == piece(
            s,
            pi,
            phi,
            logistic,
            arith,
            dir,
            plans,
            k,
        ),
{
    let t = transform_spec(s, pi, phi, logistic, arith, dir, plans);
    let p = piece(s, pi, phi, logistic, arith, dir, plans, k);
    assert(zone_start(k) < s.len()) by (nonlinear_arith)
        requires
            0 <= k < (s.len() + 1023) / 1024,
    ;
    lemma_pass_len(
        zone_of(s, k),
        zone_of(pi, k),
        zone_of(phi, k),
        zone_of(logistic, k),
        arith,
        dir,
        plan_at(plans, k),
    );
    assert forall|i: int| 0 <= i < p.len() implies zone_of(t, k)[i] == p[i] by {
        lemma_zone_index(zone_start(k) + i, k);
    }
    assert(zone_of(t, k) =~= p);
}

/// With no passes planned, a buffer stays as it is.
pub proof fn lemma_transform_identity(
    s: Seq<u8>,
    pi: Seq<u8>,
    phi: Seq<u8>,
    logistic: Seq<u8>,
    arith: Arithmetic,
    dir: Direction,
    plans: Seq<Seq<int>>,
)
    requires
        forall|k: int| 0 <= k < plans.len() ==> (#[trigger] plans[k]).len() == 0,
    ensures
        transform_spec(s, pi, phi, logistic, arith, dir, plans) == s,
{
    let t = transform_spec(s, pi, phi, logistic, arith, dir, plans);
    assert forall|j: int| 0 <= j < s.len() implies t[j] == s[j] by {
        lemma_index_zone(j, s.len() as int);
        let k = j / 1024;
        if 0 <= k < plans.len() {
            assert(plans[k].len() == 0);
        }
    }
    assert(t =~= s);
}

/// Decoding every zone with the passes of its encoding in reverse order gives
/// back the original buffer.
pub proof fn transform_round_trip(
    s: Seq<u8>,
    pi: Seq<u8>,
    phi: Seq<u8>,
    logistic: Seq<u8>,
    arith: Arithmetic,
    plans: Seq<Seq<int>>,
)
    requires
        pi.len() == s.len(),
        phi.len() == s.len(),
        logistic.len() == s.len(),
        forall|k: int| 0 <= k < plans.len() ==> plan_ok(arith, #[trigger] plans[k]),
    ensures
        transform_spec(
            transform_spec(s, pi, phi, logistic, arith, Direction::Forward, plans),
            pi,
            phi,
            logistic,
            arith,
            Direction::Inverse,
            reversed_plans(plans),
        ) == s,
{
    let f = transform_spec(s, pi, phi, logistic, arith, Direction::Forward, plans);
    let r = transform_spec(f, pi, phi, logistic, arith, Direction::Inverse, reversed_plans(plans));
    assert forall|j: int| 0 <= j < s.len() implies r[j] == s[j] by {
        let k = j / 1024;
        lemma_index_zone(j, s.len() as int);
        lemma_zone_of_transform(s, pi, phi, logistic, arith, Direction::Forward, plans, k);
        assert(plan_at(reversed_plans(plans), k) == reversed(plan_at(plans, k)));
        if 0 <= k < plans.len() {
            assert(plan_ok(arith, plans[k]));
        }
        zone_round_trip(
            zone_of(s, k),
            zone_of(pi, k),
            zone_of(phi, k),
            zone_of(logistic, k),
            arith,
            plan_at(plans, k),
        );
    }
    assert(r =~= s);
}

} // verus!
