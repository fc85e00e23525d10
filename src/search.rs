//! The adaptive controller. Zone by zone it offers the candidate that each
//! unused parameter would give, is told how each candidate scores, picks the
//! best one that clears the threshold, applies it, and moves on when no
//! candidate qualifies or every parameter has been used. Scores are measured
//! outside and come in as integer keys that order as the scores do.
use vstd::prelude::*;
use crate::arith::Arithmetic;
use crate::masks::Masks;
use crate::pass::{forward_pass, inverse_pass};
use crate::zones::{
    lemma_apply_push, lemma_index_zone, lemma_transform_identity, lemma_zone_index,
    lemma_zone_of_transform, pass_spec, piece, plan_at, plan_ok, transform_spec, zone_count, zone_end,
    zone_of, zone_start, Direction, MICROZONE_SIZE,
};

verus! {

/// `i` holds the strictly largest key above `floor`, the first such on ties.
pub open spec fn is_best(keys: Seq<Option<u64>>, floor: u64, i: int) -> bool {
    &&& 0 <= i < keys.len()
    &&& keys[i] is Some
    &&& keys[i]->0 > floor
    &&& forall|j: int| 0 <= j < i && (#[trigger] keys[j]) is Some ==> keys[j]->0 < keys[i]->0
    &&& forall|j: int| i < j < keys.len() && (#[trigger] keys[j]) is Some ==> keys[j]->0 <= keys[i]->0
}

/// The index that the controller accepts: the best key, when it reaches `threshold`.
pub open spec fn accepts(keys: Seq<Option<u64>>, floor: u64, threshold: u64, i: int) -> bool {
    is_best(keys, floor, i) && keys[i]->0 >= threshold
}

/// Pick the first strictly largest key above `floor`; keep it only if it
/// reaches `threshold`.
pub fn select(keys: &Vec<Option<u64>>, floor: u64, threshold: u64) -> (r: Option<usize>)
    ensures
        match r {
            Some(i) => accepts(keys@, floor, threshold, i as int),
            None => forall|i: int| !accepts(keys@, floor, threshold, i),
        },
{
    let mut best: Option<usize> = None;
    let mut best_key: u64 = floor;
    let mut i: usize = 0;
    while i < keys.len()
        invariant
            i <= keys@.len(),
            match best {
                Some(b) => {
                    &&& b < i
                    &&& keys@[b as int] == Some(best_key)
                    &&& best_key > floor
                    &&& forall|j: int| 0 <= j < b && (#[trigger] keys@[j]) is Some ==> keys@[j]->0 < best_key
                    &&& forall|j: int| b < j < i && (#[trigger] keys@[j]) is Some ==> keys@[j]->0 <= best_key
                },
                None => {
                    &&& best_key == floor
                    &&& forall|j: int| 0 <= j < i && (#[trigger] keys@[j]) is Some ==> keys@[j]->0 <= floor
                },
            },
        decreases keys@.len() - i,
    {
        match keys[i] {
            Some(k) => {
                if k > best_key {
                    best = Some(i);
                    best_key = k;
                }
            },
            None => {},
        }
        i += 1;
    }
    match best {
        Some(b) => {
            if best_key >= threshold {
                Some(b)
            } else {
                proof {
                    assert forall|x: int| !accepts(keys@, floor, threshold, x) by {
                        if accepts(keys@, floor, threshold, x) {
                            if x < b {
                                assert(keys@[b as int] is Some);
                            } else if x > b {
                                assert(keys@[x] is Some);
                            }
                        }
                    }
                }
                None
            }
        },
        None => {
            proof {
                assert forall|x: int| !accepts(keys@, floor, threshold, x) by {
                    if accepts(keys@, floor, threshold, x) {
                        assert(keys@[x] is Some);
                    }
                }
            }
            None
        },
    }
}

/// Replace the bytes of `data` from `start` with those of `z`.
fn write_zone(data: &mut Vec<u8>, start: usize, z: &Vec<u8>)
    requires
        start + z@.len() <= old(data)@.len(),
    ensures
        final(data)@.len() == old(data)@.len(),
        forall|j: int|
            0 <= j < final(data)@.len() ==> #[trigger] final(data)@[j] == if start <= j < start + z@.len() {
                z@[j - start]
            } else {
                old(data)@[j]
            },
{
    let ghost d = data@;
    let n = data.len();
    let mut t: usize = 0;
    while t < z.len()
        invariant
            n == d.len(),
            start + z@.len() <= d.len(),
            data@.len() == d.len(),
            t <= z@.len(),
            forall|j: int|
                0 <= j < d.len() ==> #[trigger] data@[j] == if start <= j < start + t {
                    z@[j - start]
                } else {
                    d[j]
                },
        decreases z@.len() - t,
    {
        data.set(start + t, z[t]);
        t += 1;
    }
}

/// The number of zones of a buffer of `n` bytes.
pub fn count_zones(n: usize) -> (r: usize)
    ensures
        r == zone_count(n as nat),
{
    let r = n / MICROZONE_SIZE + if n % MICROZONE_SIZE == 0 {
        0
    } else {
        1
    };
    assert(r == (n + 1023) / 1024) by (nonlinear_arith)
        requires
            r == n / 1024 + if n % 1024 == 0 {
                0int
            } else {
                1int
            },
            n >= 0,
    ;
    r
}

/// A zone-by-zone run of the controller over a buffer.
pub struct Search {
    pub data: Vec<u8>,
    pub masks: Masks,
    pub arith: Arithmetic,
    pub direction: Direction,
    /// The zone under decision.
    pub zone: usize,
    /// Which parameters the current zone has taken.
    pub used: Vec<bool>,
    /// How many passes the current zone has taken.
    pub passes: usize,
    /// The buffer the run started from.
    pub original: Ghost<Seq<u8>>,
    /// The parameters each zone has taken so far, in order.
    pub plans: Ghost<Seq<Seq<int>>>,
}

impl Search {
    /// The state matches the plans: the buffer is the original with each zone's
    /// plan applied, and the current zone's plan lists exactly the used parameters.
    pub open spec fn consistent(&self) -> bool {
        let n = self.data@.len();
        let plan = self.plans@[self.zone as int];
        &&& self.masks.wf()
        &&& self.masks.len() == n
        &&& self.original@.len() == n
        &&& self.zone <= zone_count(n)
        &&& self.used@.len() == self.arith.budget()
        &&& self.plans@.len() == self.zone + 1
        &&& forall|k: int| 0 <= k < self.plans@.len() ==> plan_ok(self.arith, #[trigger] self.plans@[k])
        &&& plan.len() == self.passes
        &&& self.passes <= self.arith.budget()
        &&& forall|i: int| 0 <= i < self.arith.budget() ==> (#[trigger] self.used@[i] <==> plan.contains(i))
        &&& self.data@ == transform_spec(
            self.original@,
            self.masks.pi@,
            self.masks.phi@,
            self.masks.logistic@,
            self.arith,
            self.direction,
            self.plans@,
        )
    }

    pub open spec fn wf(&self) -> bool {
        self.consistent() && self.passes < self.arith.budget()
    }

    pub open spec fn done_spec(&self) -> bool {
        self.zone == zone_count(self.data@.len())
    }

    /// The current zone of the buffer.
    pub open spec fn zone_spec(&self) -> Seq<u8> {
        zone_of(self.data@, self.zone as int)
    }

    /// The candidate that parameter `i` gives for the current zone.
    pub open spec fn candidate_spec(&self, i: int) -> Seq<u8> {
        let k = self.zone as int;
        pass_spec(
            zone_of(self.data@, k),
            zone_of(self.masks.pi@, k),
            zone_of(self.masks.phi@, k),
            zone_of(self.masks.logistic@, k),
            self.arith,
            self.direction,
            i,
        )
    }

    /// The keys with those of used parameters taken out.
    pub open spec fn open_keys(&self, keys: Seq<Option<u64>>) -> Seq<Option<u64>> {
        Seq::new(keys.len(), |i: int| if self.used@[i] { None } else { keys[i] })
    }

    /// Start a run over `data`, at the first zone, with no pass taken.
    pub fn new(data: Vec<u8>, masks: Masks, arith: Arithmetic, direction: Direction) -> (r: Search)
        requires
            masks.wf(),
            masks.len() == data@.len(),
        ensures
            r.wf(),
            r.original@ == data@,
            r.data@ == data@,
            r.masks == masks,
            r.arith == arith,
            r.direction == direction,
            r.zone == 0,
            r.plans@ == seq![Seq::<int>::empty()],
    {
        let budget = arith.pass_budget();
        let mut used: Vec<bool> = Vec::new();
        let mut i: usize = 0;
        while i < budget
            invariant
                i <= budget,
                used@.len() == i,
                forall|j: int| 0 <= j < i ==> !(#[trigger] used@[j]),
            decreases budget - i,
        {
            used.push(false);
            i += 1;
        }
        let ghost plans = seq![Seq::<int>::empty()];
        proof {
            lemma_transform_identity(data@, masks.pi@, masks.phi@, masks.logistic@, arith, direction, plans);
            assert forall|k: int| 0 <= k < plans.len() implies plan_ok(arith, #[trigger] plans[k]) by {}
        }
        let ghost original = data@;
        Search {
            data,
            masks,
            arith,
            direction,
            zone: 0,
            used,
            passes: 0,
            original: Ghost(original),
            plans: Ghost(plans),
        }
    }

    /// Whether every zone has been decided.
    pub fn is_done(&self) -> (r: bool)
        requires
            self.wf(),
        ensures
            r == self.done_spec(),
    {
        self.zone >= count_zones(self.data.len())
    }

    /// Where the current zone starts and ends.
    fn bounds(&self) -> (r: (usize, usize))
        requires
            self.consistent(),
            !self.done_spec(),
        ensures
            r.0 == zone_start(self.zone as int),
            r.1 == zone_end(self.data@.len() as int, self.zone as int),
            r.0 < r.1 <= self.data@.len(),
    {
        let n = self.data.len();
        assert(self.zone * 1024 < n) by (nonlinear_arith)
            requires
                self.zone < (n + 1023) / 1024,
        ;
        let start = self.zone * MICROZONE_SIZE;
        let end = if n - start > MICROZONE_SIZE {
            start + MICROZONE_SIZE
        } else {
            n
        };
        (start, end)
    }

    /// The bytes of the current zone.
    pub fn zone_bytes(&self) -> (r: Vec<u8>)
        requires
            self.wf(),
            !self.done_spec(),
        ensures
            r@ == self.zone_spec(),
    {
        let (start, end) = self.bounds();
        vstd::slice::slice_to_vec(vstd::slice::slice_subrange(self.data.as_slice(), start, end))
    }

    /// The current zone after one pass with parameter `i`.
    fn candidate(&self, i: usize) -> (r: Vec<u8>)
        requires
            self.consistent(),
            !self.done_spec(),
            i < self.arith.budget(),
        ensures
            r@ == self.candidate_spec(i as int),
    {
        let (start, end) = self.bounds();
        let mut z = vstd::slice::slice_to_vec(vstd::slice::slice_subrange(self.data.as_slice(), start, end));
        let a = vstd::slice::slice_subrange(self.masks.pi.as_slice(), start, end);
        let b = vstd::slice::slice_subrange(self.masks.phi.as_slice(), start, end);
        let c = vstd::slice::slice_subrange(self.masks.logistic.as_slice(), start, end);
        match self.direction {
            Direction::Forward => forward_pass(z.as_mut_slice(), a, b, c, self.arith, i),
            Direction::Inverse => inverse_pass(z.as_mut_slice(), a, b, c, self.arith, i),
        }
        z
    }

    /// For each parameter in declaration order, the candidate it gives for the
    /// current zone, or `None` where the zone has already taken it.
    pub fn candidates(&self) -> (r: Vec<Option<Vec<u8>>>)
        requires
            self.wf(),
            !self.done_spec(),
        ensures
            r@.len() == self.arith.budget(),
            forall|i: int| 0 <= i < r@.len() ==> (#[trigger] r@[i] is None <==> self.used@[i]),
            forall|i: int|
                0 <= i < r@.len() && (#[trigger] r@[i]) is Some ==> r@[i]->0@ == self.candidate_spec(i),
    {
        let budget = self.arith.pass_budget();
        let mut out: Vec<Option<Vec<u8>>> = Vec::new();
        let mut i: usize = 0;
        while i < budget
            invariant
                self.wf(),
                !self.done_spec(),
                budget == self.arith.budget(),
                i <= budget,
                out@.len() == i,
                forall|j: int| 0 <= j < i ==> (#[trigger] out@[j] is None <==> self.used@[j]),
                forall|j: int| 0 <= j < i && (#[trigger] out@[j]) is Some ==> out@[j]->0@ == self.candidate_spec(j),
            decreases budget - i,
        {
            if self.used[i] {
                out.push(None);
            } else {
                out.push(Some(self.candidate(i)));
            }
            i += 1;
        }
        out
    }

    /// Apply parameter `i` to the current zone and record it.
    fn apply_pass(&mut self, i: usize)
        requires
            old(self).wf(),
            !old(self).done_spec(),
            i < old(self).arith.budget(),
            !old(self).used@[i as int],
        ensures
            final(self).consistent(),
            final(self).zone == old(self).zone,
            final(self).passes == old(self).passes + 1,
            final(self).plans@ == old(self).plans@.update(
                old(self).zone as int,
                old(self).plans@[old(self).zone as int].push(i as int),
            ),
            final(self).original == old(self).original,
            final(self).masks == old(self).masks,
            final(self).arith == old(self).arith,
            final(self).direction == old(self).direction,
    {
        let (start, end) = self.bounds();
        let z = self.candidate(i);
        let ghost k = self.zone as int;
        let ghost s0 = self.original@;
        let ghost old_plans = self.plans@;
        let ghost plan = old_plans[k];
        let ghost new_plans = old_plans.update(k, plan.push(i as int));
        let ghost old_data = self.data@;
        let ghost (pi, phi, lg) = (self.masks.pi@, self.masks.phi@, self.masks.logistic@);
        proof {
            lemma_zone_of_transform(s0, pi, phi, lg, self.arith, self.direction, old_plans, k);
            lemma_apply_push(
                zone_of(s0, k),
                zone_of(pi, k),
                zone_of(phi, k),
                zone_of(lg, k),
                self.arith,
                self.direction,
                plan,
                i as int,
            );
            assert(z@ == piece(s0, pi, phi, lg, self.arith, self.direction, new_plans, k));
        }
        write_zone(&mut self.data, start, &z);
        self.used.set(i, true);
        self.passes = self.passes + 1;
        self.plans = Ghost(new_plans);
        proof {
            let t = transform_spec(s0, pi, phi, lg, self.arith, self.direction, new_plans);
            assert forall|j: int| 0 <= j < self.data@.len() implies self.data@[j] == t[j] by {
                lemma_index_zone(j, self.data@.len() as int);
                let kj = j / 1024;
                if kj != k {
                    assert(plan_at(new_plans, kj) == plan_at(old_plans, kj));
                    if start <= j < start + z@.len() {
                        lemma_zone_index(j, k);
                    }
                }
            }
            assert(self.data@ =~= t);
            assert forall|m: int| 0 <= m < new_plans.len() implies plan_ok(self.arith, #[trigger] new_plans[m]) by {
                if m == k {
                    assert(plan_ok(self.arith, plan));
                    assert forall|x: int| 0 <= x < plan.push(i as int).len() implies 0 <= #[trigger] plan.push(i as int)[x] < self.arith.budget() by {
                        if x < plan.len() {
                            assert(plan.push(i as int)[x] == plan[x]);
                        }
                    }
                } else {
                    assert(new_plans[m] == old_plans[m]);
                }
            }
            assert forall|x: int| 0 <= x < self.arith.budget() implies (#[trigger] self.used@[x] <==> new_plans[k].contains(x)) by {
                if self.used@[x] && x != i {
                    assert(plan.contains(x));
                    let w = choose|w: int| 0 <= w < plan.len() && plan[w] == x;
                    assert(new_plans[k][w] == x);
                }
                if new_plans[k].contains(x) && x != i {
                    let w = choose|w: int| 0 <= w < new_plans[k].len() && new_plans[k][w] == x;
                    assert(plan[w] == x);
                }
                if x == i {
                    assert(new_plans[k][plan.len() as int] == x);
                }
            }
        }
    }

    /// Close the current zone and move to the next one, with no pass taken.
    fn next_zone(&mut self)
        requires
            old(self).consistent(),
            !old(self).done_spec(),
        ensures
            final(self).wf(),
            final(self).zone == old(self).zone + 1,
            final(self).plans@ == old(self).plans@.push(Seq::<int>::empty()),
            final(self).data@ == old(self).data@,
            final(self).original == old(self).original,
            final(self).masks == old(self).masks,
            final(self).arith == old(self).arith,
            final(self).direction == old(self).direction,
    {
        let ghost old_plans = self.plans@;
        let ghost new_plans = old_plans.push(Seq::<int>::empty());
        let budget = self.arith.pass_budget();
        let mut used: Vec<bool> = Vec::new();
        let mut i: usize = 0;
        while i < budget
            invariant
                i <= budget,
                used@.len() == i,
                forall|j: int| 0 <= j < i ==> !(#[trigger] used@[j]),
            decreases budget - i,
        {
            used.push(false);
            i += 1;
        }
        self.used = used;
        let n = self.data.len();
        assert(self.zone < n) by (nonlinear_arith)
            requires
                self.zone < (n + 1023) / 1024,
        ;
        self.zone = self.zone + 1;
        self.passes = 0;
        self.plans = Ghost(new_plans);
        proof {
            let (s0, pi, phi, lg) = (self.original@, self.masks.pi@, self.masks.phi@, self.masks.logistic@);
            assert forall|k: int| plan_at(new_plans, k) == plan_at(old_plans, k) by {}
            assert(transform_spec(s0, pi, phi, lg, self.arith, self.direction, new_plans) =~= transform_spec(
                s0,
                pi,
                phi,
                lg,
                self.arith,
                self.direction,
                old_plans,
            ));
            assert forall|k: int| 0 <= k < new_plans.len() implies plan_ok(self.arith, #[trigger] new_plans[k]) by {
                if k < old_plans.len() {
                    assert(new_plans[k] == old_plans[k]);
                }
            }
            assert forall|x: int| 0 <= x < self.arith.budget() implies (#[trigger] self.used@[x] <==> new_plans[self.zone as int].contains(x)) by {}
        }
    }

    /// Decide the current zone's next pass from the candidates' keys: take the
    /// best open key above `floor` if it reaches `threshold`, apply it, and
    /// move to the next zone when nothing qualifies or every parameter is used.
    pub fn step(&mut self, keys: &Vec<Option<u64>>, floor: u64, threshold: u64) -> (r: Option<usize>)
        requires
            old(self).wf(),
            !old(self).done_spec(),
            keys@.len() == old(self).arith.budget(),
        ensures
            final(self).wf(),
            final(self).original == old(self).original,
            final(self).masks == old(self).masks,
            final(self).arith == old(self).arith,
            final(self).direction == old(self).direction,
            match r {
                Some(i) => {
                    let k = old(self).zone as int;
                    let plans = old(self).plans@.update(k, old(self).plans@[k].push(i as int));
                    &&& accepts(old(self).open_keys(keys@), floor, threshold, i as int)
                    &&& if old(self).passes + 1 == old(self).arith.budget() {
                        final(self).plans@ == plans.push(Seq::<int>::empty()) && final(self).zone == k + 1
                    } else {
                        final(self).plans@ == plans && final(self).zone == k
                    }
                },
                None => {
                    &&& forall|i: int| !accepts(old(self).open_keys(keys@), floor, threshold, i)
                    &&& final(self).plans@ == old(self).plans@.push(Seq::<int>::empty())
                    &&& final(self).zone == old(self).zone + 1
                    &&& final(self).data@ == old(self).data@
                },
            },
    {
        let mut open: Vec<Option<u64>> = Vec::new();
        let mut i: usize = 0;
        while i < keys.len()
            invariant
                self.wf(),
                keys@.len() == self.arith.budget(),
                i <= keys@.len(),
                open@ == self.open_keys(keys@).subrange(0, i as int),
            decreases keys@.len() - i,
        {
            if self.used[i] {
                open.push(None);
            } else {
                open.push(keys[i]);
            }
            i += 1;
            assert(open@ =~= self.open_keys(keys@).subrange(0, i as int));
        }
        assert(open@ =~= self.open_keys(keys@));
        let choice = select(&open, floor, threshold);
        match choice {
            Some(c) => {
                self.apply_pass(c);
                if self.passes == self.arith.pass_budget() {
                    self.next_zone();
                }
            },
            None => {
                self.next_zone();
            },
        }
        choice
    }

    /// The buffer once every zone has been decided.
    pub fn finish(self) -> (r: Vec<u8>)
        requires
            self.wf(),
            self.done_spec(),
        ensures
            r@ == transform_spec(
                self.original@,
                self.masks.pi@,
                self.masks.phi@,
                self.masks.logistic@,
                self.arith,
                self.direction,
                self.plans@,
            ),
    {
        self.data
    }
}

} // verus!