//! Edge decay: an edge created at a discrete time keeps a unit strength at
//! its creation instant, and its weight is multiplied by a fixed retention
//! factor for every time step that passes.  A retention factor `r` stands
//! for the continuous decay `exp(-k)` per step, so the weight at query time
//! `t >= creation` is exactly `r ^ (t - creation)`.

use crate::rational::{rat_fits, rat_mul, rat_one, rat_zero, Rat, Ratio};
use vstd::prelude::*;

verus! {

/// A directed edge, created at a discrete time.
#[derive(Clone, Copy, Debug, PartialEq, Eq, Structural)]
pub struct Edge {
    pub source: usize,
    pub target: usize,
    pub time_of_creation: u64,
}

/// `r ^ k`, as an unreduced fraction.
pub open spec fn rat_pow(r: Rat, k: nat) -> Rat
    decreases k,
{
    if k == 0 {
        rat_one()
    } else {
        rat_mul(rat_pow(r, (k - 1) as nat), r)
    }
}

/// The weight of an edge at a query time: zero before the edge exists,
/// otherwise the retention factor raised to the elapsed time.
pub open spec fn spec_current_weight(creation: int, query: int, r: Rat) -> Rat {
    if query < creation {
        rat_zero()
    } else {
        rat_pow(r, (query - creation) as nat)
    }
}

/// The decayed weight of `edge` at `query_time` with the given per-step
/// retention factor.  Exact: `None` only when an intermediate power does not
/// fit the executable fraction.
pub fn current_weight(edge: &Edge, query_time: u64, retention: Ratio) -> (w: Option<Ratio>)
    requires
        retention.wf(),
    ensures
        w is Some ==> (w->Some_0).wf() && (w->Some_0)@ == spec_current_weight(
            edge.time_of_creation as int,
            query_time as int,
            retention@,
        ),
        w is Some <==> (query_time <= edge.time_of_creation || (forall|j: nat|
            1 <= j <= query_time - edge.time_of_creation ==> rat_fits(
                #[trigger] rat_pow(retention@, j),
            ))),
{
    if query_time < edge.time_of_creation {
        return Some(Ratio::zero());
    }
    let steps: u64 = query_time - edge.time_of_creation;
    let mut w = Ratio::one();
    let mut i: u64 = 0;
    while i < steps
        invariant
            i <= steps,
            edge.time_of_creation <= query_time,
            steps == query_time - edge.time_of_creation,
            w.wf(),
            retention.wf(),
            w@ == rat_pow(retention@, i as nat),
            forall|j: nat| 1 <= j <= i ==> rat_fits(#[trigger] rat_pow(retention@, j)),
        decreases steps - i,
    {
        match w.checked_mul(retention) {
            Some(next) => {
                assert(next@ == rat_pow(retention@, (i + 1) as nat));
                w = next;
            },
            None => {
                assert(!rat_fits(rat_pow(retention@, (i + 1) as nat)));
                return None;
            },
        }
        i = i + 1;
    }
    Some(w)
}

/// At its creation instant an edge weighs exactly one, whatever the
/// retention factor; before its creation it weighs exactly zero.
pub proof fn lemma_weight_at_creation(creation: int, query: int, r: Rat)
    ensures
        spec_current_weight(creation, creation, r) == rat_one(),
        query < creation ==> spec_current_weight(creation, query, r) == rat_zero(),
{
}

} // verus!
