//! The teleportation (restart) distribution.
//!
//! Every node receives the base share `(1 - expertFraction) / numNodes`;
//! every distinct expert node additionally receives an equal cut
//! `expertFraction / |distinct experts|`.  Duplicate entries in the expert
//! list are idempotent: an expert counted twice gets no double bonus.

use crate::engine::RankError;
use crate::rational::{
    lemma_pos_mul, rat_add, rat_div_int, rat_fits, rat_lt, rat_one, rat_sub, rat_wf, rat_zero,
    Rat, Ratio,
};
use vstd::prelude::*;

verus! {

/// Whether node `i` stands in the expert list.
pub open spec fn is_expert(experts: Seq<usize>, i: int) -> bool {
    exists|q: int| 0 <= q < experts.len() && (#[trigger] experts[q]) as int == i
}

/// How many of the node ids below `m` stand in the expert list: the number
/// of distinct experts when every listed expert is below `m`.
pub open spec fn count_experts(experts: Seq<usize>, m: int) -> int
    decreases m,
{
    if m <= 0 {
        0
    } else {
        count_experts(experts, m - 1) + if is_expert(experts, m - 1) {
            1int
        } else {
            0int
        }
    }
}

pub proof fn lemma_count_experts_bound(experts: Seq<usize>, m: int)
    ensures
        0 <= count_experts(experts, m) <= if m <= 0 {
            0int
        } else {
            m
        },
    decreases m,
{
    if m > 0 {
        lemma_count_experts_bound(experts, m - 1);
    }
}

/// A node that stands in the list makes the count positive.
pub proof fn lemma_count_experts_pos(experts: Seq<usize>, i: int, m: int)
    requires
        0 <= i < m,
        is_expert(experts, i),
    ensures
        count_experts(experts, m) >= 1,
    decreases m,
{
    lemma_count_experts_bound(experts, i);
    if i < m - 1 {
        lemma_count_experts_pos(experts, i, m - 1);
    }
}

/// The base share every node receives: `(1 - f) / n`.
pub open spec fn spec_base_share(f: Rat, n: int) -> Rat {
    rat_div_int(rat_sub(rat_one(), f), n)
}

/// The bonus every distinct expert receives: `f / k`.
pub open spec fn spec_expert_bonus(f: Rat, k: int) -> Rat {
    rat_div_int(f, k)
}

/// Node `i`'s teleportation share, with `k` distinct experts among `n` nodes.
pub open spec fn spec_teleport_entry(experts: Seq<usize>, f: Rat, n: int, k: int, i: int) -> Rat {
    if is_expert(experts, i) {
        rat_add(spec_base_share(f, n), spec_expert_bonus(f, k))
    } else {
        spec_base_share(f, n)
    }
}

/// What the builder validates: at least one node, every expert id in range,
/// and a nonzero fraction only with a non-empty expert list.
pub open spec fn valid_teleport_inputs(num_nodes: int, experts: Seq<usize>, f: Rat) -> bool {
    &&& num_nodes >= 1
    &&& forall|q: int| 0 <= q < experts.len() ==> (#[trigger] experts[q]) < num_nodes
    &&& (experts.len() == 0 ==> f.n == 0)
}

/// Whether every value the builder computes fits the `i64` carrier.
pub open spec fn teleport_fits(experts: Seq<usize>, f: Rat, n: int) -> bool {
    let omf = rat_sub(rat_one(), f);
    let base = spec_base_share(f, n);
    let k = count_experts(experts, n);
    &&& n <= i64::MAX
    &&& rat_fits(omf)
    &&& rat_fits(base)
    &&& (k == 0 || (rat_fits(spec_expert_bonus(f, k)) && rat_fits(
        rat_add(base, spec_expert_bonus(f, k)),
    )))
}

/// Whether `node` stands in the expert list.
fn contains_expert(experts: &Vec<usize>, node: usize) -> (b: bool)
    ensures
        b == is_expert(experts@, node as int),
{
    let mut j: usize = 0;
    while j < experts.len()
        invariant
            j <= experts.len(),
            forall|q: int| 0 <= q < j ==> (#[trigger] experts@[q]) as int != node as int,
        decreases experts.len() - j,
    {
        if experts[j] == node {
            assert(is_expert(experts@, node as int)) by {
                assert((experts@[j as int]) as int == node as int);
            }
            return true;
        }
        j = j + 1;
    }
    false
}

/// The teleportation vector over `num_nodes` nodes.
///
/// Exact: an `Ok` vector holds, entry by entry, the base share plus the
/// expert bonus exactly where the node stands in the expert list.
/// `InvalidInput` reports exactly a node count of zero, an expert id out of
/// range, or a nonzero fraction with an empty expert list; `Ok` comes
/// precisely on valid inputs whose shares fit the carrier.
pub fn build_teleport_vector(
    num_nodes: usize,
    expert_nodes: &Vec<usize>,
    expert_fraction: Ratio,
) -> (r: Result<Vec<Ratio>, RankError>)
    requires
        expert_fraction.wf(),
    ensures
        (r matches Err(e) && e == RankError::InvalidInput) <==> !valid_teleport_inputs(
            num_nodes as int,
            expert_nodes@,
            expert_fraction@,
        ),
        r is Ok <==> (valid_teleport_inputs(num_nodes as int, expert_nodes@, expert_fraction@)
            && teleport_fits(expert_nodes@, expert_fraction@, num_nodes as int)),
        r matches Ok(v) ==> {
            &&& v@.len() == num_nodes
            &&& forall|i: int|
                0 <= i < num_nodes ==> (#[trigger] v@[i]).wf() && v@[i]@ == spec_teleport_entry(
                    expert_nodes@,
                    expert_fraction@,
                    num_nodes as int,
                    count_experts(expert_nodes@, num_nodes as int),
                    i,
                )
        },
{
    // Validation: fail fast, before any arithmetic.
    if num_nodes == 0 {
        return Err(RankError::InvalidInput);
    }
    let mut j: usize = 0;
    while j < expert_nodes.len()
        invariant
            j <= expert_nodes.len(),
            forall|q: int| 0 <= q < j ==> (#[trigger] expert_nodes@[q]) < num_nodes,
        decreases expert_nodes.len() - j,
    {
        if expert_nodes[j] >= num_nodes {
            return Err(RankError::InvalidInput);
        }
        j = j + 1;
    }
    if expert_nodes.len() == 0 && expert_fraction.num != 0 {
        return Err(RankError::InvalidInput);
    }
    // Machine limit: the node count must fit the carrier.
    if num_nodes as u64 > i64::MAX as u64 {
        return Err(RankError::Overflow);
    }
    // The number of distinct experts.
    let mut k: usize = 0;
    let mut i: usize = 0;
    while i < num_nodes
        invariant
            i <= num_nodes,
            k == count_experts(expert_nodes@, i as int),
            0 <= k <= i,
        decreases num_nodes - i,
    {
        if contains_expert(expert_nodes, i) {
            k = k + 1;
        }
        i = i + 1;
    }
    // The shares.
    let omf = match Ratio::one().checked_sub(expert_fraction) {
        Some(x) => x,
        None => {
            return Err(RankError::Overflow);
        },
    };
    let base = match omf.checked_div_int(num_nodes as i64) {
        Some(x) => x,
        None => {
            return Err(RankError::Overflow);
        },
    };
    let expert_entry: Option<Ratio> = if k > 0 {
        let bonus = match expert_fraction.checked_div_int(k as i64) {
            Some(x) => x,
            None => {
                return Err(RankError::Overflow);
            },
        };
        match base.checked_add(bonus) {
            Some(x) => Some(x),
            None => {
                return Err(RankError::Overflow);
            },
        }
    } else {
        None
    };
    let ghost kk = count_experts(expert_nodes@, num_nodes as int);
    let mut out: Vec<Ratio> = Vec::new();
    let mut i: usize = 0;
    while i < num_nodes
        invariant
            i <= num_nodes,
            1 <= num_nodes <= i64::MAX,
            k as int == kk,
            kk == count_experts(expert_nodes@, num_nodes as int),
            base.wf(),
            base@ == spec_base_share(expert_fraction@, num_nodes as int),
            k > 0 ==> (expert_entry matches Some(v) && v.wf() && v@ == rat_add(
                spec_base_share(expert_fraction@, num_nodes as int),
                spec_expert_bonus(expert_fraction@, kk),
            )),
            out@.len() == i,
            forall|t: int|
                0 <= t < i ==> (#[trigger] out@[t]).wf() && out@[t]@ == spec_teleport_entry(
                    expert_nodes@,
                    expert_fraction@,
                    num_nodes as int,
                    kk,
                    t,
                ),
        decreases num_nodes - i,
    {
        if contains_expert(expert_nodes, i) {
            proof {
                lemma_count_experts_pos(expert_nodes@, i as int, num_nodes as int);
            }
            match expert_entry {
                Some(v) => {
                    out.push(v);
                },
                None => {
                    assert(false);
                    return Err(RankError::Overflow);
                },
            }
        } else {
            out.push(base);
        }
        i = i + 1;
    }
    Ok(out)
}

/// With a positive fraction, an expert's share strictly exceeds a
/// non-expert's share.
pub proof fn lemma_expert_share_exceeds(f: Rat, n: int, k: int)
    requires
        rat_wf(f),
        rat_lt(rat_zero(), f),
        n >= 1,
        k >= 1,
    ensures
        rat_lt(spec_base_share(f, n), rat_add(spec_base_share(f, n), spec_expert_bonus(f, k))),
{
    lemma_pos_mul(f.d, n);
    lemma_pos_mul(f.d, k);
    nl_share_lt(f.n, f.d, n, k);
}

proof fn nl_share_lt(fnum: int, fd: int, n: int, k: int) by (nonlinear_arith)
    requires
        0 < fnum,
        0 < fd,
        1 <= n,
        1 <= k,
    ensures
        (fd - fnum) * ((fd * n) * (fd * k)) < ((fd - fnum) * (fd * k) + fnum * (fd * n)) * (fd
            * n),
{
}

} // verus!
