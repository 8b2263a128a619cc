//! The rank-flow engine.
//!
//! `run` seeds a uniform rank vector and applies a fixed number of
//! mass-conserving update rounds.  Each round seeds every node with its
//! teleportation inflow, routes damped rank along every edge in proportion
//! to the edge's decayed weight over its source's static out-degree,
//! collects the rank that decay or missing edges left unrouted into a
//! dangling pool, and spreads that pool equally over all nodes.  The
//! executable engine computes, in exact rational arithmetic, precisely the
//! sequence that the spec-level model `spec_rank_iter` defines.

use crate::decay::Edge;
use crate::rational::{
    rat_add, rat_div_int, rat_eq, rat_fits, rat_le, rat_lt, rat_mul, rat_one, rat_sub, rat_sum_to,
    rat_zero, Rat, Ratio,
};
use vstd::pervasive::VecAdditionalExecFns;
use vstd::prelude::*;

verus! {

/// Why a computation was refused: the inputs broke a precondition of the
/// rules, or an intermediate value left the `i64` fraction carrier.
#[derive(Clone, Copy, Debug, PartialEq, Eq, Structural)]
pub enum RankError {
    InvalidInput,
    Overflow,
}

/// The mathematical values of a vector of executable fractions.
pub open spec fn views(s: Seq<Ratio>) -> Seq<Rat> {
    Seq::new(s.len(), |i: int| s[i]@)
}

/// How many of the first `k` edges leave node `s`.
pub open spec fn count_source(edges: Seq<Edge>, s: int, k: int) -> int
    decreases k,
{
    if k <= 0 {
        0
    } else {
        count_source(edges, s, k - 1) + if edges[k - 1].source as int == s {
            1int
        } else {
            0int
        }
    }
}

/// A node's static out-degree: its count of outgoing edges, ignoring decay.
pub open spec fn out_degree(edges: Seq<Edge>, s: int) -> int {
    count_source(edges, s, edges.len() as int)
}

pub proof fn lemma_count_source_bound(edges: Seq<Edge>, s: int, k: int)
    ensures
        0 <= count_source(edges, s, k) <= if k <= 0 {
            0int
        } else {
            k
        },
    decreases k,
{
    if k > 0 {
        lemma_count_source_bound(edges, s, k - 1);
    }
}

/// An edge's source has out-degree at least one.
pub proof fn lemma_count_source_pos(edges: Seq<Edge>, e: int, k: int)
    requires
        0 <= e < k,
    ensures
        count_source(edges, edges[e].source as int, k) >= 1,
    decreases k,
{
    lemma_count_source_bound(edges, edges[e].source as int, e);
    if e < k - 1 {
        lemma_count_source_pos(edges, e, k - 1);
    }
}

/// The teleportation inflow: node `i` is seeded with `(1 - d) * tel[i]`.
pub open spec fn seeded(tel: Seq<Rat>, d: Rat) -> Seq<Rat> {
    Seq::new(tel.len(), |i: int| rat_mul(rat_sub(rat_one(), d), tel[i]))
}

pub open spec fn zero_seq(n: nat) -> Seq<Rat> {
    Seq::new(n, |i: int| rat_zero())
}

/// What edge `e` adds to its target: `d * rank[source] * w / out_degree`.
pub open spec fn edge_gain(
    rank: Seq<Rat>,
    edges: Seq<Edge>,
    weights: Seq<Rat>,
    d: Rat,
    e: int,
) -> Rat {
    rat_div_int(
        rat_mul(d, rat_mul(rank[edges[e].source as int], weights[e])),
        out_degree(edges, edges[e].source as int),
    )
}

/// The seeded vector after the gains of the first `k` edges.
pub open spec fn flow_ranks(
    init: Seq<Rat>,
    rank: Seq<Rat>,
    edges: Seq<Edge>,
    weights: Seq<Rat>,
    d: Rat,
    k: int,
) -> Seq<Rat>
    decreases k,
{
    if k <= 0 {
        init
    } else {
        let prev = flow_ranks(init, rank, edges, weights, d, k - 1);
        let t = edges[k - 1].target as int;
        prev.update(t, rat_add(prev[t], edge_gain(rank, edges, weights, d, k - 1)))
    }
}

/// Each node's decayed outflow after the first `k` edges.
pub open spec fn flow_outflow(edges: Seq<Edge>, weights: Seq<Rat>, n: nat, k: int) -> Seq<Rat>
    decreases k,
{
    if k <= 0 {
        zero_seq(n)
    } else {
        let prev = flow_outflow(edges, weights, n, k - 1);
        let s = edges[k - 1].source as int;
        prev.update(s, rat_add(prev[s], weights[k - 1]))
    }
}

/// The dangling pool over the first `k` nodes: damped rank that decay left
/// unrouted where the node has outgoing edges, and the whole damped rank
/// where it has none.
pub open spec fn dangling_total(
    rank: Seq<Rat>,
    outflow: Seq<Rat>,
    edges: Seq<Edge>,
    d: Rat,
    k: int,
) -> Rat
    decreases k,
{
    if k <= 0 {
        rat_zero()
    } else {
        let prev = dangling_total(rank, outflow, edges, d, k - 1);
        let i = k - 1;
        let deg = out_degree(edges, i);
        if deg > 0 {
            rat_add(
                prev,
                rat_sub(
                    rat_mul(d, rank[i]),
                    rat_div_int(rat_mul(d, rat_mul(rank[i], outflow[i])), deg),
                ),
            )
        } else {
            rat_add(prev, rat_mul(d, rank[i]))
        }
    }
}

/// One synchronous update round over the whole graph.
pub open spec fn one_round(
    rank: Seq<Rat>,
    edges: Seq<Edge>,
    weights: Seq<Rat>,
    tel: Seq<Rat>,
    d: Rat,
    n: nat,
) -> Seq<Rat> {
    let m = edges.len() as int;
    let after = flow_ranks(seeded(tel, d), rank, edges, weights, d, m);
    let outflow = flow_outflow(edges, weights, n, m);
    let dang = dangling_total(rank, outflow, edges, d, n as int);
    Seq::new(n, |i: int| rat_add(after[i], rat_div_int(dang, n as int)))
}

/// The uniform initial distribution: `1 / n` everywhere.
pub open spec fn uniform(n: nat) -> Seq<Rat> {
    Seq::new(n, |i: int| Rat { n: 1, d: n as int })
}

/// The rank vector after `iters` rounds from the uniform start.
pub open spec fn spec_rank_iter(
    edges: Seq<Edge>,
    weights: Seq<Rat>,
    tel: Seq<Rat>,
    d: Rat,
    n: nat,
    iters: nat,
) -> Seq<Rat>
    decreases iters,
{
    if iters == 0 {
        uniform(n)
    } else {
        one_round(
            spec_rank_iter(edges, weights, tel, d, n, (iters - 1) as nat),
            edges,
            weights,
            tel,
            d,
            n,
        )
    }
}

/// The conditions `run` can test without any fraction arithmetic: the shape
/// of the inputs, and a damping factor between zero and one.
pub open spec fn valid_run_shape(
    edges: Seq<Edge>,
    weights_len: int,
    tel_len: int,
    d: Rat,
    n: int,
) -> bool {
    &&& weights_len == edges.len()
    &&& tel_len == n
    &&& n >= 1
    &&& forall|e: int|
        0 <= e < edges.len() ==> (#[trigger] edges[e]).source < n && edges[e].target < n
    &&& rat_le(rat_zero(), d)
    &&& rat_le(d, rat_one())
}

/// Everything `run` validates: the shape conditions, and a teleport vector
/// that sums exactly to one.
pub open spec fn valid_run_inputs(
    edges: Seq<Edge>,
    weights_len: int,
    tel: Seq<Rat>,
    d: Rat,
    n: int,
) -> bool {
    &&& valid_run_shape(edges, weights_len, tel.len() as int, d, n)
    &&& rat_eq(rat_sum_to(tel, tel.len() as int), rat_one())
}

/// Every prefix sum of the teleport views fits the carrier, so the exact
/// sum-to-one test can be carried out.
pub open spec fn tel_sums_fit(tel: Seq<Rat>) -> bool {
    forall|k: int| 0 <= k <= tel.len() ==> crate::rational::rat_fits(#[trigger] rat_sum_to(tel, k))
}

/// Whether every value the edge pass of one round computes fits the carrier.
pub open spec fn edges_fit(
    rank: Seq<Rat>,
    edges: Seq<Edge>,
    weights: Seq<Rat>,
    tel: Seq<Rat>,
    d: Rat,
    n: nat,
    k: int,
) -> bool
    decreases k,
{
    if k <= 0 {
        true
    } else {
        let prevr = flow_ranks(seeded(tel, d), rank, edges, weights, d, k - 1);
        let prevo = flow_outflow(edges, weights, n, k - 1);
        let s = edges[k - 1].source as int;
        let t = edges[k - 1].target as int;
        &&& edges_fit(rank, edges, weights, tel, d, n, k - 1)
        &&& rat_fits(rat_mul(rank[s], weights[k - 1]))
        &&& rat_fits(rat_mul(d, rat_mul(rank[s], weights[k - 1])))
        &&& rat_fits(edge_gain(rank, edges, weights, d, k - 1))
        &&& rat_fits(rat_add(prevr[t], edge_gain(rank, edges, weights, d, k - 1)))
        &&& rat_fits(rat_add(prevo[s], weights[k - 1]))
    }
}

/// Whether every value the dangling pass computes over the first `k` nodes
/// fits the carrier.
pub open spec fn dangling_fits(
    rank: Seq<Rat>,
    outflow: Seq<Rat>,
    edges: Seq<Edge>,
    d: Rat,
    k: int,
) -> bool
    decreases k,
{
    if k <= 0 {
        true
    } else {
        let i = k - 1;
        let deg = out_degree(edges, i);
        let alloc = rat_div_int(rat_mul(d, rat_mul(rank[i], outflow[i])), deg);
        let term = if deg > 0 {
            rat_sub(rat_mul(d, rank[i]), alloc)
        } else {
            rat_mul(d, rank[i])
        };
        &&& dangling_fits(rank, outflow, edges, d, k - 1)
        &&& rat_fits(rat_mul(d, rank[i]))
        &&& (deg > 0 ==> rat_fits(rat_mul(rank[i], outflow[i])) && rat_fits(
            rat_mul(d, rat_mul(rank[i], outflow[i])),
        ) && rat_fits(alloc) && rat_fits(term))
        &&& rat_fits(rat_add(dangling_total(rank, outflow, edges, d, k - 1), term))
    }
}

/// Whether every value one whole update round computes fits the carrier.
pub open spec fn round_fits(
    rank: Seq<Rat>,
    edges: Seq<Edge>,
    weights: Seq<Rat>,
    tel: Seq<Rat>,
    d: Rat,
    n: nat,
) -> bool {
    let m = edges.len() as int;
    let after = flow_ranks(seeded(tel, d), rank, edges, weights, d, m);
    let outflow = flow_outflow(edges, weights, n, m);
    let share = rat_div_int(dangling_total(rank, outflow, edges, d, n as int), n as int);
    &&& rat_fits(rat_sub(rat_one(), d))
    &&& (forall|i: int| 0 <= i < tel.len() ==> rat_fits(#[trigger] seeded(tel, d)[i]))
    &&& edges_fit(rank, edges, weights, tel, d, n, m)
    &&& dangling_fits(rank, outflow, edges, d, n as int)
    &&& rat_fits(share)
    &&& (forall|i: int| 0 <= i < n ==> rat_fits(#[trigger] rat_add(after[i], share)))
}

/// Whether all `iters` rounds from the uniform start fit the carrier.
pub open spec fn iter_fits(
    edges: Seq<Edge>,
    weights: Seq<Rat>,
    tel: Seq<Rat>,
    d: Rat,
    n: nat,
    iters: nat,
) -> bool
    decreases iters,
{
    if iters == 0 {
        true
    } else {
        &&& iter_fits(edges, weights, tel, d, n, (iters - 1) as nat)
        &&& round_fits(
            spec_rank_iter(edges, weights, tel, d, n, (iters - 1) as nat),
            edges,
            weights,
            tel,
            d,
            n,
        )
    }
}

/// When `run` is owed a result: valid inputs whose whole computation fits
/// the carrier.
pub open spec fn run_computable(
    edges: Seq<Edge>,
    weights: Seq<Rat>,
    tel: Seq<Rat>,
    d: Rat,
    n: int,
    iters: nat,
) -> bool {
    &&& valid_run_inputs(edges, weights.len() as int, tel, d, n)
    &&& tel_sums_fit(tel)
    &&& n <= i64::MAX
    &&& edges.len() <= i64::MAX
    &&& iter_fits(edges, weights, tel, d, n as nat, iters)
}

/// A fitting run of `iters` rounds has a fitting round `j` for every `j`.
proof fn lemma_iter_fits_round(
    edges: Seq<Edge>,
    weights: Seq<Rat>,
    tel: Seq<Rat>,
    d: Rat,
    n: nat,
    j: nat,
    iters: nat,
)
    requires
        j < iters,
        iter_fits(edges, weights, tel, d, n, iters),
    ensures
        round_fits(spec_rank_iter(edges, weights, tel, d, n, j), edges, weights, tel, d, n),
    decreases iters,
{
    if j + 1 < iters {
        lemma_iter_fits_round(edges, weights, tel, d, n, j, (iters - 1) as nat);
    }
}

proof fn lemma_edges_fit_prefix(
    rank: Seq<Rat>,
    edges: Seq<Edge>,
    weights: Seq<Rat>,
    tel: Seq<Rat>,
    d: Rat,
    n: nat,
    j: int,
    k: int,
)
    requires
        0 <= j <= k,
        edges_fit(rank, edges, weights, tel, d, n, k),
    ensures
        edges_fit(rank, edges, weights, tel, d, n, j),
    decreases k,
{
    if j < k {
        lemma_edges_fit_prefix(rank, edges, weights, tel, d, n, j, k - 1);
    }
}

proof fn lemma_dangling_fits_prefix(
    rank: Seq<Rat>,
    outflow: Seq<Rat>,
    edges: Seq<Edge>,
    d: Rat,
    j: int,
    k: int,
)
    requires
        0 <= j <= k,
        dangling_fits(rank, outflow, edges, d, k),
    ensures
        dangling_fits(rank, outflow, edges, d, j),
    decreases k,
{
    if j < k {
        lemma_dangling_fits_prefix(rank, outflow, edges, d, j, k - 1);
    }
}

/// An unfit seed value in round `it` refutes `iter_fits`.
proof fn lemma_unfit_seed(
    edges: Seq<Edge>,
    weights: Seq<Rat>,
    tel: Seq<Rat>,
    d: Rat,
    n: nat,
    it: nat,
    iters: nat,
    i: int,
)
    requires
        it < iters,
        !rat_fits(rat_sub(rat_one(), d)) || (0 <= i < tel.len() && !rat_fits(seeded(tel, d)[i])),
    ensures
        !iter_fits(edges, weights, tel, d, n, iters),
{
    if iter_fits(edges, weights, tel, d, n, iters) {
        lemma_iter_fits_round(edges, weights, tel, d, n, it, iters);
        assert(false);
    }
}

/// An unfit value at edge `k` of round `it` refutes `iter_fits`.
proof fn lemma_unfit_edge(
    edges: Seq<Edge>,
    weights: Seq<Rat>,
    tel: Seq<Rat>,
    d: Rat,
    n: nat,
    rankj: Seq<Rat>,
    it: nat,
    iters: nat,
    k: int,
)
    requires
        it < iters,
        rankj == spec_rank_iter(edges, weights, tel, d, n, it),
        0 <= k < edges.len(),
        ({
            let s = edges[k].source as int;
            let t = edges[k].target as int;
            ||| !rat_fits(rat_mul(rankj[s], weights[k]))
            ||| !rat_fits(rat_mul(d, rat_mul(rankj[s], weights[k])))
            ||| !rat_fits(edge_gain(rankj, edges, weights, d, k))
            ||| !rat_fits(rat_add(
                flow_ranks(seeded(tel, d), rankj, edges, weights, d, k)[t],
                edge_gain(rankj, edges, weights, d, k),
            ))
            ||| !rat_fits(rat_add(flow_outflow(edges, weights, n, k)[s], weights[k]))
        }),
    ensures
        !iter_fits(edges, weights, tel, d, n, iters),
{
    if iter_fits(edges, weights, tel, d, n, iters) {
        lemma_iter_fits_round(edges, weights, tel, d, n, it, iters);
        lemma_edges_fit_prefix(rankj, edges, weights, tel, d, n, k + 1, edges.len() as int);
        assert(false);
    }
}

/// An unfit value at node `i` of round `it`'s dangling pass refutes
/// `iter_fits`.
proof fn lemma_unfit_dangling(
    edges: Seq<Edge>,
    weights: Seq<Rat>,
    tel: Seq<Rat>,
    d: Rat,
    n: nat,
    rankj: Seq<Rat>,
    outflow: Seq<Rat>,
    it: nat,
    iters: nat,
    i: int,
)
    requires
        it < iters,
        rankj == spec_rank_iter(edges, weights, tel, d, n, it),
        outflow == flow_outflow(edges, weights, n, edges.len() as int),
        0 <= i < n,
        ({
            let deg = out_degree(edges, i);
            let alloc = rat_div_int(rat_mul(d, rat_mul(rankj[i], outflow[i])), deg);
            let term = if deg > 0 {
                rat_sub(rat_mul(d, rankj[i]), alloc)
            } else {
                rat_mul(d, rankj[i])
            };
            ||| !rat_fits(rat_mul(d, rankj[i]))
            ||| (deg > 0 && (!rat_fits(rat_mul(rankj[i], outflow[i])) || !rat_fits(rat_mul(
                d,
                rat_mul(rankj[i], outflow[i]),
            )) || !rat_fits(alloc) || !rat_fits(term)))
            ||| !rat_fits(rat_add(dangling_total(rankj, outflow, edges, d, i), term))
        }),
    ensures
        !iter_fits(edges, weights, tel, d, n, iters),
{
    if iter_fits(edges, weights, tel, d, n, iters) {
        lemma_iter_fits_round(edges, weights, tel, d, n, it, iters);
        lemma_dangling_fits_prefix(rankj, outflow, edges, d, i + 1, n as int);
        assert(false);
    }
}

/// An unfit dangling share, or an unfit final entry, refutes `iter_fits`.
proof fn lemma_unfit_distribute(
    edges: Seq<Edge>,
    weights: Seq<Rat>,
    tel: Seq<Rat>,
    d: Rat,
    n: nat,
    rankj: Seq<Rat>,
    outflow: Seq<Rat>,
    it: nat,
    iters: nat,
    i: int,
)
    requires
        it < iters,
        rankj == spec_rank_iter(edges, weights, tel, d, n, it),
        outflow == flow_outflow(edges, weights, n, edges.len() as int),
        ({
            let share = rat_div_int(
                dangling_total(rankj, outflow, edges, d, n as int),
                n as int,
            );
            ||| !rat_fits(share)
            ||| (0 <= i < n && !rat_fits(rat_add(
                flow_ranks(seeded(tel, d), rankj, edges, weights, d, edges.len() as int)[i],
                share,
            )))
        }),
    ensures
        !iter_fits(edges, weights, tel, d, n, iters),
{
    if iter_fits(edges, weights, tel, d, n, iters) {
        lemma_iter_fits_round(edges, weights, tel, d, n, it, iters);
        assert(false);
    }
}

/// The rank vector after `num_of_iterations` mass-conserving rounds.
///
/// Exact: an `Ok` result is precisely the spec-level model.  `InvalidInput`
/// reports exactly the precondition violations that the rules name;
/// `Overflow` reports an intermediate value that left the `i64` carrier,
/// and can only come once the shape checks have passed.
pub fn run(
    edges: &Vec<Edge>,
    weights: &Vec<Ratio>,
    num_of_nodes: usize,
    num_of_iterations: usize,
    damping_factor: Ratio,
    teleportation_targets: &Vec<Ratio>,
) -> (r: Result<Vec<Ratio>, RankError>)
    requires
        damping_factor.wf(),
        forall|j: int|
            0 <= j < weights@.len() ==> (#[trigger] weights@[j]).wf() && rat_le(
                rat_zero(),
                weights@[j]@,
            ),
        forall|i: int| 0 <= i < teleportation_targets@.len() ==> (#[trigger] teleportation_targets@[i]).wf(),
    ensures
        r is Err ==> (r->Err_0 == RankError::InvalidInput || r->Err_0 == RankError::Overflow),
        r matches Err(e) && e == RankError::InvalidInput ==> !valid_run_inputs(
            edges@,
            weights@.len() as int,
            views(teleportation_targets@),
            damping_factor@,
            num_of_nodes as int,
        ),
        !valid_run_shape(
            edges@,
            weights@.len() as int,
            teleportation_targets@.len() as int,
            damping_factor@,
            num_of_nodes as int,
        ) ==> (r matches Err(e) && e == RankError::InvalidInput),
        tel_sums_fit(views(teleportation_targets@)) && !valid_run_inputs(
            edges@,
            weights@.len() as int,
            views(teleportation_targets@),
            damping_factor@,
            num_of_nodes as int,
        ) ==> (r matches Err(e) && e == RankError::InvalidInput),
        r matches Ok(v) ==> {
            &&& valid_run_inputs(
                edges@,
                weights@.len() as int,
                views(teleportation_targets@),
                damping_factor@,
                num_of_nodes as int,
            )
            &&& v@.len() == num_of_nodes
            &&& (forall|i: int| 0 <= i < v@.len() ==> (#[trigger] v@[i]).wf())
            &&& views(v@) == spec_rank_iter(
                edges@,
                views(weights@),
                views(teleportation_targets@),
                damping_factor@,
                num_of_nodes as nat,
                num_of_iterations as nat,
            )
        },
        run_computable(
            edges@,
            views(weights@),
            views(teleportation_targets@),
            damping_factor@,
            num_of_nodes as int,
            num_of_iterations as nat,
        ) ==> r is Ok,
        (r matches Err(e) && e == RankError::Overflow) ==> !run_computable(
            edges@,
            views(weights@),
            views(teleportation_targets@),
            damping_factor@,
            num_of_nodes as int,
            num_of_iterations as nat,
        ),
{
    let ghost twv = views(teleportation_targets@);
    let ghost wwv = views(weights@);
    // Shape checks: fail fast, before any arithmetic.
    if weights.len() != edges.len() || teleportation_targets.len() != num_of_nodes
        || num_of_nodes == 0 {
        return Err(RankError::InvalidInput);
    }
    let mut e: usize = 0;
    while e < edges.len()
        invariant
            e <= edges.len(),
            forall|t: int|
                0 <= t < e ==> (#[trigger] edges@[t]).source < num_of_nodes
                    && edges@[t].target < num_of_nodes,
        decreases edges.len() - e,
    {
        if edges[e].source >= num_of_nodes || edges[e].target >= num_of_nodes {
            return Err(RankError::InvalidInput);
        }
        e = e + 1;
    }
    if !(Ratio::zero().le_value(damping_factor) && damping_factor.le_value(Ratio::one())) {
        return Err(RankError::InvalidInput);
    }
    // The teleport views must sum exactly to one.
    let mut acc = Ratio::zero();
    let mut i: usize = 0;
    while i < teleportation_targets.len()
        invariant
            i <= teleportation_targets.len(),
            valid_run_shape(
                edges@,
                weights@.len() as int,
                teleportation_targets@.len() as int,
                damping_factor@,
                num_of_nodes as int,
            ),
            forall|t: int| 0 <= t < teleportation_targets@.len() ==> (#[trigger] teleportation_targets@[t]).wf(),
            twv == views(teleportation_targets@),
            acc.wf(),
            acc@ == rat_sum_to(twv, i as int),
        decreases teleportation_targets.len() - i,
    {
        assert(twv[i as int] == teleportation_targets@[i as int]@);
        match acc.checked_add(teleportation_targets[i]) {
            Some(x) => {
                acc = x;
            },
            None => {
                assert(!crate::rational::rat_fits(rat_sum_to(twv, i as int + 1)));
                return Err(RankError::Overflow);
            },
        }
        i = i + 1;
    }
    if !acc.eq_value(Ratio::one()) {
        return Err(RankError::InvalidInput);
    }
    // Machine limits: node and edge counts must fit the carrier.
    if num_of_nodes as u64 > i64::MAX as u64 || edges.len() as u64 > i64::MAX as u64 {
        return Err(RankError::Overflow);
    }
    // Static out-degrees.
    let mut outdeg: Vec<i64> = Vec::new();
    let mut i: usize = 0;
    while i < num_of_nodes
        invariant
            outdeg@.len() == i,
            i <= num_of_nodes,
            forall|t: int| 0 <= t < i ==> outdeg@[t] == 0,
        decreases num_of_nodes - i,
    {
        outdeg.push(0);
        i = i + 1;
    }
    let mut e: usize = 0;
    while e < edges.len()
        invariant
            e <= edges.len(),
            edges@.len() <= i64::MAX,
            outdeg@.len() == num_of_nodes,
            forall|t: int|
                0 <= t < edges@.len() ==> (#[trigger] edges@[t]).source < num_of_nodes
                    && edges@[t].target < num_of_nodes,
            forall|s: int| 0 <= s < num_of_nodes ==> outdeg@[s] == count_source(edges@, s, e as int),
        decreases edges.len() - e,
    {
        let s = edges[e].source;
        proof {
            lemma_count_source_bound(edges@, s as int, e as int);
        }
        let cur: i64 = outdeg[s];
        outdeg.set(s, cur + 1);
        e = e + 1;
    }
    // Uniform initial rank.
    let mut rank: Vec<Ratio> = Vec::new();
    let mut i: usize = 0;
    while i < num_of_nodes
        invariant
            rank@.len() == i,
            i <= num_of_nodes,
            1 <= num_of_nodes <= i64::MAX,
            forall|t: int|
                0 <= t < i ==> (#[trigger] rank@[t]).wf() && rank@[t]@ == (Rat {
                    n: 1,
                    d: num_of_nodes as int,
                }),
        decreases num_of_nodes - i,
    {
        rank.push(Ratio { num: 1, den: num_of_nodes as i64 });
        i = i + 1;
    }
    proof {
        assert(views(rank@) =~= uniform(num_of_nodes as nat));
    }
    // The update rounds.
    let mut it: usize = 0;
    while it < num_of_iterations
        invariant
            it <= num_of_iterations,
            valid_run_inputs(
                edges@,
                weights@.len() as int,
                views(teleportation_targets@),
                damping_factor@,
                num_of_nodes as int,
            ),
            valid_run_shape(
                edges@,
                weights@.len() as int,
                teleportation_targets@.len() as int,
                damping_factor@,
                num_of_nodes as int,
            ),
            1 <= num_of_nodes <= i64::MAX,
            edges@.len() <= i64::MAX,
            weights@.len() == edges@.len(),
            teleportation_targets@.len() == num_of_nodes,
            twv == views(teleportation_targets@),
            wwv == views(weights@),
            damping_factor.wf(),
            forall|j: int| 0 <= j < weights@.len() ==> (#[trigger] weights@[j]).wf(),
            forall|t: int| 0 <= t < teleportation_targets@.len() ==> (#[trigger] teleportation_targets@[t]).wf(),
            forall|t: int|
                0 <= t < edges@.len() ==> (#[trigger] edges@[t]).source < num_of_nodes
                    && edges@[t].target < num_of_nodes,
            outdeg@.len() == num_of_nodes,
            forall|s: int|
                0 <= s < num_of_nodes ==> outdeg@[s] == count_source(
                    edges@,
                    s,
                    edges@.len() as int,
                ),
            rank@.len() == num_of_nodes,
            forall|t: int| 0 <= t < rank@.len() ==> (#[trigger] rank@[t]).wf(),
            views(rank@) == spec_rank_iter(
                edges@,
                wwv,
                twv,
                damping_factor@,
                num_of_nodes as nat,
                it as nat,
            ),
        decreases num_of_iterations - it,
    {
        let ghost rankv = views(rank@);
        // Seed with the teleportation inflow.
        let omd = match Ratio::one().checked_sub(damping_factor) {
            Some(x) => x,
            None => {
                proof {
                        lemma_unfit_seed(edges@, wwv, twv, damping_factor@, num_of_nodes as nat,
                            it as nat, num_of_iterations as nat, 0);
                }
                return Err(RankError::Overflow);
            },
        };
        let mut newr: Vec<Ratio> = Vec::new();
        let mut i: usize = 0;
        while i < num_of_nodes
            invariant
                valid_run_shape(
                    edges@,
                    weights@.len() as int,
                    teleportation_targets@.len() as int,
                    damping_factor@,
                    num_of_nodes as int,
                ),
                valid_run_inputs(
                    edges@,
                    weights@.len() as int,
                    views(teleportation_targets@),
                    damping_factor@,
                    num_of_nodes as int,
                ),
                it < num_of_iterations,
                wwv == views(weights@),
                i <= num_of_nodes,
                teleportation_targets@.len() == num_of_nodes,
                twv == views(teleportation_targets@),
                forall|t: int| 0 <= t < teleportation_targets@.len() ==> (#[trigger] teleportation_targets@[t]).wf(),
                omd.wf(),
                omd@ == rat_sub(rat_one(), damping_factor@),
                newr@.len() == i,
                forall|t: int|
                    0 <= t < i ==> (#[trigger] newr@[t]).wf() && newr@[t]@ == seeded(
                        twv,
                        damping_factor@,
                    )[t],
            decreases num_of_nodes - i,
        {
            match omd.checked_mul(teleportation_targets[i]) {
                Some(x) => {
                    newr.push(x);
                },
                None => {
                    proof {
                        assert(twv[i as int] == teleportation_targets@[i as int]@);
                        assert(seeded(twv, damping_factor@)[i as int] == rat_mul(
                            rat_sub(rat_one(), damping_factor@),
                            twv[i as int],
                        ));
                        lemma_unfit_seed(edges@, wwv, twv, damping_factor@, num_of_nodes as nat,
                            it as nat, num_of_iterations as nat, i as int);
                    }
                    return Err(RankError::Overflow);
                },
            }
            i = i + 1;
        }
        // Route damped rank along every edge.
        let mut outflow: Vec<Ratio> = Vec::new();
        let mut i: usize = 0;
        while i < num_of_nodes
            invariant
                outflow@.len() == i,
                i <= num_of_nodes,
                forall|t: int|
                    0 <= t < i ==> (#[trigger] outflow@[t]).wf() && outflow@[t]@ == rat_zero(),
            decreases num_of_nodes - i,
        {
            outflow.push(Ratio { num: 0, den: 1 });
            i = i + 1;
        }
        proof {
            assert(views(newr@) =~= flow_ranks(
                seeded(twv, damping_factor@),
                rankv,
                edges@,
                wwv,
                damping_factor@,
                0,
            ));
            assert(views(outflow@) =~= flow_outflow(edges@, wwv, num_of_nodes as nat, 0));
        }
        let mut k: usize = 0;
        while k < edges.len()
            invariant
                valid_run_shape(
                    edges@,
                    weights@.len() as int,
                    teleportation_targets@.len() as int,
                    damping_factor@,
                    num_of_nodes as int,
                ),
                valid_run_inputs(
                    edges@,
                    weights@.len() as int,
                    views(teleportation_targets@),
                    damping_factor@,
                    num_of_nodes as int,
                ),
                it < num_of_iterations,
                rankv == spec_rank_iter(
                    edges@,
                    wwv,
                    twv,
                    damping_factor@,
                    num_of_nodes as nat,
                    it as nat,
                ),
                wwv == views(weights@),
                twv == views(teleportation_targets@),
                k <= edges.len(),
                1 <= num_of_nodes <= i64::MAX,
                edges@.len() <= i64::MAX,
                weights@.len() == edges@.len(),
                wwv == views(weights@),
                forall|j: int| 0 <= j < weights@.len() ==> (#[trigger] weights@[j]).wf(),
                forall|t: int|
                    0 <= t < edges@.len() ==> (#[trigger] edges@[t]).source < num_of_nodes
                        && edges@[t].target < num_of_nodes,
                outdeg@.len() == num_of_nodes,
                forall|s: int|
                    0 <= s < num_of_nodes ==> outdeg@[s] == count_source(
                        edges@,
                        s,
                        edges@.len() as int,
                    ),
                rank@.len() == num_of_nodes,
                forall|t: int| 0 <= t < rank@.len() ==> (#[trigger] rank@[t]).wf(),
                rankv == views(rank@),
                damping_factor.wf(),
                newr@.len() == num_of_nodes,
                forall|t: int| 0 <= t < newr@.len() ==> (#[trigger] newr@[t]).wf(),
                views(newr@) == flow_ranks(
                    seeded(twv, damping_factor@),
                    rankv,
                    edges@,
                    wwv,
                    damping_factor@,
                    k as int,
                ),
                outflow@.len() == num_of_nodes,
                forall|t: int| 0 <= t < outflow@.len() ==> (#[trigger] outflow@[t]).wf(),
                views(outflow@) == flow_outflow(edges@, wwv, num_of_nodes as nat, k as int),
            decreases edges.len() - k,
        {
            let src = edges[k].source;
            let tgt = edges[k].target;
            proof {
                lemma_count_source_pos(edges@, k as int, edges@.len() as int);
                lemma_count_source_bound(edges@, src as int, edges@.len() as int);
            }
            let deg: i64 = outdeg[src];
            let t1 = match rank[src].checked_mul(weights[k]) {
                Some(x) => x,
                None => {
                    proof {
                        assert(rankv[src as int] == rank@[src as int]@);
                        assert(wwv[k as int] == weights@[k as int]@);
                        assert(outdeg@[src as int] == out_degree(edges@, src as int));
                        lemma_unfit_edge(edges@, wwv, twv, damping_factor@, num_of_nodes as nat, rankv, it as nat,
                            num_of_iterations as nat, k as int);
                    }
                    return Err(RankError::Overflow);
                },
            };
            let t2 = match damping_factor.checked_mul(t1) {
                Some(x) => x,
                None => {
                    proof {
                        assert(rankv[src as int] == rank@[src as int]@);
                        assert(wwv[k as int] == weights@[k as int]@);
                        assert(outdeg@[src as int] == out_degree(edges@, src as int));
                        lemma_unfit_edge(edges@, wwv, twv, damping_factor@, num_of_nodes as nat, rankv, it as nat,
                            num_of_iterations as nat, k as int);
                    }
                    return Err(RankError::Overflow);
                },
            };
            let gain = match t2.checked_div_int(deg) {
                Some(x) => x,
                None => {
                    proof {
                        assert(rankv[src as int] == rank@[src as int]@);
                        assert(wwv[k as int] == weights@[k as int]@);
                        assert(outdeg@[src as int] == out_degree(edges@, src as int));
                        lemma_unfit_edge(edges@, wwv, twv, damping_factor@, num_of_nodes as nat, rankv, it as nat,
                            num_of_iterations as nat, k as int);
                    }
                    return Err(RankError::Overflow);
                },
            };
            let cur = newr[tgt];
            let nv = match cur.checked_add(gain) {
                Some(x) => x,
                None => {
                    proof {
                        assert(rankv[src as int] == rank@[src as int]@);
                        assert(wwv[k as int] == weights@[k as int]@);
                        assert(outdeg@[src as int] == out_degree(edges@, src as int));
                        assert(views(newr@)[tgt as int] == newr@[tgt as int]@);
                        lemma_unfit_edge(edges@, wwv, twv, damping_factor@, num_of_nodes as nat, rankv, it as nat,
                            num_of_iterations as nat, k as int);
                    }
                    return Err(RankError::Overflow);
                },
            };
            newr.set(tgt, nv);
            let co = outflow[src];
            let ov = match co.checked_add(weights[k]) {
                Some(x) => x,
                None => {
                    proof {
                        assert(rankv[src as int] == rank@[src as int]@);
                        assert(wwv[k as int] == weights@[k as int]@);
                        assert(outdeg@[src as int] == out_degree(edges@, src as int));
                        assert(views(outflow@)[src as int] == outflow@[src as int]@);
                        lemma_unfit_edge(edges@, wwv, twv, damping_factor@, num_of_nodes as nat, rankv, it as nat,
                            num_of_iterations as nat, k as int);
                    }
                    return Err(RankError::Overflow);
                },
            };
            outflow.set(src, ov);
            proof {
                assert(gain@ == edge_gain(rankv, edges@, wwv, damping_factor@, k as int));
                assert(views(newr@) =~= flow_ranks(
                    seeded(twv, damping_factor@),
                    rankv,
                    edges@,
                    wwv,
                    damping_factor@,
                    k as int + 1,
                ));
                assert(views(outflow@) =~= flow_outflow(
                    edges@,
                    wwv,
                    num_of_nodes as nat,
                    k as int + 1,
                ));
            }
            k = k + 1;
        }
        // Collect the dangling pool.
        let ghost outflowv = views(outflow@);
        let mut dang = Ratio::zero();
        let mut i: usize = 0;
        while i < num_of_nodes
            invariant
                valid_run_shape(
                    edges@,
                    weights@.len() as int,
                    teleportation_targets@.len() as int,
                    damping_factor@,
                    num_of_nodes as int,
                ),
                valid_run_inputs(
                    edges@,
                    weights@.len() as int,
                    views(teleportation_targets@),
                    damping_factor@,
                    num_of_nodes as int,
                ),
                it < num_of_iterations,
                rankv == spec_rank_iter(
                    edges@,
                    wwv,
                    twv,
                    damping_factor@,
                    num_of_nodes as nat,
                    it as nat,
                ),
                wwv == views(weights@),
                twv == views(teleportation_targets@),
                outflowv == flow_outflow(edges@, wwv, num_of_nodes as nat, edges@.len() as int),
                i <= num_of_nodes,
                1 <= num_of_nodes <= i64::MAX,
                outdeg@.len() == num_of_nodes,
                forall|s: int|
                    0 <= s < num_of_nodes ==> outdeg@[s] == count_source(
                        edges@,
                        s,
                        edges@.len() as int,
                    ),
                rank@.len() == num_of_nodes,
                forall|t: int| 0 <= t < rank@.len() ==> (#[trigger] rank@[t]).wf(),
                rankv == views(rank@),
                outflow@.len() == num_of_nodes,
                forall|t: int| 0 <= t < outflow@.len() ==> (#[trigger] outflow@[t]).wf(),
                outflowv == views(outflow@),
                damping_factor.wf(),
                dang.wf(),
                dang@ == dangling_total(rankv, outflowv, edges@, damping_factor@, i as int),
            decreases num_of_nodes - i,
        {
            proof {
                lemma_count_source_bound(edges@, i as int, edges@.len() as int);
            }
            let deg: i64 = outdeg[i];
            let dm = match damping_factor.checked_mul(rank[i]) {
                Some(x) => x,
                None => {
                    proof {
                        assert(rankv[i as int] == rank@[i as int]@);
                        assert(outflowv[i as int] == outflow@[i as int]@);
                        assert(outdeg@[i as int] == out_degree(edges@, i as int));
                        lemma_unfit_dangling(edges@, wwv, twv, damping_factor@, num_of_nodes as nat, rankv,
                            outflowv, it as nat, num_of_iterations as nat, i as int);
                    }
                    return Err(RankError::Overflow);
                },
            };
            let term = if deg > 0 {
                let a1 = match rank[i].checked_mul(outflow[i]) {
                    Some(x) => x,
                    None => {
                        proof {
                            assert(rankv[i as int] == rank@[i as int]@);
                            assert(outflowv[i as int] == outflow@[i as int]@);
                            assert(outdeg@[i as int] == out_degree(edges@, i as int));
                            lemma_unfit_dangling(edges@, wwv, twv, damping_factor@, num_of_nodes as nat,
                                rankv, outflowv, it as nat, num_of_iterations as nat, i as int);
                        }
                        return Err(RankError::Overflow);
                    },
                };
                let a2 = match damping_factor.checked_mul(a1) {
                    Some(x) => x,
                    None => {
                        proof {
                            assert(rankv[i as int] == rank@[i as int]@);
                            assert(outflowv[i as int] == outflow@[i as int]@);
                            assert(outdeg@[i as int] == out_degree(edges@, i as int));
                            lemma_unfit_dangling(edges@, wwv, twv, damping_factor@, num_of_nodes as nat,
                                rankv, outflowv, it as nat, num_of_iterations as nat, i as int);
                        }
                        return Err(RankError::Overflow);
                    },
                };
                let alloc = match a2.checked_div_int(deg) {
                    Some(x) => x,
                    None => {
                        proof {
                            assert(rankv[i as int] == rank@[i as int]@);
                            assert(outflowv[i as int] == outflow@[i as int]@);
                            assert(outdeg@[i as int] == out_degree(edges@, i as int));
                            lemma_unfit_dangling(edges@, wwv, twv, damping_factor@, num_of_nodes as nat,
                                rankv, outflowv, it as nat, num_of_iterations as nat, i as int);
                        }
                        return Err(RankError::Overflow);
                    },
                };
                match dm.checked_sub(alloc) {
                    Some(x) => x,
                    None => {
                        proof {
                            assert(rankv[i as int] == rank@[i as int]@);
                            assert(outflowv[i as int] == outflow@[i as int]@);
                            assert(outdeg@[i as int] == out_degree(edges@, i as int));
                            lemma_unfit_dangling(edges@, wwv, twv, damping_factor@, num_of_nodes as nat,
                                rankv, outflowv, it as nat, num_of_iterations as nat, i as int);
                        }
                        return Err(RankError::Overflow);
                    },
                }
            } else {
                dm
            };
            match dang.checked_add(term) {
                Some(x) => {
                    dang = x;
                },
                None => {
                    proof {
                        assert(rankv[i as int] == rank@[i as int]@);
                        assert(outflowv[i as int] == outflow@[i as int]@);
                        assert(outdeg@[i as int] == out_degree(edges@, i as int));
                        lemma_unfit_dangling(edges@, wwv, twv, damping_factor@, num_of_nodes as nat, rankv,
                            outflowv, it as nat, num_of_iterations as nat, i as int);
                    }
                    return Err(RankError::Overflow);
                },
            }
            i = i + 1;
        }
        // Spread the dangling pool equally.
        let share = match dang.checked_div_int(num_of_nodes as i64) {
            Some(x) => x,
            None => {
                proof {
                        lemma_unfit_distribute(edges@, wwv, twv, damping_factor@,
                            num_of_nodes as nat, rankv, outflowv, it as nat,
                            num_of_iterations as nat, 0);
                }
                return Err(RankError::Overflow);
            },
        };
        let ghost afterv = views(newr@);
        let mut i: usize = 0;
        while i < num_of_nodes
            invariant
                valid_run_shape(
                    edges@,
                    weights@.len() as int,
                    teleportation_targets@.len() as int,
                    damping_factor@,
                    num_of_nodes as int,
                ),
                valid_run_inputs(
                    edges@,
                    weights@.len() as int,
                    views(teleportation_targets@),
                    damping_factor@,
                    num_of_nodes as int,
                ),
                it < num_of_iterations,
                rankv == spec_rank_iter(
                    edges@,
                    wwv,
                    twv,
                    damping_factor@,
                    num_of_nodes as nat,
                    it as nat,
                ),
                wwv == views(weights@),
                twv == views(teleportation_targets@),
                outflowv == flow_outflow(edges@, wwv, num_of_nodes as nat, edges@.len() as int),
                afterv == flow_ranks(
                    seeded(twv, damping_factor@),
                    rankv,
                    edges@,
                    wwv,
                    damping_factor@,
                    edges@.len() as int,
                ),
                i <= num_of_nodes,
                newr@.len() == num_of_nodes,
                share.wf(),
                share@ == rat_div_int(
                    dangling_total(rankv, outflowv, edges@, damping_factor@, num_of_nodes as int),
                    num_of_nodes as int,
                ),
                forall|t: int| 0 <= t < newr@.len() ==> (#[trigger] newr@[t]).wf(),
                forall|t: int| i <= t < num_of_nodes ==> newr@[t]@ == afterv[t],
                forall|t: int|
                    0 <= t < i ==> newr@[t]@ == rat_add(afterv[t], share@),
            decreases num_of_nodes - i,
        {
            let nv = match newr[i].checked_add(share) {
                Some(x) => x,
                None => {
                    proof {
                        assert(newr@[i as int]@ == afterv[i as int]);
                        lemma_unfit_distribute(edges@, wwv, twv, damping_factor@,
                            num_of_nodes as nat, rankv, outflowv, it as nat,
                            num_of_iterations as nat, i as int);
                    }
                    return Err(RankError::Overflow);
                },
            };
            newr.set(i, nv);
            i = i + 1;
        }
        proof {
            assert(views(newr@) =~= one_round(
                rankv,
                edges@,
                wwv,
                twv,
                damping_factor@,
                num_of_nodes as nat,
            ));
        }
        rank = newr;
        it = it + 1;
    }
    Ok(rank)
}

} // verus!
