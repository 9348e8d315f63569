//! Graph value: a scalar measuring a node's contribution to the network.
//!
//! The formula is `GV = W^xbar * x^(1 - xbar) * r`, where `W` is the node's
//! total edge weight, `xbar` its normalized centrality, `x` its raw
//! centrality and `r` its reputation. The two power terms `W^xbar` and
//! `x^(1 - xbar)` are irrational in general and must be supplied by the
//! caller; everything around them — the degeneracy guards, the products, the
//! batch and normalization steps, and the performance multiplier — is
//! computed here exactly.

use vstd::prelude::*;

use crate::rat::bounded;
use crate::rat::lemma_qeq_trans;
use crate::rat::lemma_qsum_rats_ok_prefix;
use crate::rat::qabs;
use crate::rat::qadd;
use crate::rat::qdiv;
use crate::rat::qeps;
use crate::rat::qeq;
use crate::rat::qint;
use crate::rat::qle;
use crate::rat::qlt;
use crate::rat::qmul;
use crate::rat::qsub;
use crate::rat::qsum_rats;
use crate::rat::qsum_rats_ok;
use crate::rat::Rat;

verus! {

/// The guard of the graph-value formula: a non-positive weight, raw
/// centrality or reputation makes the node ineligible.
pub open spec fn gv_guard(w: (int, int), x: (int, int), r: (int, int)) -> bool {
    ||| qle(w, qint(0))
    ||| qle(x, qint(0))
    ||| qle(r, qint(0))
}

/// The exact graph value, given the two power terms: `0` under the guard,
/// `wt * et * r` otherwise.
pub open spec fn gv_q(
    w: (int, int),
    x: (int, int),
    r: (int, int),
    wt: (int, int),
    et: (int, int),
) -> (int, int) {
    if gv_guard(w, x, r) {
        qint(0)
    } else {
        qmul(qmul(wt, et), r)
    }
}

/// Whether the graph-value computation stays representable.
pub open spec fn gv_ok(
    w: (int, int),
    x: (int, int),
    r: (int, int),
    wt: (int, int),
    et: (int, int),
) -> bool {
    gv_guard(w, x, r) || (bounded(qmul(wt, et)) && bounded(qmul(qmul(wt, et), r)))
}

/// Calculate the total edge weight of a node: the sum of its row of the
/// adjacency matrix. Returns `None` exactly when a partial sum leaves the
/// representation.
pub fn total_weight(weights: &Vec<Vec<Rat>>, node: usize) -> (r: Option<Rat>)
    requires
        node < weights@.len(),
        forall|k: int|
            0 <= k < weights@[node as int]@.len() ==> (#[trigger] weights@[node as int]@[k]).wf(),
    ensures
        r is Some <==> qsum_rats_ok(weights@[node as int]@),
        r matches Some(c) ==> c.wf() && c@ == qsum_rats(weights@[node as int]@),
{
    let row = &weights[node];
    let ghost rowg = row@;
    let mut acc = Rat::from_int(0);
    let mut k: usize = 0;
    assert(rowg.take(0) =~= Seq::<Rat>::empty());
    while k < row.len()
        invariant
            rowg == weights@[node as int]@,
            row@ == rowg,
            forall|j: int| 0 <= j < rowg.len() ==> (#[trigger] rowg[j]).wf(),
            0 <= k <= rowg.len(),
            acc.wf(),
            acc@ == qsum_rats(rowg.take(k as int)),
            qsum_rats_ok(rowg.take(k as int)),
        decreases rowg.len() - k,
    {
        let next = match acc.checked_add(row[k]) {
            Some(v) => v,
            None => {
                proof {
                    assert(rowg.take(k as int + 1).drop_last() =~= rowg.take(k as int));
                    assert(!qsum_rats_ok(rowg.take(k as int + 1)));
                    if qsum_rats_ok(rowg) {
                        lemma_qsum_rats_ok_prefix(rowg, k as int + 1);
                    }
                }
                return None;
            },
        };
        proof {
            assert(rowg.take(k as int + 1).drop_last() =~= rowg.take(k as int));
        }
        acc = next;
        k = k + 1;
    }
    proof {
        assert(rowg.take(rowg.len() as int) =~= rowg);
    }
    Some(acc)
}

/// Calculate the graph value of a single node.
///
/// `weight_term` and `ec_term` are the caller-computed powers `W^xbar` and
/// `x^(1 - xbar)`. The result is exactly zero whenever the weight, the raw
/// centrality or the reputation is non-positive, whatever the terms hold;
/// otherwise it is exactly `weight_term * ec_term * reputation`, or `None`
/// when that product leaves the representation.
pub fn graph_value(
    total_weight: Rat,
    raw_ec: Rat,
    reputation: Rat,
    weight_term: Rat,
    ec_term: Rat,
) -> (r: Option<Rat>)
    requires
        total_weight.wf(),
        raw_ec.wf(),
        reputation.wf(),
        weight_term.wf(),
        ec_term.wf(),
    ensures
        r is Some <==> gv_ok(total_weight@, raw_ec@, reputation@, weight_term@, ec_term@),
        r matches Some(c) ==> c.wf() && c@ == gv_q(
            total_weight@,
            raw_ec@,
            reputation@,
            weight_term@,
            ec_term@,
        ),
{
    let zero = Rat::from_int(0);
    if total_weight.le(zero) || raw_ec.le(zero) || reputation.le(zero) {
        return Some(zero);
    }
    let product = match weight_term.checked_mul(ec_term) {
        Some(v) => v,
        None => {
            return None;
        },
    };
    product.checked_mul(reputation)
}

/// The exact performance multiplier
/// `max(0, 1 + 2 * (ratio - avg) / (|ratio| + |avg|))` with
/// `ratio = dg / dw`, including its two degeneracy guards.
pub open spec fn pm_q(dg: (int, int), dw: (int, int), avg: (int, int)) -> (int, int) {
    if qlt(qabs(dw), qeps()) {
        qint(0)
    } else {
        let ratio = qdiv(dg, dw);
        let denom = qadd(qabs(ratio), qabs(avg));
        if qlt(denom, qeps()) {
            qint(1)
        } else {
            let full = qadd(qint(1), qdiv(qmul(qint(2), qsub(ratio, avg)), denom));
            if qlt(full, qint(0)) {
                qint(0)
            } else {
                full
            }
        }
    }
}

/// Whether the performance-multiplier computation stays representable.
pub open spec fn pm_ok(dg: (int, int), dw: (int, int), avg: (int, int)) -> bool {
    if qlt(qabs(dw), qeps()) {
        true
    } else {
        let ratio = qdiv(dg, dw);
        let denom = qadd(qabs(ratio), qabs(avg));
        &&& bounded(ratio)
        &&& bounded(qsub(ratio, avg))
        &&& bounded(qabs(ratio))
        &&& bounded(qabs(avg))
        &&& bounded(denom)
        &&& (qlt(denom, qeps()) || {
            let b = qdiv(qmul(qint(2), qsub(ratio, avg)), denom);
            &&& bounded(qmul(qint(2), qsub(ratio, avg)))
            &&& bounded(b)
            &&& bounded(qadd(qint(1), b))
        })
    }
}

/// Calculate the performance multiplier of a node from its realized
/// graph-value change `delta_g`, weight change `delta_w`, and a
/// caller-supplied population average ratio.
///
/// The result is exactly `0` when `|delta_w|` is negligible (the ratio is
/// undefined), exactly `1` when both the ratio and the average are
/// negligible (neutral performance), and otherwise exactly
/// `max(0, 1 + 2 * (ratio - avg) / (|ratio| + |avg|))`.
pub fn performance_multiplier(delta_g: Rat, delta_w: Rat, average_ratio: Rat) -> (r: Option<Rat>)
    requires
        delta_g.wf(),
        delta_w.wf(),
        average_ratio.wf(),
    ensures
        r is Some <==> pm_ok(delta_g@, delta_w@, average_ratio@),
        r matches Some(c) ==> c.wf() && c@ == pm_q(delta_g@, delta_w@, average_ratio@),
        qlt(qabs(delta_w@), qeps()) ==> (r matches Some(c) && c@ == qint(0)),
{
    let tiny = crate::rat::eps();
    if delta_w.abs_lt(tiny) {
        return Some(Rat::from_int(0));
    }
    let ratio = match delta_g.checked_div(delta_w) {
        Some(v) => v,
        None => {
            return None;
        },
    };
    let numerator = match ratio.checked_sub(average_ratio) {
        Some(v) => v,
        None => {
            return None;
        },
    };
    let ratio_abs = match ratio.checked_abs() {
        Some(v) => v,
        None => {
            return None;
        },
    };
    let avg_abs = match average_ratio.checked_abs() {
        Some(v) => v,
        None => {
            return None;
        },
    };
    let denominator = match ratio_abs.checked_add(avg_abs) {
        Some(v) => v,
        None => {
            return None;
        },
    };
    if denominator.lt(tiny) {
        return Some(Rat::from_int(1));
    }
    let scaled = match Rat::from_int(2).checked_mul(numerator) {
        Some(v) => v,
        None => {
            return None;
        },
    };
    let b = match scaled.checked_div(denominator) {
        Some(v) => v,
        None => {
            return None;
        },
    };
    let full = match Rat::from_int(1).checked_add(b) {
        Some(v) => v,
        None => {
            return None;
        },
    };
    if full.lt(Rat::from_int(0)) {
        Some(Rat::from_int(0))
    } else {
        Some(full)
    }
}

/// Exact sum of the values of a sequence of `(index, value)` pairs.
pub open spec fn qsum_pairs(s: Seq<(usize, Rat)>) -> (int, int)
    decreases s.len(),
{
    if s.len() == 0 {
        (0int, 1int)
    } else {
        qadd(qsum_pairs(s.drop_last()), s.last().1@)
    }
}

/// Whether every partial sum of `qsum_pairs` stays representable.
pub open spec fn qsum_pairs_ok(s: Seq<(usize, Rat)>) -> bool
    decreases s.len(),
{
    if s.len() == 0 {
        true
    } else {
        qsum_pairs_ok(s.drop_last()) && bounded(qadd(qsum_pairs(s.drop_last()), s.last().1@))
    }
}

proof fn lemma_qsum_pairs_ok_prefix(s: Seq<(usize, Rat)>, i: int)
    requires
        qsum_pairs_ok(s),
        0 <= i <= s.len(),
    ensures
        qsum_pairs_ok(s.take(i)),
    decreases s.len(),
{
    if i == s.len() {
        assert(s.take(i) =~= s);
    } else {
        assert(s.take(i) =~= s.drop_last().take(i));
        lemma_qsum_pairs_ok_prefix(s.drop_last(), i);
    }
}

/// The sum of well-formed values has a positive denominator.
pub proof fn lemma_qsum_pairs_den_pos(s: Seq<(usize, Rat)>)
    requires
        forall|k: int| 0 <= k < s.len() ==> (#[trigger] s[k]).1.wf(),
    ensures
        qsum_pairs(s).1 >= 1,
    decreases s.len(),
{
    if s.len() > 0 {
        lemma_qsum_pairs_den_pos(s.drop_last());
        assert(qsum_pairs(s).1 >= 1) by (nonlinear_arith)
            requires
                qsum_pairs(s).1 == qsum_pairs(s.drop_last()).1 * s.last().1@.1,
                qsum_pairs(s.drop_last()).1 >= 1,
                s.last().1@.1 >= 1,
        ;
    }
}

/// Calculate the graph value of every producer in the given index list,
/// returning `(index, value)` pairs in the same order.
///
/// `weight_terms[k]` and `ec_terms[k]` are the caller-computed powers
/// `W^xbar` and `x^(1 - xbar)` for producer `producer_indices[k]`. Returns
/// `None` exactly when some producer's total weight or graph value leaves
/// the representation.
pub fn graph_values(
    weights: &Vec<Vec<Rat>>,
    raw_ec: &Vec<Rat>,
    reputations: &Vec<Rat>,
    producer_indices: &Vec<usize>,
    weight_terms: &Vec<Rat>,
    ec_terms: &Vec<Rat>,
) -> (r: Option<Vec<(usize, Rat)>>)
    requires
        forall|k: int|
            0 <= k < producer_indices@.len() ==> (#[trigger] producer_indices@[k]) < weights@.len()
                && producer_indices@[k] < raw_ec@.len() && producer_indices@[k]
                < reputations@.len(),
        forall|i: int, j: int|
            0 <= i < weights@.len() && 0 <= j < weights@[i]@.len() ==> (
            #[trigger] weights@[i]@[j]).wf(),
        forall|i: int| 0 <= i < raw_ec@.len() ==> (#[trigger] raw_ec@[i]).wf(),
        forall|i: int| 0 <= i < reputations@.len() ==> (#[trigger] reputations@[i]).wf(),
        weight_terms@.len() == producer_indices@.len(),
        ec_terms@.len() == producer_indices@.len(),
        forall|k: int| 0 <= k < weight_terms@.len() ==> (#[trigger] weight_terms@[k]).wf(),
        forall|k: int| 0 <= k < ec_terms@.len() ==> (#[trigger] ec_terms@[k]).wf(),
    ensures
        r is Some <==> forall|k: int|
            0 <= k < producer_indices@.len() ==> {
                let i = #[trigger] producer_indices@[k] as int;
                qsum_rats_ok(weights@[i]@) && gv_ok(
                    qsum_rats(weights@[i]@),
                    raw_ec@[i]@,
                    reputations@[i]@,
                    weight_terms@[k]@,
                    ec_terms@[k]@,
                )
            },
        r matches Some(out) ==> out@.len() == producer_indices@.len() && forall|k: int|
            0 <= k < out@.len() ==> {
                let i = #[trigger] producer_indices@[k] as int;
                &&& out@[k].0 == producer_indices@[k]
                &&& out@[k].1.wf()
                &&& out@[k].1@ == gv_q(
                    qsum_rats(weights@[i]@),
                    raw_ec@[i]@,
                    reputations@[i]@,
                    weight_terms@[k]@,
                    ec_terms@[k]@,
                )
            },
{
    let mut out: Vec<(usize, Rat)> = Vec::new();
    let mut k: usize = 0;
    while k < producer_indices.len()
        invariant
            forall|k2: int|
                0 <= k2 < producer_indices@.len() ==> (#[trigger] producer_indices@[k2])
                    < weights@.len() && producer_indices@[k2] < raw_ec@.len()
                    && producer_indices@[k2] < reputations@.len(),
            forall|i: int, j: int|
                0 <= i < weights@.len() && 0 <= j < weights@[i]@.len() ==> (
                #[trigger] weights@[i]@[j]).wf(),
            forall|i: int| 0 <= i < raw_ec@.len() ==> (#[trigger] raw_ec@[i]).wf(),
            forall|i: int| 0 <= i < reputations@.len() ==> (#[trigger] reputations@[i]).wf(),
            weight_terms@.len() == producer_indices@.len(),
            ec_terms@.len() == producer_indices@.len(),
            forall|k2: int| 0 <= k2 < weight_terms@.len() ==> (#[trigger] weight_terms@[k2]).wf(),
            forall|k2: int| 0 <= k2 < ec_terms@.len() ==> (#[trigger] ec_terms@[k2]).wf(),
            0 <= k <= producer_indices@.len(),
            out@.len() == k,
            forall|k2: int|
                0 <= k2 < k ==> {
                    let i = #[trigger] producer_indices@[k2] as int;
                    qsum_rats_ok(weights@[i]@) && gv_ok(
                        qsum_rats(weights@[i]@),
                        raw_ec@[i]@,
                        reputations@[i]@,
                        weight_terms@[k2]@,
                        ec_terms@[k2]@,
                    )
                },
            forall|k2: int|
                0 <= k2 < k ==> {
                    let i = #[trigger] producer_indices@[k2] as int;
                    &&& out@[k2].0 == producer_indices@[k2]
                    &&& out@[k2].1.wf()
                    &&& out@[k2].1@ == gv_q(
                        qsum_rats(weights@[i]@),
                        raw_ec@[i]@,
                        reputations@[i]@,
                        weight_terms@[k2]@,
                        ec_terms@[k2]@,
                    )
                },
        decreases producer_indices@.len() - k,
    {
        let idx = producer_indices[k];
        let w = match total_weight(weights, idx) {
            Some(v) => v,
            None => {
                return None;
            },
        };
        let gv = match graph_value(w, raw_ec[idx], reputations[idx], weight_terms[k], ec_terms[k]) {
            Some(v) => v,
            None => {
                return None;
            },
        };
        out.push((idx, gv));
        k = k + 1;
    }
    Some(out)
}

/// Normalize a batch of graph values into reward shares that sum to one:
/// each value is divided by the batch total. When the total is negligible
/// (below the threshold) every share is exactly zero instead. Returns `None`
/// exactly when the total or a share leaves the representation.
pub fn normalize_graph_values(gvs: &Vec<(usize, Rat)>) -> (r: Option<Vec<(usize, Rat)>>)
    requires
        forall|k: int| 0 <= k < gvs@.len() ==> (#[trigger] gvs@[k]).1.wf(),
    ensures
        r is Some <==> qsum_pairs_ok(gvs@) && (qlt(qsum_pairs(gvs@), qeps()) || forall|k: int|
            0 <= k < gvs@.len() ==> bounded(qdiv((#[trigger] gvs@[k]).1@, qsum_pairs(gvs@)))),
        r matches Some(out) ==> out@.len() == gvs@.len() && forall|k: int|
            0 <= k < out@.len() ==> (#[trigger] out@[k]).0 == gvs@[k].0 && out@[k].1.wf()
                && out@[k].1@ == (if qlt(qsum_pairs(gvs@), qeps()) {
                qint(0)
            } else {
                qdiv(gvs@[k].1@, qsum_pairs(gvs@))
            }),
{
    let ghost gseq = gvs@;
    let mut acc = Rat::from_int(0);
    let mut k: usize = 0;
    assert(gseq.take(0) =~= Seq::<(usize, Rat)>::empty());
    while k < gvs.len()
        invariant
            gseq == gvs@,
            forall|k2: int| 0 <= k2 < gseq.len() ==> (#[trigger] gseq[k2]).1.wf(),
            0 <= k <= gseq.len(),
            acc.wf(),
            acc@ == qsum_pairs(gseq.take(k as int)),
            qsum_pairs_ok(gseq.take(k as int)),
        decreases gseq.len() - k,
    {
        let next = match acc.checked_add(gvs[k].1) {
            Some(v) => v,
            None => {
                proof {
                    assert(gseq.take(k as int + 1).drop_last() =~= gseq.take(k as int));
                    assert(!qsum_pairs_ok(gseq.take(k as int + 1)));
                    if qsum_pairs_ok(gseq) {
                        lemma_qsum_pairs_ok_prefix(gseq, k as int + 1);
                    }
                }
                return None;
            },
        };
        proof {
            assert(gseq.take(k as int + 1).drop_last() =~= gseq.take(k as int));
        }
        acc = next;
        k = k + 1;
    }
    proof {
        assert(gseq.take(gseq.len() as int) =~= gseq);
    }
    let total = acc;
    let mut out: Vec<(usize, Rat)> = Vec::new();
    if total.lt(crate::rat::eps()) {
        let mut k2: usize = 0;
        while k2 < gvs.len()
            invariant
                gseq == gvs@,
                0 <= k2 <= gseq.len(),
                out@.len() == k2,
                forall|j: int|
                    0 <= j < k2 ==> (#[trigger] out@[j]).0 == gseq[j].0 && out@[j].1.wf()
                        && out@[j].1@ == qint(0),
            decreases gseq.len() - k2,
        {
            out.push((gvs[k2].0, Rat::from_int(0)));
            k2 = k2 + 1;
        }
        return Some(out);
    }
    let mut k2: usize = 0;
    while k2 < gvs.len()
        invariant
            gseq == gvs@,
            forall|j: int| 0 <= j < gseq.len() ==> (#[trigger] gseq[j]).1.wf(),
            total.wf(),
            total@ == qsum_pairs(gseq),
            !qlt(qsum_pairs(gseq), qeps()),
            0 <= k2 <= gseq.len(),
            out@.len() == k2,
            forall|j: int|
                0 <= j < k2 ==> (#[trigger] out@[j]).0 == gseq[j].0 && out@[j].1.wf()
                    && out@[j].1@ == qdiv(gseq[j].1@, qsum_pairs(gseq)),
        decreases gseq.len() - k2,
    {
        let share = match gvs[k2].1.checked_div(total) {
            Some(v) => v,
            None => {
                return None;
            },
        };
        out.push((gvs[k2].0, share));
        k2 = k2 + 1;
    }
    proof {
        assert forall|k3: int| 0 <= k3 < gseq.len() implies bounded(
            qdiv((#[trigger] gseq[k3]).1@, qsum_pairs(gseq)),
        ) by {
            assert(out@[k3].1@ == qdiv(gseq[k3].1@, qsum_pairs(gseq)));
            assert(out@[k3].1.wf());
        }
    }
    Some(out)
}

/// The change of a node's graph value across one transaction: the new-state
/// value minus the old-state value, each per `gv_q`.
pub open spec fn bgc_q(
    w: (int, int),
    dw: (int, int),
    x: (int, int),
    dx: (int, int),
    r: (int, int),
    dr: (int, int),
    owt: (int, int),
    oet: (int, int),
    nwt: (int, int),
    net: (int, int),
) -> (int, int) {
    qsub(gv_q(qadd(w, dw), qadd(x, dx), qadd(r, dr), nwt, net), gv_q(w, x, r, owt, oet))
}

/// Whether the bare graph-value-change computation stays representable.
pub open spec fn bgc_ok(
    w: (int, int),
    dw: (int, int),
    x: (int, int),
    dx: (int, int),
    r: (int, int),
    dr: (int, int),
    owt: (int, int),
    oet: (int, int),
    nwt: (int, int),
    net: (int, int),
) -> bool {
    &&& gv_ok(w, x, r, owt, oet)
    &&& bounded(qadd(w, dw))
    &&& bounded(qadd(x, dx))
    &&& bounded(qadd(r, dr))
    &&& gv_ok(qadd(w, dw), qadd(x, dx), qadd(r, dr), nwt, net)
    &&& bounded(bgc_q(w, dw, x, dx, r, dr, owt, oet, nwt, net))
}

/// Calculate the bare graph-value change of one transaction: the graph value
/// at the new state `(W + dW, x + dx, r + dr)` minus the graph value at the
/// old state `(W, x, r)`.
///
/// The old-state terms `old_weight_term = W^xbar` and
/// `old_ec_term = x^(1 - xbar)`, and the new-state terms over the updated
/// weight and centrality, are caller-computed powers; the normalized
/// centrality `xbar` is held fixed across the change.
pub fn bare_graph_value_change(
    old_weight: Rat,
    delta_weight: Rat,
    old_ec: Rat,
    delta_ec: Rat,
    old_reputation: Rat,
    delta_reputation: Rat,
    old_weight_term: Rat,
    old_ec_term: Rat,
    new_weight_term: Rat,
    new_ec_term: Rat,
) -> (r: Option<Rat>)
    requires
        old_weight.wf(),
        delta_weight.wf(),
        old_ec.wf(),
        delta_ec.wf(),
        old_reputation.wf(),
        delta_reputation.wf(),
        old_weight_term.wf(),
        old_ec_term.wf(),
        new_weight_term.wf(),
        new_ec_term.wf(),
    ensures
        r is Some <==> bgc_ok(
            old_weight@,
            delta_weight@,
            old_ec@,
            delta_ec@,
            old_reputation@,
            delta_reputation@,
            old_weight_term@,
            old_ec_term@,
            new_weight_term@,
            new_ec_term@,
        ),
        r matches Some(c) ==> c.wf() && c@ == bgc_q(
            old_weight@,
            delta_weight@,
            old_ec@,
            delta_ec@,
            old_reputation@,
            delta_reputation@,
            old_weight_term@,
            old_ec_term@,
            new_weight_term@,
            new_ec_term@,
        ),
{
    let old_gv = match graph_value(old_weight, old_ec, old_reputation, old_weight_term,
        old_ec_term) {
        Some(v) => v,
        None => {
            return None;
        },
    };
    let new_weight = match old_weight.checked_add(delta_weight) {
        Some(v) => v,
        None => {
            return None;
        },
    };
    let new_ec = match old_ec.checked_add(delta_ec) {
        Some(v) => v,
        None => {
            return None;
        },
    };
    let new_reputation = match old_reputation.checked_add(delta_reputation) {
        Some(v) => v,
        None => {
            return None;
        },
    };
    let new_gv = match graph_value(new_weight, new_ec, new_reputation, new_weight_term,
        new_ec_term) {
        Some(v) => v,
        None => {
            return None;
        },
    };
    new_gv.checked_sub(old_gv)
}

/// Law: at the volume end of the interpolation — when the weight term equals
/// the total weight `W` and the centrality term equals one, which is what the
/// powers `W^xbar` and `x^(1 - xbar)` give at `xbar == 1` — the graph value
/// of an eligible node is exactly `W * r`.
pub proof fn lemma_graph_value_volume_regime(w: Rat, x: Rat, r: Rat, wt: Rat, et: Rat)
    requires
        w.wf(),
        x.wf(),
        r.wf(),
        wt.wf(),
        et.wf(),
        qlt(qint(0), w@),
        qlt(qint(0), x@),
        qlt(qint(0), r@),
        qeq(wt@, w@),
        qeq(et@, qint(1)),
    ensures
        qeq(gv_q(w@, x@, r@, wt@, et@), qmul(w@, r@)),
{
    assert(!gv_guard(w@, x@, r@));
    lemma_volume_alg(wt@.0, wt@.1, et@.0, et@.1, r@.0, r@.1, w@.0, w@.1);
}

proof fn lemma_volume_alg(wtn: int, wtd: int, etn: int, etd: int, rn: int, rd: int, wn: int, wd: int)
    requires
        wtn * wd == wn * wtd,
        etn * 1 == 1 * etd,
    ensures
        ((wtn * etn) * rn) * (wd * rd) == (wn * rn) * ((wtd * etd) * rd),
{
    assert(((wtn * etn) * rn) * (wd * rd) == (wtn * wd) * ((etn * rn) * rd)) by (nonlinear_arith);
    assert((wtn * wd) * ((etn * rn) * rd) == (wn * wtd) * ((etn * rn) * rd)) by (nonlinear_arith)
        requires
            wtn * wd == wn * wtd,
    ;
    assert((wn * wtd) * ((etn * rn) * rd) == (wn * rn) * ((wtd * etd) * rd)) by (nonlinear_arith)
        requires
            etn == etd,
    ;
}

/// Law: at the connectivity end of the interpolation — when the weight term
/// equals one and the centrality term equals the raw centrality `x`, which is
/// what the powers give at `xbar == 0` — the graph value of an eligible node
/// is exactly `x * r`.
pub proof fn lemma_graph_value_connectivity_regime(w: Rat, x: Rat, r: Rat, wt: Rat, et: Rat)
    requires
        w.wf(),
        x.wf(),
        r.wf(),
        wt.wf(),
        et.wf(),
        qlt(qint(0), w@),
        qlt(qint(0), x@),
        qlt(qint(0), r@),
        qeq(wt@, qint(1)),
        qeq(et@, x@),
    ensures
        qeq(gv_q(w@, x@, r@, wt@, et@), qmul(x@, r@)),
{
    assert(!gv_guard(w@, x@, r@));
    lemma_conn_alg(wt@.0, wt@.1, et@.0, et@.1, r@.0, r@.1, x@.0, x@.1);
}

proof fn lemma_conn_alg(wtn: int, wtd: int, etn: int, etd: int, rn: int, rd: int, xn: int, xd: int)
    requires
        wtn * 1 == 1 * wtd,
        etn * xd == xn * etd,
    ensures
        ((wtn * etn) * rn) * (xd * rd) == (xn * rn) * ((wtd * etd) * rd),
{
    assert(((wtn * etn) * rn) * (xd * rd) == (etn * xd) * ((wtn * rn) * rd)) by (nonlinear_arith);
    assert((etn * xd) * ((wtn * rn) * rd) == (xn * etd) * ((wtn * rn) * rd)) by (nonlinear_arith)
        requires
            etn * xd == xn * etd,
    ;
    assert((xn * etd) * ((wtn * rn) * rd) == (xn * rn) * ((wtd * etd) * rd)) by (nonlinear_arith)
        requires
            wtn == wtd,
    ;
}

proof fn lemma_div_sum(gvs: Seq<(usize, Rat)>, out: Seq<(usize, Rat)>, t: (int, int))
    requires
        out.len() == gvs.len(),
        forall|k: int| 0 <= k < gvs.len() ==> (#[trigger] gvs[k]).1.wf(),
        forall|k: int| 0 <= k < out.len() ==> (#[trigger] out[k]).1.wf(),
        t.0 >= 1,
        t.1 >= 1,
        forall|k: int| 0 <= k < out.len() ==> (#[trigger] out[k]).1@ == qdiv(gvs[k].1@, t),
    ensures
        qeq(qsum_pairs(out), qdiv(qsum_pairs(gvs), t)),
    decreases gvs.len(),
{
    if gvs.len() == 0 {
        assert(qeq((0int, 1int), qdiv((0int, 1int), t))) by (nonlinear_arith)
            requires
                t.0 >= 1,
                t.1 >= 1,
        ;
    } else {
        lemma_div_sum(gvs.drop_last(), out.drop_last(), t);
        let s = qsum_pairs(gvs.drop_last());
        let a = qsum_pairs(out.drop_last());
        let g = gvs.last().1@;
        lemma_qsum_pairs_den_pos(gvs.drop_last());
        lemma_qsum_pairs_den_pos(out.drop_last());
        assert(out.last().1@ == qdiv(g, t));
        assert(g.1 * t.0 > 0) by (nonlinear_arith)
            requires
                g.1 >= 1,
                t.0 >= 1,
        ;
        assert((s.1 * g.1) * t.0 > 0) by (nonlinear_arith)
            requires
                s.1 >= 1,
                g.1 >= 1,
                t.0 >= 1,
        ;
        assert(s.1 * t.0 > 0) by (nonlinear_arith)
            requires
                s.1 >= 1,
                t.0 >= 1,
        ;
        lemma_share_sum_alg(a.0, a.1, s.0, s.1, g.0, g.1, t.0, t.1);
        assert(qeq(qadd(a, qdiv(g, t)), qdiv(qadd(s, g), t)));
        assert(qsum_pairs(out) == qadd(a, qdiv(g, t)));
        assert(qsum_pairs(gvs) == qadd(s, g));
    }
}

proof fn lemma_share_sum_alg(a0: int, a1: int, s0: int, s1: int, g0: int, g1: int, t0: int, t1: int)
    requires
        a0 * (s1 * t0) == (s0 * t1) * a1,
    ensures
        (a0 * (g1 * t0) + (g0 * t1) * a1) * ((s1 * g1) * t0) == ((s0 * g1 + g0 * s1) * t1) * (a1 * (
        g1 * t0)),
{
    assert((a0 * (g1 * t0)) * ((s1 * g1) * t0) == (a0 * (s1 * t0)) * ((g1 * g1) * t0))
        by (nonlinear_arith);
    assert((a0 * (s1 * t0)) * ((g1 * g1) * t0) == ((s0 * t1) * a1) * ((g1 * g1) * t0))
        by (nonlinear_arith)
        requires
            a0 * (s1 * t0) == (s0 * t1) * a1,
    ;
    assert(((s0 * t1) * a1) * ((g1 * g1) * t0) == ((s0 * g1) * t1) * (a1 * (g1 * t0)))
        by (nonlinear_arith);
    assert(((g0 * t1) * a1) * ((s1 * g1) * t0) == ((g0 * s1) * t1) * (a1 * (g1 * t0)))
        by (nonlinear_arith);
    assert((a0 * (g1 * t0) + (g0 * t1) * a1) * ((s1 * g1) * t0) == (a0 * (g1 * t0)) * ((s1 * g1)
        * t0) + ((g0 * t1) * a1) * ((s1 * g1) * t0)) by (nonlinear_arith);
    assert(((s0 * g1 + g0 * s1) * t1) * (a1 * (g1 * t0)) == ((s0 * g1) * t1) * (a1 * (g1 * t0)) + ((
    g0 * s1) * t1) * (a1 * (g1 * t0))) by (nonlinear_arith);
}

/// Law: normalized graph values are exact reward shares — whenever the batch
/// total is at least the negligibility threshold, the shares that
/// `normalize_graph_values` returns sum to exactly one. (`out` is the
/// returned batch, related to the input exactly as the function's contract
/// states; when the total is below the threshold every share is exactly zero
/// instead, directly by that contract.)
pub proof fn lemma_normalized_values_sum_to_one(gvs: Seq<(usize, Rat)>, out: Seq<(usize, Rat)>)
    requires
        out.len() == gvs.len(),
        forall|k: int| 0 <= k < gvs.len() ==> (#[trigger] gvs[k]).1.wf(),
        forall|k: int| 0 <= k < out.len() ==> (#[trigger] out[k]).1.wf(),
        !qlt(qsum_pairs(gvs), qeps()),
        forall|k: int|
            0 <= k < out.len() ==> (#[trigger] out[k]).1@ == qdiv(gvs[k].1@, qsum_pairs(gvs)),
    ensures
        qeq(qsum_pairs(out), qint(1)),
{
    let t = qsum_pairs(gvs);
    lemma_qsum_pairs_den_pos(gvs);
    assert(t.0 >= 1) by (nonlinear_arith)
        requires
            t.0 * 1000000000000000 >= 1 * t.1,
            t.1 >= 1,
    ;
    lemma_div_sum(gvs, out, t);
    assert(qdiv(t, t) == (t.0 * t.1, t.1 * t.0));
    assert(qeq(qdiv(t, t), qint(1))) by (nonlinear_arith)
        requires
            t.0 >= 1,
            t.1 >= 1,
    ;
    assert(t.1 * t.0 != 0) by (nonlinear_arith)
        requires
            t.0 >= 1,
            t.1 >= 1,
    ;
    lemma_qeq_trans(qsum_pairs(out), qdiv(t, t), qint(1));
}

} // verus!
