//! Reputation tracking: a running weighted average of ratings, where each
//! rating's weight is the rater's graph value.
//!
//! Update formula for a node with reputation `r` and `N` prior transactions,
//! rated `v` by a rater whose graph value is `G`:
//! `r_new = (N * r + G * clamp(v)) / (N + 1)`.

use vstd::prelude::*;

use crate::rat::bounded;
use crate::rat::qadd;
use crate::rat::qdiv;
use crate::rat::qeq;
use crate::rat::qint;
use crate::rat::qlt;
use crate::rat::qmul;
use crate::rat::Rat;

verus! {

/// The minimum reputation, `1/10`. Nodes start here: it must be positive,
/// since a non-positive reputation zeroes the node's graph value.
pub open spec fn q_r_min() -> (int, int) {
    (1int, 10int)
}

/// The maximum reputation, `5`.
pub open spec fn q_r_max() -> (int, int) {
    (5int, 1int)
}

/// A rating clamped into `[r_min, r_max]`.
pub open spec fn qclamp(v: (int, int)) -> (int, int) {
    if qlt(v, q_r_min()) {
        q_r_min()
    } else if qlt(q_r_max(), v) {
        q_r_max()
    } else {
        v
    }
}

/// The exact value of one reputation update:
/// `(n * rep + gv * clamp(rating)) / (n + 1)`.
pub open spec fn urep_q(rep: (int, int), n: int, gv: (int, int), rating: (int, int)) -> (
    int,
    int,
) {
    qdiv(qadd(qmul(qint(n), rep), qmul(gv, qclamp(rating))), qint(n + 1))
}

/// Whether every intermediate of one reputation update stays representable.
pub open spec fn urep_ok(rep: (int, int), n: int, gv: (int, int), rating: (int, int)) -> bool {
    let t1 = qmul(qint(n), rep);
    let t2 = qmul(gv, qclamp(rating));
    let t3 = qadd(t1, t2);
    &&& bounded(t1)
    &&& bounded(t2)
    &&& bounded(t3)
    &&& bounded(qdiv(t3, qint(n + 1)))
}

/// The minimum reputation as an executable value.
pub fn r_min() -> (r: Rat)
    ensures
        r.wf(),
        r@ == q_r_min(),
{
    Rat { num: 1, den: 10 }
}

/// The maximum reputation as an executable value.
pub fn r_max() -> (r: Rat)
    ensures
        r.wf(),
        r@ == q_r_max(),
{
    Rat { num: 5, den: 1 }
}

/// Clamp a rating to the valid range `[r_min, r_max]`.
pub fn clamp_rating(rating: Rat) -> (r: Rat)
    requires
        rating.wf(),
    ensures
        r.wf(),
        r@ == qclamp(rating@),
{
    let lo = r_min();
    let hi = r_max();
    if rating.lt(lo) {
        lo
    } else if hi.lt(rating) {
        hi
    } else {
        rating
    }
}

/// Update a node's reputation after one rating event.
///
/// `num_transactions` is the count of ratings the node received before this
/// one; the first rating therefore carries full weight. Returns `None`
/// exactly when the exact result does not fit the representation.
pub fn update_reputation(
    current_reputation: Rat,
    num_transactions: u64,
    rater_graph_value: Rat,
    rating: Rat,
) -> (r: Option<Rat>)
    requires
        current_reputation.wf(),
        rater_graph_value.wf(),
        rating.wf(),
        num_transactions < i64::MAX as u64,
    ensures
        r is Some <==> urep_ok(
            current_reputation@,
            num_transactions as int,
            rater_graph_value@,
            rating@,
        ),
        r matches Some(c) ==> c.wf() && c@ == urep_q(
            current_reputation@,
            num_transactions as int,
            rater_graph_value@,
            rating@,
        ),
{
    let clamped = clamp_rating(rating);
    let n = Rat::from_int(num_transactions as i64);
    let weighted_history = match n.checked_mul(current_reputation) {
        Some(v) => v,
        None => {
            return None;
        },
    };
    let weighted_rating = match rater_graph_value.checked_mul(clamped) {
        Some(v) => v,
        None => {
            return None;
        },
    };
    let numerator = match weighted_history.checked_add(weighted_rating) {
        Some(v) => v,
        None => {
            return None;
        },
    };
    let denominator = Rat::from_int((num_transactions + 1) as i64);
    numerator.checked_div(denominator)
}

/// Mutual update after a transaction: each party rates the other, and the
/// two single-sided updates are independent (each reads only state from
/// before the transaction).
///
/// Returns `(new_producer_reputation, new_buyer_reputation)`, or `None`
/// exactly when either exact result does not fit the representation.
pub fn mutual_update(
    producer_rep: Rat,
    producer_tx_count: u64,
    producer_graph_value: Rat,
    producer_rates_buyer: Rat,
    buyer_rep: Rat,
    buyer_tx_count: u64,
    buyer_graph_value: Rat,
    buyer_rates_producer: Rat,
) -> (r: Option<(Rat, Rat)>)
    requires
        producer_rep.wf(),
        producer_graph_value.wf(),
        producer_rates_buyer.wf(),
        buyer_rep.wf(),
        buyer_graph_value.wf(),
        buyer_rates_producer.wf(),
        producer_tx_count < i64::MAX as u64,
        buyer_tx_count < i64::MAX as u64,
    ensures
        r is Some <==> urep_ok(
            producer_rep@,
            producer_tx_count as int,
            buyer_graph_value@,
            buyer_rates_producer@,
        ) && urep_ok(
            buyer_rep@,
            buyer_tx_count as int,
            producer_graph_value@,
            producer_rates_buyer@,
        ),
        r matches Some(c) ==> {
            &&& c.0.wf() && c.0@ == urep_q(
                producer_rep@,
                producer_tx_count as int,
                buyer_graph_value@,
                buyer_rates_producer@,
            )
            &&& c.1.wf() && c.1@ == urep_q(
                buyer_rep@,
                buyer_tx_count as int,
                producer_graph_value@,
                producer_rates_buyer@,
            )
        },
{
    let new_producer_rep = match update_reputation(
        producer_rep,
        producer_tx_count,
        buyer_graph_value,
        buyer_rates_producer,
    ) {
        Some(v) => v,
        None => {
            return None;
        },
    };
    let new_buyer_rep = match update_reputation(
        buyer_rep,
        buyer_tx_count,
        producer_graph_value,
        producer_rates_buyer,
    ) {
        Some(v) => v,
        None => {
            return None;
        },
    };
    Some((new_producer_rep, new_buyer_rep))
}

/// Law: a node's first rating, given by a rater of graph value exactly 1,
/// sets the reputation to exactly the clamped rating — the first observation
/// has full weight. (A rater of graph value `G != 1` scales it to
/// `G * clamp(rating)` instead.)
pub proof fn lemma_first_rating_full_weight(rep: Rat, gv: Rat, rating: Rat)
    requires
        rep.wf(),
        gv.wf(),
        rating.wf(),
        qeq(gv@, (1int, 1int)),
    ensures
        qeq(urep_q(rep@, 0, gv@, rating@), qclamp(rating@)),
{
    let c = qclamp(rating@);
    assert(c.1 > 0);
    let t1 = qmul(qint(0), rep@);
    let t2 = qmul(gv@, c);
    let t3 = qadd(t1, t2);
    assert(t3.1 > 0) by (nonlinear_arith)
        requires
            t3.1 == rep@.1 * (gv@.1 * c.1),
            rep@.1 > 0,
            gv@.1 > 0,
            c.1 > 0,
    ;
    assert(qeq(qdiv(t3, qint(1)), c)) by (nonlinear_arith)
        requires
            t3.1 > 0,
            t3.0 == 0 * (gv@.1 * c.1) + gv@.0 * c.0 * rep@.1,
            t3.1 == rep@.1 * (gv@.1 * c.1),
            gv@.0 * 1 == 1 * gv@.1,
    ;
}

} // verus!
