//! Eigenvector-centrality support, computed exactly.
//!
//! The engine iterates on the squared adjacency matrix (a symmetric matrix
//! can carry eigenvalue pairs of opposite sign, on which plain power
//! iteration oscillates; the square's eigenvalues are all non-negative and
//! share its eigenvectors). The squaring, the max-normalization of scores
//! and the sign-correcting absolute-value stage are exact and live here; the
//! iteration itself renormalizes by a Euclidean norm — an irrational square
//! root — and stays with the caller.

use vstd::prelude::*;

use crate::rat::bounded;
use crate::rat::lemma_qle_qlt_trans;
use crate::rat::qabs;
use crate::rat::qadd;
use crate::rat::qdiv;
use crate::rat::qeps;
use crate::rat::qeq;
use crate::rat::qint;
use crate::rat::qle;
use crate::rat::qlt;
use crate::rat::qmul;
use crate::rat::Rat;

verus! {

/// A well-formed square matrix: every row has the matrix's own length and
/// every entry has a positive denominator.
pub open spec fn matrix_wf(m: Seq<Vec<Rat>>) -> bool {
    &&& forall|i: int| 0 <= i < m.len() ==> (#[trigger] m[i])@.len() == m.len()
    &&& forall|i: int, j: int|
        0 <= i < m.len() && 0 <= j < m.len() ==> (#[trigger] m[i]@[j]).wf()
}

/// The exact dot product of row `i` and column `j` over the first `k` terms.
pub open spec fn qdot(m: Seq<Vec<Rat>>, i: int, j: int, k: int) -> (int, int)
    decreases k,
{
    if k <= 0 {
        (0int, 1int)
    } else {
        qadd(qdot(m, i, j, k - 1), qmul(m[i]@[k - 1]@, m[k - 1]@[j]@))
    }
}

/// Whether every intermediate of that dot product stays representable.
pub open spec fn qdot_ok(m: Seq<Vec<Rat>>, i: int, j: int, k: int) -> bool
    decreases k,
{
    if k <= 0 {
        true
    } else {
        &&& qdot_ok(m, i, j, k - 1)
        &&& bounded(qmul(m[i]@[k - 1]@, m[k - 1]@[j]@))
        &&& bounded(qadd(qdot(m, i, j, k - 1), qmul(m[i]@[k - 1]@, m[k - 1]@[j]@)))
    }
}

proof fn lemma_qdot_ok_prefix(m: Seq<Vec<Rat>>, i: int, j: int, k1: int, k2: int)
    requires
        qdot_ok(m, i, j, k2),
        0 <= k1 <= k2,
    ensures
        qdot_ok(m, i, j, k1),
    decreases k2,
{
    if k1 < k2 {
        lemma_qdot_ok_prefix(m, i, j, k1, k2 - 1);
    }
}

/// Compute the square of the adjacency matrix by dense matrix
/// multiplication. Returns `None` exactly when some entry's dot product
/// leaves the representation.
pub fn square_matrix(matrix: &Vec<Vec<Rat>>) -> (r: Option<Vec<Vec<Rat>>>)
    requires
        matrix_wf(matrix@),
    ensures
        r is Some <==> forall|i: int, j: int|
            0 <= i < matrix@.len() && 0 <= j < matrix@.len() ==> #[trigger] qdot_ok(
                matrix@,
                i,
                j,
                matrix@.len() as int,
            ),
        r matches Some(out) ==> {
            &&& out@.len() == matrix@.len()
            &&& forall|i: int| 0 <= i < out@.len() ==> (#[trigger] out@[i])@.len() == matrix@.len()
            &&& forall|i: int, j: int|
                0 <= i < out@.len() && 0 <= j < out@.len() ==> (#[trigger] out@[i]@[j]).wf()
                    && out@[i]@[j]@ == qdot(matrix@, i, j, matrix@.len() as int)
        },
{
    let ghost m = matrix@;
    let n = matrix.len();
    let mut out: Vec<Vec<Rat>> = Vec::new();
    let mut i: usize = 0;
    while i < n
        invariant
            m == matrix@,
            matrix_wf(m),
            n == m.len(),
            0 <= i <= n,
            out@.len() == i,
            forall|i2: int| 0 <= i2 < i ==> (#[trigger] out@[i2])@.len() == n,
            forall|i2: int, j2: int|
                0 <= i2 < i && 0 <= j2 < n ==> #[trigger] qdot_ok(m, i2, j2, n as int),
            forall|i2: int, j2: int|
                0 <= i2 < i && 0 <= j2 < n ==> (#[trigger] out@[i2]@[j2]).wf() && out@[i2]@[j2]@
                    == qdot(m, i2, j2, n as int),
        decreases n - i,
    {
        let mut row: Vec<Rat> = Vec::new();
        let mut j: usize = 0;
        while j < n
            invariant
                m == matrix@,
                matrix_wf(m),
                n == m.len(),
                0 <= i < n,
                0 <= j <= n,
                row@.len() == j,
                forall|j2: int| 0 <= j2 < j ==> #[trigger] qdot_ok(m, i as int, j2, n as int),
                forall|j2: int|
                    0 <= j2 < j ==> (#[trigger] row@[j2]).wf() && row@[j2]@ == qdot(
                        m,
                        i as int,
                        j2,
                        n as int,
                    ),
            decreases n - j,
        {
            let mut acc = Rat::from_int(0);
            let mut k: usize = 0;
            while k < n
                invariant
                    m == matrix@,
                    matrix_wf(m),
                    n == m.len(),
                    0 <= i < n,
                    0 <= j < n,
                    0 <= k <= n,
                    acc.wf(),
                    acc@ == qdot(m, i as int, j as int, k as int),
                    qdot_ok(m, i as int, j as int, k as int),
                decreases n - k,
            {
                let a = matrix[i][k];
                let b = matrix[k][j];
                let term = match a.checked_mul(b) {
                    Some(v) => v,
                    None => {
                        proof {
                            assert(!qdot_ok(m, i as int, j as int, k as int + 1));
                            if qdot_ok(m, i as int, j as int, n as int) {
                                lemma_qdot_ok_prefix(m, i as int, j as int, k as int + 1, n as int);
                            }
                        }
                        return None;
                    },
                };
                let next = match acc.checked_add(term) {
                    Some(v) => v,
                    None => {
                        proof {
                            assert(!qdot_ok(m, i as int, j as int, k as int + 1));
                            if qdot_ok(m, i as int, j as int, n as int) {
                                lemma_qdot_ok_prefix(m, i as int, j as int, k as int + 1, n as int);
                            }
                        }
                        return None;
                    },
                };
                acc = next;
                k = k + 1;
            }
            proof {
                assert(acc@ == qdot(m, i as int, j as int, n as int));
                assert(qdot_ok(m, i as int, j as int, n as int));
            }
            row.push(acc);
            proof {
                assert(row@[j as int] == acc);
            }
            j = j + 1;
        }
        out.push(row);
        proof {
            assert(out@[i as int] == row);
            assert forall|i2: int, j2: int|
                0 <= i2 < i + 1 && 0 <= j2 < n implies (#[trigger] out@[i2]@[j2]).wf()
                && out@[i2]@[j2]@ == qdot(m, i2, j2, n as int) by {
                if i2 < i {
                    assert(out@[i2]@[j2].wf() && out@[i2]@[j2]@ == qdot(m, i2, j2, n as int));
                } else {
                    assert(out@[i2] == row);
                    assert(row@[j2].wf() && row@[j2]@ == qdot(m, i as int, j2, n as int));
                }
            }
        }
        i = i + 1;
    }
    Some(out)
}

/// The maximum of a sequence of scores, folded from zero (so it is never
/// negative, and is zero for an empty or all-negative sequence).
pub open spec fn qmaxz(s: Seq<Rat>) -> (int, int)
    decreases s.len(),
{
    if s.len() == 0 {
        (0int, 1int)
    } else {
        let rest = qmaxz(s.drop_last());
        if qlt(rest, s.last()@) {
            s.last()@
        } else {
            rest
        }
    }
}

/// Normalize centrality scores by their maximum entry, so the most central
/// node scores exactly one. When the maximum is negligible (below the
/// threshold) the scores are returned unchanged instead of dividing by a
/// near-zero value. Returns `None` exactly when a quotient leaves the
/// representation.
pub fn normalize_ec(ec: &Vec<Rat>) -> (r: Option<Vec<Rat>>)
    requires
        forall|i: int| 0 <= i < ec@.len() ==> (#[trigger] ec@[i]).wf(),
    ensures
        qlt(qmaxz(ec@), qeps()) ==> (r matches Some(out) && out@ == ec@),
        !qlt(qmaxz(ec@), qeps()) ==> (r is Some <==> forall|i: int|
            0 <= i < ec@.len() ==> bounded(qdiv((#[trigger] ec@[i])@, qmaxz(ec@)))),
        !qlt(qmaxz(ec@), qeps()) ==> (r matches Some(out) ==> out@.len() == ec@.len() && forall|
            i: int,
        |
            0 <= i < ec@.len() ==> (#[trigger] out@[i]).wf() && out@[i]@ == qdiv(
                ec@[i]@,
                qmaxz(ec@),
            )),
{
    let ghost eseq = ec@;
    let mut x_max = Rat::from_int(0);
    let mut i: usize = 0;
    assert(eseq.take(0) =~= Seq::<Rat>::empty());
    while i < ec.len()
        invariant
            eseq == ec@,
            forall|i2: int| 0 <= i2 < eseq.len() ==> (#[trigger] eseq[i2]).wf(),
            0 <= i <= eseq.len(),
            x_max.wf(),
            x_max@ == qmaxz(eseq.take(i as int)),
        decreases eseq.len() - i,
    {
        proof {
            assert(eseq.take(i as int + 1).drop_last() =~= eseq.take(i as int));
        }
        if x_max.lt(ec[i]) {
            x_max = ec[i];
        }
        i = i + 1;
    }
    proof {
        assert(eseq.take(eseq.len() as int) =~= eseq);
    }
    if x_max.lt(crate::rat::eps()) {
        let mut out: Vec<Rat> = Vec::new();
        let mut k: usize = 0;
        while k < ec.len()
            invariant
                eseq == ec@,
                0 <= k <= eseq.len(),
                out@.len() == k,
                forall|j: int| 0 <= j < k ==> out@[j] == eseq[j],
            decreases eseq.len() - k,
        {
            out.push(ec[k]);
            k = k + 1;
        }
        proof {
            assert(out@ =~= eseq);
        }
        return Some(out);
    }
    let mut out: Vec<Rat> = Vec::new();
    let mut k: usize = 0;
    while k < ec.len()
        invariant
            eseq == ec@,
            forall|i2: int| 0 <= i2 < eseq.len() ==> (#[trigger] eseq[i2]).wf(),
            x_max.wf(),
            x_max@ == qmaxz(eseq),
            !qlt(qmaxz(eseq), qeps()),
            0 <= k <= eseq.len(),
            out@.len() == k,
            forall|j: int|
                0 <= j < k ==> (#[trigger] out@[j]).wf() && out@[j]@ == qdiv(
                    eseq[j]@,
                    qmaxz(eseq),
                ),
        decreases eseq.len() - k,
    {
        let scaled = match ec[k].checked_div(x_max) {
            Some(v) => v,
            None => {
                return None;
            },
        };
        out.push(scaled);
        k = k + 1;
    }
    proof {
        assert forall|i2: int| 0 <= i2 < eseq.len() implies bounded(
            qdiv((#[trigger] eseq[i2])@, qmaxz(eseq)),
        ) by {
            assert(out@[i2]@ == qdiv(eseq[i2]@, qmaxz(eseq)));
            assert(out@[i2].wf());
        }
    }
    Some(out)
}

/// The sign-correcting final stage of the centrality engine: replace every
/// score by its absolute value (an eigenvector's sign is arbitrary;
/// centrality is non-negative by convention). Every output is non-negative.
pub fn abs_centrality(v: &Vec<Rat>) -> (r: Option<Vec<Rat>>)
    requires
        forall|i: int| 0 <= i < v@.len() ==> (#[trigger] v@[i]).wf(),
    ensures
        r is Some <==> forall|i: int| 0 <= i < v@.len() ==> bounded(qabs((#[trigger] v@[i])@)),
        r matches Some(out) ==> out@.len() == v@.len() && forall|i: int|
            0 <= i < v@.len() ==> (#[trigger] out@[i]).wf() && out@[i]@ == qabs(v@[i]@) && qle(
                qint(0),
                out@[i]@,
            ),
{
    let ghost vseq = v@;
    let mut out: Vec<Rat> = Vec::new();
    let mut k: usize = 0;
    while k < v.len()
        invariant
            vseq == v@,
            forall|i2: int| 0 <= i2 < vseq.len() ==> (#[trigger] vseq[i2]).wf(),
            0 <= k <= vseq.len(),
            out@.len() == k,
            forall|j: int|
                0 <= j < k ==> (#[trigger] out@[j]).wf() && out@[j]@ == qabs(vseq[j]@) && qle(
                    qint(0),
                    out@[j]@,
                ),
        decreases vseq.len() - k,
    {
        let a = match v[k].checked_abs() {
            Some(av) => av,
            None => {
                return None;
            },
        };
        out.push(a);
        k = k + 1;
    }
    proof {
        assert forall|i2: int| 0 <= i2 < vseq.len() implies bounded(
            qabs((#[trigger] vseq[i2])@),
        ) by {
            assert(out@[i2]@ == qabs(vseq[i2]@));
            assert(out@[i2].wf());
        }
    }
    Some(out)
}

/// The max-fold of well-formed scores is itself well-formed and never
/// negative (the fold starts from zero).
proof fn lemma_qmaxz_props(s: Seq<Rat>)
    requires
        forall|i: int| 0 <= i < s.len() ==> (#[trigger] s[i]).wf(),
    ensures
        qmaxz(s).1 >= 1,
        qmaxz(s).0 >= 0,
    decreases s.len(),
{
    if s.len() > 0 {
        lemma_qmaxz_props(s.drop_last());
        let rest = qmaxz(s.drop_last());
        let last = s.last()@;
        if qlt(rest, last) {
            assert(last.0 > 0) by (nonlinear_arith)
                requires
                    rest.0 * last.1 < last.0 * rest.1,
                    rest.0 >= 0,
                    rest.1 >= 1,
                    last.1 >= 1,
            ;
        }
    }
}

/// The max-fold dominates every element.
pub proof fn lemma_qmaxz_dominates(s: Seq<Rat>)
    requires
        forall|i: int| 0 <= i < s.len() ==> (#[trigger] s[i]).wf(),
    ensures
        forall|i: int| 0 <= i < s.len() ==> qle((#[trigger] s[i])@, qmaxz(s)),
    decreases s.len(),
{
    if s.len() > 0 {
        lemma_qmaxz_dominates(s.drop_last());
        lemma_qmaxz_props(s.drop_last());
        let rest = qmaxz(s.drop_last());
        let last = s.last()@;
        assert forall|i: int| 0 <= i < s.len() implies qle((#[trigger] s[i])@, qmaxz(s)) by {
            if i < s.len() - 1 {
                assert(s.drop_last()[i] == s[i]);
                assert(qle(s[i]@, rest));
                if qlt(rest, last) {
                    lemma_qle_qlt_trans(s[i]@, rest, last);
                }
            } else {
                assert(s[i]@ == last);
                if !qlt(rest, last) {
                    assert(qle(last, rest));
                }
            }
        }
    }
}

/// The max-fold is zero or is achieved by some element.
proof fn lemma_qmaxz_achieved(s: Seq<Rat>)
    requires
        forall|i: int| 0 <= i < s.len() ==> (#[trigger] s[i]).wf(),
    ensures
        qmaxz(s) == (0int, 1int) || exists|i: int|
            0 <= i < s.len() && (#[trigger] s[i])@ == qmaxz(s),
    decreases s.len(),
{
    if s.len() > 0 {
        lemma_qmaxz_achieved(s.drop_last());
        let rest = qmaxz(s.drop_last());
        let last = s.last()@;
        if qlt(rest, last) {
            assert(s[s.len() - 1]@ == qmaxz(s));
        } else if rest != (0int, 1int) {
            let i = choose|i: int| 0 <= i < s.drop_last().len() && (#[trigger] s.drop_last()[i])@
                == rest;
            assert(s[i]@ == qmaxz(s));
        }
    }
}

/// Law: whenever the raw centrality scores are non-negative and their
/// maximum is at least the negligibility threshold, the max-normalized
/// scores all lie in `[0, 1]` and some score is exactly one.
pub proof fn lemma_normalized_centrality_bounds(v: Seq<Rat>)
    requires
        forall|i: int| 0 <= i < v.len() ==> (#[trigger] v[i]).wf(),
        forall|i: int| 0 <= i < v.len() ==> qle(qint(0), (#[trigger] v[i])@),
        !qlt(qmaxz(v), qeps()),
    ensures
        forall|i: int|
            0 <= i < v.len() ==> qle(qint(0), #[trigger] qdiv(v[i]@, qmaxz(v))) && qle(
                qdiv(v[i]@, qmaxz(v)),
                qint(1),
            ),
        exists|i: int| 0 <= i < v.len() && qeq(#[trigger] qdiv(v[i]@, qmaxz(v)), qint(1)),
{
    let m = qmaxz(v);
    lemma_qmaxz_props(v);
    assert(m.0 >= 1);
    lemma_qmaxz_dominates(v);
    assert forall|i: int| 0 <= i < v.len() implies qle(qint(0), #[trigger] qdiv(v[i]@, qmaxz(v)))
        && qle(qdiv(v[i]@, qmaxz(v)), qint(1)) by {
        let x = v[i]@;
        assert(qle(qint(0), x));
        assert(x.0 >= 0) by (nonlinear_arith)
            requires
                0 * x.1 <= x.0 * 1,
        ;
        assert(x.1 * m.0 >= 1) by (nonlinear_arith)
            requires
                x.1 >= 1,
                m.0 >= 1,
        ;
        assert(x.0 * m.1 >= 0) by (nonlinear_arith)
            requires
                x.0 >= 0,
                m.1 >= 1,
        ;
        assert(qle(x, m));
        assert((x.0 * m.1) * 1 <= 1 * (x.1 * m.0)) by (nonlinear_arith)
            requires
                x.0 * m.1 <= m.0 * x.1,
        ;
    }
    lemma_qmaxz_achieved(v);
    assert(m != (0int, 1int));
    let i = choose|i: int| 0 <= i < v.len() && (#[trigger] v[i])@ == m;
    assert(m.1 * m.0 >= 1) by (nonlinear_arith)
        requires
            m.1 >= 1,
            m.0 >= 1,
    ;
    assert((m.0 * m.1) * 1 == 1 * (m.1 * m.0)) by (nonlinear_arith);
    assert(qeq(qdiv(v[i]@, qmaxz(v)), qint(1)));
}

} // verus!
