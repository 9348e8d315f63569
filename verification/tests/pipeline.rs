use repgraph::ec::{abs_centrality, normalize_ec, square_matrix};
use repgraph::graph::{
    bare_graph_value_change, graph_value, graph_values, normalize_graph_values,
    performance_multiplier, total_weight,
};
use repgraph::rat::Rat;
use repgraph::reputation::{clamp_rating, mutual_update, r_max, r_min, update_reputation};

fn q(n: i64, d: i64) -> Rat {
    Rat::new(n, d).expect("representable rational")
}

fn to_f64(r: Rat) -> f64 {
    r.num as f64 / r.den as f64
}

/// Quantize an `f64` onto the grid of millionths, for feeding caller-computed
/// power terms into the exact pipeline.
fn quantize(x: f64) -> Rat {
    q((x * 1_000_000.0).round() as i64, 1_000_000)
}

#[test]
fn rat_new_normalizes_sign() {
    let r = q(1, -2);
    assert_eq!(r.num, -1);
    assert_eq!(r.den, 2);
    assert!(Rat::new(3, 0).is_none());
}

#[test]
fn rat_add_exact() {
    let r = q(1, 2).checked_add(q(1, 3)).unwrap();
    assert!(r.eqv(q(5, 6)));
}

#[test]
fn rat_sub_mul_div_exact() {
    assert!(q(1, 2).checked_sub(q(1, 3)).unwrap().eqv(q(1, 6)));
    assert!(q(3, 4).checked_mul(q(2, 5)).unwrap().eqv(q(3, 10)));
    assert!(q(3, 4).checked_div(q(2, 5)).unwrap().eqv(q(15, 8)));
}

#[test]
fn rat_div_by_zero_is_none() {
    assert!(q(1, 2).checked_div(Rat::from_int(0)).is_none());
}

#[test]
fn rat_add_overflow_is_none() {
    let big = Rat::from_int(i64::MAX);
    assert!(big.checked_add(big).is_none());
}

#[test]
fn rat_abs_and_compare() {
    assert!(q(-3, 4).checked_abs().unwrap().eqv(q(3, 4)));
    assert!(q(-1, 2).lt(q(1, 3)));
    assert!(q(2, 4).eqv(q(1, 2)));
    assert!(q(1, 2).le(q(2, 4)));
}

#[test]
fn square_matrix_concrete() {
    let m = vec![
        vec![Rat::from_int(1), Rat::from_int(2)],
        vec![Rat::from_int(3), Rat::from_int(4)],
    ];
    let sq = square_matrix(&m).unwrap();
    assert!(sq[0][0].eqv(Rat::from_int(7)));
    assert!(sq[0][1].eqv(Rat::from_int(10)));
    assert!(sq[1][0].eqv(Rat::from_int(15)));
    assert!(sq[1][1].eqv(Rat::from_int(22)));
}

#[test]
fn two_cycle_centrality_is_equal_and_one() {
    // Two nodes joined by one edge of weight 3/2: the squared matrix is
    // diagonal with equal entries, one iteration from the all-ones vector
    // gives equal scores, and normalization sends both to exactly 1.
    let w = q(3, 2);
    let m = vec![
        vec![Rat::from_int(0), w],
        vec![w, Rat::from_int(0)],
    ];
    let sq = square_matrix(&m).unwrap();
    assert!(sq[0][0].eqv(q(9, 4)));
    assert!(sq[0][1].eqv(Rat::from_int(0)));
    assert!(sq[1][1].eqv(q(9, 4)));
    // The iterate after one step from (1, 1) is the row sums of the square.
    let x0 = total_weight(&sq, 0).unwrap();
    let x1 = total_weight(&sq, 1).unwrap();
    assert!(x0.eqv(x1));
    let norm = normalize_ec(&vec![x0, x1]).unwrap();
    assert!(norm[0].eqv(Rat::from_int(1)));
    assert!(norm[1].eqv(Rat::from_int(1)));
}

#[test]
fn normalize_ec_max_entry_is_one() {
    let ec = vec![q(1, 4), q(3, 4), q(1, 2)];
    let norm = normalize_ec(&ec).unwrap();
    assert!(norm[0].eqv(q(1, 3)));
    assert!(norm[1].eqv(Rat::from_int(1)));
    assert!(norm[2].eqv(q(2, 3)));
}

#[test]
fn normalize_ec_negligible_max_unchanged() {
    // Maximum 5e-16 is below the 1e-15 threshold: returned unchanged.
    let ec = vec![q(1, 2_000_000_000_000_000)];
    let norm = normalize_ec(&ec).unwrap();
    assert_eq!(norm[0].num, 1);
    assert_eq!(norm[0].den, 2_000_000_000_000_000);
}

#[test]
fn normalize_ec_overflow_is_none() {
    let ec = vec![q(1, 5_000_000_000_000_000_000), q(3, 2)];
    assert!(normalize_ec(&ec).is_none());
}

#[test]
fn abs_centrality_is_nonnegative() {
    let v = vec![q(-1, 2), q(3, 4), Rat::from_int(0)];
    let a = abs_centrality(&v).unwrap();
    assert!(a[0].eqv(q(1, 2)));
    assert!(a[1].eqv(q(3, 4)));
    assert!(a[2].eqv(Rat::from_int(0)));
    for r in a {
        assert!(r.num >= 0);
    }
}

#[test]
fn total_weight_sums_row() {
    let m = five_node_matrix();
    assert!(total_weight(&m, 0).unwrap().eqv(Rat::from_int(22)));
    assert!(total_weight(&m, 1).unwrap().eqv(q(49, 2)));
    assert!(total_weight(&m, 4).unwrap().eqv(q(11, 2)));
}

#[test]
fn graph_value_zero_on_nonpositive_inputs() {
    let one = Rat::from_int(1);
    let zero = Rat::from_int(0);
    let neg = q(-1, 2);
    // Whatever the power terms hold, a non-positive weight, centrality or
    // reputation gives exactly zero.
    assert!(graph_value(zero, one, one, q(7, 3), q(9, 5)).unwrap().eqv(zero));
    assert!(graph_value(one, neg, one, q(7, 3), q(9, 5)).unwrap().eqv(zero));
    assert!(graph_value(one, one, zero, q(7, 3), q(9, 5)).unwrap().eqv(zero));
}

#[test]
fn graph_value_is_term_product() {
    let gv = graph_value(Rat::from_int(2), q(1, 2), Rat::from_int(3), q(5, 4), q(7, 2)).unwrap();
    assert!(gv.eqv(q(105, 8)));
}

#[test]
fn graph_value_volume_boundary() {
    // At normalized centrality 1 the terms are W^1 = W and x^0 = 1, and the
    // graph value is exactly W * r.
    let w = Rat::from_int(5);
    let x = q(3, 4);
    let r = q(1, 2);
    let gv = graph_value(w, x, r, w, Rat::from_int(1)).unwrap();
    assert!(gv.eqv(q(5, 2)));
}

#[test]
fn graph_value_connectivity_boundary() {
    // At normalized centrality 0 the terms are W^0 = 1 and x^1 = x, and the
    // graph value is exactly x * r.
    let w = Rat::from_int(5);
    let x = q(3, 4);
    let r = Rat::from_int(2);
    let gv = graph_value(w, x, r, Rat::from_int(1), x).unwrap();
    assert!(gv.eqv(q(3, 2)));
}

#[test]
fn graph_values_batch_keeps_order() {
    let m = vec![
        vec![Rat::from_int(0), Rat::from_int(2)],
        vec![Rat::from_int(2), Rat::from_int(0)],
    ];
    let ec = vec![q(1, 2), q(1, 2)];
    let reps = vec![q(1, 10), q(1, 5)];
    let producers = vec![1usize, 0usize];
    let one = Rat::from_int(1);
    let wt = vec![one, one];
    let et = vec![ec[1], ec[0]];
    let out = graph_values(&m, &ec, &reps, &producers, &wt, &et).unwrap();
    assert_eq!(out.len(), 2);
    assert_eq!(out[0].0, 1);
    assert_eq!(out[1].0, 0);
    // 1 * x * r for each producer.
    assert!(out[0].1.eqv(q(1, 10)));
    assert!(out[1].1.eqv(q(1, 20)));
}

#[test]
fn normalize_graph_values_shares_sum_to_one() {
    let gvs = vec![(0usize, Rat::from_int(1)), (1usize, Rat::from_int(1)), (2usize, Rat::from_int(2))];
    let shares = normalize_graph_values(&gvs).unwrap();
    assert!(shares[0].1.eqv(q(1, 4)));
    assert!(shares[1].1.eqv(q(1, 4)));
    assert!(shares[2].1.eqv(q(1, 2)));
    let sum = shares[0].1.checked_add(shares[1].1).unwrap().checked_add(shares[2].1).unwrap();
    assert!(sum.eqv(Rat::from_int(1)));
}

#[test]
fn normalize_graph_values_negligible_total_is_all_zero() {
    // Total 1e-16 is below the threshold: every share is exactly zero.
    let gvs = vec![(0usize, q(1, 10_000_000_000_000_000))];
    let shares = normalize_graph_values(&gvs).unwrap();
    assert!(shares[0].1.eqv(Rat::from_int(0)));
}

#[test]
fn bare_graph_value_change_subtracts() {
    let one = Rat::from_int(1);
    let zero = Rat::from_int(0);
    // Old state (1, 1, 1) with terms 1, 1: value 1. New state (2, 1, 2) with
    // terms 2, 1: value 4. Change 3.
    let d = bare_graph_value_change(
        one,
        one,
        one,
        zero,
        one,
        one,
        one,
        one,
        Rat::from_int(2),
        one,
    )
    .unwrap();
    assert!(d.eqv(Rat::from_int(3)));
}

#[test]
fn performance_multiplier_zero_when_no_weight_change() {
    // |dW| = 1e-16 < 1e-15: exactly zero.
    let d = performance_multiplier(Rat::from_int(1), q(1, 10_000_000_000_000_000), q(1, 2))
        .unwrap();
    assert_eq!(d.num, 0);
}

#[test]
fn performance_multiplier_one_when_both_ratios_negligible() {
    let d = performance_multiplier(Rat::from_int(0), Rat::from_int(1), Rat::from_int(0)).unwrap();
    assert!(d.eqv(Rat::from_int(1)));
}

#[test]
fn performance_multiplier_formula() {
    // ratio 2, avg 1: 1 + 2*(2-1)/(2+1) = 5/3.
    let d = performance_multiplier(Rat::from_int(2), Rat::from_int(1), Rat::from_int(1)).unwrap();
    assert!(d.eqv(q(5, 3)));
}

#[test]
fn performance_multiplier_clamped_at_zero() {
    // ratio -2, avg 2: 1 + 2*(-4)/4 = -1, clamped to 0.
    let d = performance_multiplier(Rat::from_int(-2), Rat::from_int(1), Rat::from_int(2)).unwrap();
    assert!(d.eqv(Rat::from_int(0)));
}

#[test]
fn performance_multiplier_threshold_is_strict() {
    let dg = q(2, 1_000_000_000_000_000);
    // |dW| just below the threshold: exactly zero.
    let below = performance_multiplier(dg, q(1, 2_000_000_000_000_000), Rat::from_int(1)).unwrap();
    assert_eq!(below.num, 0);
    // |dW| exactly at the threshold is not below it, so the formula path
    // runs; with these magnitudes its exact intermediates overflow, so the
    // result is None rather than the guard's zero.
    assert!(performance_multiplier(dg, q(1, 1_000_000_000_000_000), Rat::from_int(1)).is_none());
}

#[test]
fn clamp_rating_at_bounds_unchanged() {
    assert!(clamp_rating(q(1, 10)).eqv(q(1, 10)));
    assert!(clamp_rating(Rat::from_int(5)).eqv(Rat::from_int(5)));
}

#[test]
fn clamp_rating_bounds() {
    assert!(clamp_rating(Rat::from_int(0)).eqv(r_min()));
    assert!(clamp_rating(Rat::from_int(7)).eqv(r_max()));
    assert!(clamp_rating(Rat::from_int(3)).eqv(Rat::from_int(3)));
    assert!(clamp_rating(q(-5, 2)).eqv(q(1, 10)));
}

#[test]
fn update_reputation_first_rating_weighted_by_rater() {
    // First rating, rater of graph value exactly 1: the reputation becomes
    // exactly the clamped rating.
    let new_rep = update_reputation(q(1, 10), 0, Rat::from_int(1), Rat::from_int(5)).unwrap();
    assert!(new_rep.eqv(Rat::from_int(5)));
    // A rater of graph value 2 scales it instead.
    let scaled = update_reputation(q(1, 10), 0, Rat::from_int(2), Rat::from_int(5)).unwrap();
    assert!(scaled.eqv(Rat::from_int(10)));
}

#[test]
fn update_reputation_running_average() {
    // Third rating of node 4 in the documented run: reputation 0.111649
    // after two ratings, rater graph value 2.45 (node 1: 24.5 * 0.1),
    // rating 5. Exactly (2 * 0.111649 + 2.45 * 5) / 3 = 4.157766.
    let new_rep =
        update_reputation(q(111_649, 1_000_000), 2, q(49, 20), Rat::from_int(5)).unwrap();
    assert!(new_rep.eqv(q(4_157_766, 1_000_000)));
}

#[test]
fn update_reputation_overflow_is_none() {
    let huge = Rat::from_int(i64::MAX);
    assert!(update_reputation(q(1, 10), 0, huge, Rat::from_int(5)).is_none());
}

#[test]
fn mutual_update_is_two_independent_updates() {
    let (p, b) = mutual_update(
        q(1, 10),
        0,
        q(3, 2),
        Rat::from_int(4),
        q(1, 5),
        3,
        q(7, 4),
        Rat::from_int(2),
    )
    .unwrap();
    let p_alone = update_reputation(q(1, 10), 0, q(7, 4), Rat::from_int(2)).unwrap();
    let b_alone = update_reputation(q(1, 5), 3, q(3, 2), Rat::from_int(4)).unwrap();
    assert!(p.eqv(p_alone));
    assert!(b.eqv(b_alone));
}

#[test]
fn square_matrix_overflow_is_none() {
    let big = Rat::from_int(i64::MAX);
    let m = vec![vec![big, big], vec![big, big]];
    assert!(square_matrix(&m).is_none());
}

#[test]
fn graph_values_overflow_is_none() {
    let big = Rat::from_int(i64::MAX);
    let m = vec![vec![big, big], vec![big, big]];
    let one = Rat::from_int(1);
    let ec = vec![one, one];
    let reps = vec![one, one];
    let producers = vec![0usize];
    assert!(graph_values(&m, &ec, &reps, &producers, &vec![one], &vec![one]).is_none());
}

#[test]
fn normalize_graph_values_overflow_is_none() {
    let big = Rat::from_int(i64::MAX);
    let gvs = vec![(0usize, big), (1usize, big)];
    assert!(normalize_graph_values(&gvs).is_none());
}

#[test]
fn bare_graph_value_change_overflow_is_none() {
    let big = Rat::from_int(i64::MAX);
    let one = Rat::from_int(1);
    let zero = Rat::from_int(0);
    assert!(
        bare_graph_value_change(big, big, one, zero, one, zero, one, one, one, one).is_none()
    );
}

fn five_node_matrix() -> Vec<Vec<Rat>> {
    // Edge weights in halves and tenths; entry (i, j) is the cumulative
    // transaction weight between nodes i and j.
    let rows: [[(i64, i64); 5]; 5] = [
        [(0, 1), (20, 1), (2, 1), (0, 1), (0, 1)],
        [(20, 1), (0, 1), (3, 2), (3, 1), (0, 1)],
        [(2, 1), (3, 2), (0, 1), (0, 1), (5, 2)],
        [(0, 1), (3, 1), (0, 1), (0, 1), (1, 1)],
        [(0, 1), (2, 1), (5, 2), (1, 1), (0, 1)],
    ];
    rows.iter()
        .map(|row| row.iter().map(|&(n, d)| q(n, d)).collect())
        .collect()
}

#[test]
fn five_node_scenario() {
    // The documented run of the five-node example graph. The centrality
    // engine's iteration runs in floating point outside the library; its
    // documented outputs feed the exact stages here.
    let norm_ec = [0.991025f64, 1.0, 0.184878, 0.152143, 0.127192];
    // Raw scores are the normalized scores times the dominant score.
    let x_max = 0.088713f64 / 0.127192;
    let raw_ec: Vec<f64> = norm_ec.iter().map(|v| v * x_max).collect();

    // Normalizing the raw scores must give back the normalized ones, with
    // the highest-degree node (node 1) at exactly 1.
    let raw_rats: Vec<Rat> = raw_ec.iter().map(|&v| quantize(v)).collect();
    let normed = normalize_ec(&raw_rats).unwrap();
    assert!(normed[1].eqv(Rat::from_int(1)));
    for i in 0..5 {
        assert!((to_f64(normed[i]) - norm_ec[i]).abs() < 1e-4);
    }

    let m = five_node_matrix();
    let gv_of = |node: usize, rep: Rat| -> Rat {
        let w = total_weight(&m, node).unwrap();
        let wf = to_f64(w);
        let weight_term = quantize(wf.powf(norm_ec[node]));
        let ec_term = quantize(raw_ec[node].powf(1.0 - norm_ec[node]));
        graph_value(w, quantize(raw_ec[node]), rep, weight_term, ec_term).unwrap()
    };

    // Node 4's initial graph value: weight 5.5, reputation 0.1.
    let rep0 = q(1, 10);
    let gv4 = gv_of(4, rep0);
    assert!((to_f64(gv4) - 0.014996).abs() < 1e-4);

    // Three sequential ratings of 5.0 for node 4, from nodes 2, 3 and 1.
    let five = Rat::from_int(5);
    let g2 = gv_of(2, rep0);
    assert!((to_f64(g2) - 0.026227).abs() < 1e-4);
    let rep1 = update_reputation(rep0, 0, quantize(to_f64(g2)), five).unwrap();
    assert!((to_f64(rep1) - 0.131133).abs() < 1e-3);

    let g3 = gv_of(3, rep0);
    assert!((to_f64(g3) - 0.018433).abs() < 1e-4);
    let rep2 = update_reputation(quantize(to_f64(rep1)), 1, quantize(to_f64(g3)), five).unwrap();
    assert!((to_f64(rep2) - 0.111649).abs() < 1e-3);

    let g1 = gv_of(1, rep0);
    assert!((to_f64(g1) - 2.45).abs() < 1e-4);
    let rep3 = update_reputation(quantize(to_f64(rep2)), 2, quantize(to_f64(g1)), five).unwrap();
    assert!((to_f64(rep3) - 4.157766).abs() < 1e-3);

    let gv4_final = gv_of(4, quantize(to_f64(rep3)));
    assert!((to_f64(gv4_final) - 0.623482).abs() < 1e-3);
}
