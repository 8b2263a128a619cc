use trustflow::decay::{current_weight, Edge};
use trustflow::rational::Ratio;

fn r(num: i64, den: i64) -> Ratio {
    Ratio { num, den }
}

#[test]
fn weight_is_one_at_creation() {
    let e = Edge { source: 0, target: 1, time_of_creation: 5 };
    // Whatever the retention factor, the weight at the creation instant is 1.
    let w = current_weight(&e, 5, r(1, 3)).unwrap();
    assert!(w.eq_value(r(1, 1)));
}

#[test]
fn weight_is_zero_before_creation() {
    let e = Edge { source: 0, target: 1, time_of_creation: 5 };
    let w = current_weight(&e, 4, r(1, 3)).unwrap();
    assert!(w.eq_value(r(0, 1)));
    let w0 = current_weight(&e, 0, r(9, 10)).unwrap();
    assert!(w0.eq_value(r(0, 1)));
}

#[test]
fn weight_decays_by_retention_per_step() {
    let e = Edge { source: 2, target: 0, time_of_creation: 0 };
    // retention 1/2: after 3 steps the weight is 1/8.
    let w = current_weight(&e, 3, r(1, 2)).unwrap();
    assert!(w.eq_value(r(1, 8)));
    // retention 1 (no decay): weight stays 1 at any time.
    let w1 = current_weight(&e, 17, r(1, 1)).unwrap();
    assert!(w1.eq_value(r(1, 1)));
}

#[test]
fn weight_strictly_decreases_over_time() {
    let e = Edge { source: 0, target: 1, time_of_creation: 1 };
    let ret = r(2, 3);
    let w1 = current_weight(&e, 2, ret).unwrap();
    let w2 = current_weight(&e, 3, ret).unwrap();
    // 2/3 then 4/9: strictly smaller.
    assert!(w1.eq_value(r(2, 3)));
    assert!(w2.eq_value(r(4, 9)));
    assert!(w2.le_value(w1) && !w2.eq_value(w1));
}

#[test]
fn weight_overflow_is_reported() {
    let e = Edge { source: 0, target: 1, time_of_creation: 0 };
    // (1/2)^k soon leaves the i64 range of the carrier: reported, not wrong.
    assert!(current_weight(&e, 10_000, r(1, 2)).is_none());
}

#[test]
fn rational_arithmetic_is_exact() {
    let a = r(1, 3);
    let b = r(1, 6);
    let s = a.checked_add(b).unwrap();
    assert!(s.eq_value(r(1, 2)));
    let d = a.checked_sub(b).unwrap();
    assert!(d.eq_value(r(1, 6)));
    let p = a.checked_mul(b).unwrap();
    assert!(p.eq_value(r(1, 18)));
    let q = a.checked_div_int(2).unwrap();
    assert!(q.eq_value(r(1, 6)));
}

#[test]
fn rational_overflow_is_reported() {
    let big = r(i64::MAX, 1);
    assert!(big.checked_add(r(1, 1)).is_none());
    assert!(big.checked_mul(r(2, 1)).is_none());
    let fine = Ratio::one().checked_add(Ratio::zero()).unwrap();
    assert!(fine.eq_value(Ratio::one()));
}

#[test]
fn determinism_of_current_weight() {
    let e = Edge { source: 1, target: 2, time_of_creation: 4 };
    let first = current_weight(&e, 9, r(7, 10)).unwrap();
    let second = current_weight(&e, 9, r(7, 10)).unwrap();
    assert_eq!(first, second);
}
