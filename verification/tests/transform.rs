use pineappl::transform::{fx, NewtonStep, NEWTON_STEPS};
use std::cell::Cell;

#[test]
fn iteration_stops_at_the_first_step_that_converges() {
    let calls = Cell::new(0);
    let step = |yp: u64| {
        calls.set(calls.get() + 1);
        NewtonStep { x: yp * 2, converged: yp >= 13, next: yp + 1 }
    };
    assert_eq!(fx(10, &step), Some(26));
    assert_eq!(calls.get(), 4);
}

#[test]
fn iteration_starts_at_its_argument() {
    let step = |yp: u64| NewtonStep { x: yp + 1, converged: true, next: 0 };
    assert_eq!(fx(41, &step), Some(42));
}

#[test]
fn iteration_gives_up_after_its_budget() {
    assert_eq!(NEWTON_STEPS, 100);
    let calls = Cell::new(0);
    let step = |yp: u64| {
        calls.set(calls.get() + 1);
        NewtonStep { x: 0, converged: false, next: yp + 1 }
    };
    assert_eq!(fx(0, &step), None);
    assert_eq!(calls.get(), 100);
}

#[test]
fn iteration_may_converge_at_its_last_step() {
    let step = |yp: u64| NewtonStep { x: yp, converged: yp == 99, next: yp + 1 };
    assert_eq!(fx(0, &step), Some(99));
    let step = |yp: u64| NewtonStep { x: yp, converged: yp == 100, next: yp + 1 };
    assert_eq!(fx(0, &step), None);
}

#[test]
fn newton_iteration_inverts_the_transformation() {
    for &x in &[2e-7_f64, 1e-4, 0.01, 0.3, 0.75, 1.0] {
        let y = (1.0 - x).mul_add(5.0, -x.ln());
        let step = |yp: u64| {
            let yp = f64::from_bits(yp);
            let x = (-yp).exp();
            let delta = y - yp - 5.0 * (1.0 - x);
            let deriv = -1.0 - 5.0 * x;
            NewtonStep {
                x: x.to_bits(),
                converged: delta.abs() < 1e-12,
                next: (yp - delta / deriv).to_bits(),
            }
        };
        let found = f64::from_bits(fx(y.to_bits(), &step).unwrap());
        assert!((found - x).abs() <= 1e-10, "{} != {}", found, x);
    }
}
