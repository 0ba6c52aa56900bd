use either::Either;
use float_cmp::{ApproxEq, F64Margin};
use pineappl::basis::fi as basis_fi;
use pineappl::lagrange_subgrid::LagrangeSubgridV1;
use pineappl::ntuple_grid::{Ntuple, NtupleSubgrid, SubgridData};
use pineappl::params::{Axis, AxisParams, SubgridParams};
use pineappl::subgrid::{MergeError, SliceError, SubgridEnum};
use pineappl::transform::{fx as newton_fx, NewtonStep};
use std::convert::TryFrom;

fn weightfun(x: f64) -> f64 {
    (x.sqrt() / (1.0 - 0.99 * x)).powi(3)
}

fn fx(y: f64) -> f64 {
    let step = |yp: u64| {
        let yp = f64::from_bits(yp);
        let x = (-yp).exp();
        let delta = y - yp - 5.0 * (1.0 - x);
        let deriv = -1.0 - 5.0 * x;
        NewtonStep {
            x: x.to_bits(),
            converged: delta.abs() < 1e-12,
            next: (yp - delta / deriv).to_bits(),
        }
    };
    f64::from_bits(newton_fx(y.to_bits(), &step).unwrap())
}

fn fy(x: f64) -> f64 {
    (1.0 - x).mul_add(5.0, -x.ln())
}

fn ftau(q2: f64) -> f64 {
    (q2 / 0.0625).ln().ln()
}

fn fq2(tau: f64) -> f64 {
    0.0625 * tau.exp().exp()
}

fn f64_from_usize(x: usize) -> f64 {
    f64::from(u32::try_from(x).unwrap())
}

fn usize_from_f64(x: f64) -> usize {
    x.max(0.0) as usize
}

fn fi(i: usize, n: usize, u: f64) -> f64 {
    let factor = |product: u64, z: usize, i: usize| {
        let distance = if z < i { u - f64_from_usize(z) } else { f64_from_usize(z) - u };
        (f64::from_bits(product) * distance).to_bits()
    };
    let divide = |product: u64, denominator: u64| {
        (f64::from_bits(product) / f64_from_usize(usize::try_from(denominator).unwrap())).to_bits()
    };
    f64::from_bits(basis_fi(i, n, 1.0_f64.to_bits(), &factor, &divide).unwrap())
}

fn min_of(axis: AxisParams) -> f64 {
    f64::from_bits(axis.min())
}

fn max_of(axis: AxisParams) -> f64 {
    f64::from_bits(axis.max())
}

fn delta(axis: AxisParams) -> f64 {
    (max_of(axis) - min_of(axis)) / f64_from_usize(axis.bins() - 1)
}

fn node(axis: AxisParams, i: usize) -> f64 {
    f64_from_usize(i).mul_add(delta(axis), min_of(axis))
}

fn cell(axis: AxisParams, coordinate: f64) -> Option<usize> {
    if coordinate < min_of(axis) || coordinate > max_of(axis) {
        None
    } else {
        Some(usize_from_f64((coordinate - min_of(axis)) / delta(axis)))
    }
}

fn params(q2_bins: usize, q2_order: usize, x_bins: usize, x_order: usize, reweight: bool)
    -> SubgridParams
{
    let q2 =
        AxisParams::new(q2_bins, q2_order, ftau(1e2).to_bits(), ftau(1e8).to_bits()).unwrap();
    let x = AxisParams::new(x_bins, x_order, fy(1.0).to_bits(), fy(2e-7).to_bits()).unwrap();
    SubgridParams::new(q2, x, x, reweight).unwrap()
}

fn default_params() -> SubgridParams {
    params(40, 3, 50, 3, true)
}

fn fill(grid: &mut LagrangeSubgridV1, x1: f64, x2: f64, q2: f64, weight: f64) {
    let params = grid.subgrid_params();
    let (y1, y2, tau) = (fy(x1), fy(x2), ftau(q2));
    let locate = |_: Ntuple| {
        let c1 = cell(params.x1(), y1)?;
        let c2 = cell(params.x2(), y2)?;
        let c3 = cell(params.q2(), tau)?;
        Some((c1, c2, c3))
    };
    let basis = |_: Ntuple, axis: Axis, k: usize, i: usize| {
        let (axis, coordinate) = match axis {
            Axis::X1 => (params.x1(), y1),
            Axis::X2 => (params.x2(), y2),
            Axis::Q2 => (params.q2(), tau),
        };
        let u = (coordinate - node(axis, k)) / delta(axis);
        fi(i, axis.order(), u).to_bits()
    };
    let factor = if params.reweight() { 1.0 / (weightfun(x1) * weightfun(x2)) } else { 1.0 };
    let deposit = |cell: u64, b1: u64, b2: u64, b3: u64| {
        let fillweight =
            factor * f64::from_bits(b1) * f64::from_bits(b2) * f64::from_bits(b3) * weight;
        (f64::from_bits(cell) + fillweight).to_bits()
    };
    let ntuple = Ntuple::new(x1.to_bits(), x2.to_bits(), q2.to_bits(), weight.to_bits());
    grid.fill(&ntuple, &locate, &basis, &deposit);
}

fn grid_x(grid: &LagrangeSubgridV1) -> Vec<f64> {
    let axis = grid.subgrid_params().x1();
    (0..axis.bins()).map(|iy| fx(node(axis, iy))).collect()
}

fn grid_q2(grid: &LagrangeSubgridV1) -> Vec<f64> {
    let axis = grid.subgrid_params().q2();
    (0..axis.bins()).map(|itau| fq2(node(axis, itau))).collect()
}

fn convolute(grid: &LagrangeSubgridV1, x: &[f64], lumi: &dyn Fn(usize, usize, usize) -> f64) -> f64 {
    let reweight = grid.subgrid_params().reweight();
    let by_index = |ix1: usize, ix2: usize, iq2: usize| lumi(ix1, ix2, iq2).to_bits();
    let lumi = Either::<_, &fn(u64, u64, u64) -> u64>::Left(&by_index);
    let accumulate = |sum: u64, sigma: u64, lumi: u64, ix1: usize, ix2: usize| {
        let mut value = f64::from_bits(sigma) * f64::from_bits(lumi);
        if reweight {
            value *= weightfun(x[ix1]) * weightfun(x[ix2]);
        }
        (f64::from_bits(sum) + value).to_bits()
    };
    f64::from_bits(grid.convolute(&[], &[], &[], lumi, &accumulate))
}

fn convolute_by_value(
    grid: &LagrangeSubgridV1,
    x: &[f64],
    q2: &[f64],
    lumi: &dyn Fn(f64, f64, f64) -> f64,
) -> f64 {
    let reweight = grid.subgrid_params().reweight();
    let by_value = |x1: u64, x2: u64, q2: u64| {
        lumi(f64::from_bits(x1), f64::from_bits(x2), f64::from_bits(q2)).to_bits()
    };
    let lumi = Either::<&fn(usize, usize, usize) -> u64, _>::Right(&by_value);
    let accumulate = |sum: u64, sigma: u64, lumi: u64, ix1: usize, ix2: usize| {
        let mut value = f64::from_bits(sigma) * f64::from_bits(lumi);
        if reweight {
            value *= weightfun(x[ix1]) * weightfun(x[ix2]);
        }
        (f64::from_bits(sum) + value).to_bits()
    };
    let x_bits: Vec<u64> = x.iter().map(|x| x.to_bits()).collect();
    let q2_bits: Vec<u64> = q2.iter().map(|q2| q2.to_bits()).collect();
    f64::from_bits(grid.convolute(&x_bits, &x_bits, &q2_bits, lumi, &accumulate))
}

fn scale(grid: &mut LagrangeSubgridV1, factor: f64) {
    grid.scale(factor.to_bits(), &|weight: u64, factor: u64| {
        (f64::from_bits(weight) * f64::from_bits(factor)).to_bits()
    });
}

fn plus(a: u64, b: u64) -> u64 {
    (f64::from_bits(a) + f64::from_bits(b)).to_bits()
}

fn merge(grid: &mut LagrangeSubgridV1, other: LagrangeSubgridV1) -> Result<(), MergeError> {
    grid.merge(&mut SubgridEnum::LagrangeSubgridV1(other), &plus)
}

fn samples() -> Vec<(f64, f64, f64, f64)> {
    vec![
        (0.1, 0.2, 8100.0, 1.0),
        (0.9, 0.1, 8100.0, 1.0),
        (0.009, 0.01, 8100.0, 1.0),
        (0.009, 0.5, 8100.0, 1.0),
        (0.3, 0.4, 250.0, 2.5),
        (0.02, 0.7, 4.0e6, -0.75),
        (0.5, 0.5, 1.0e4, 0.125),
    ]
}

fn filled(samples: &[(f64, f64, f64, f64)]) -> LagrangeSubgridV1 {
    let mut grid = LagrangeSubgridV1::new(&default_params());
    for &(x1, x2, q2, weight) in samples {
        fill(&mut grid, x1, x2, q2, weight);
    }
    grid
}

fn smooth(x: &[f64]) -> impl Fn(usize, usize, usize) -> f64 + '_ {
    move |ix1, ix2, iq2| (1.0 + x[ix1]) * (2.0 - x[ix2]) + 0.01 * iq2 as f64
}

#[test]
fn test_q2_slice() {
    let mut grid = LagrangeSubgridV1::new(&default_params());

    fill(&mut grid, 0.1, 0.2, 90.0_f64.powi(2), 1.0);
    fill(&mut grid, 0.9, 0.1, 90.0_f64.powi(2), 1.0);
    fill(&mut grid, 0.009, 0.01, 90.0_f64.powi(2), 1.0);
    fill(&mut grid, 0.009, 0.5, 90.0_f64.powi(2), 1.0);

    let x = grid_x(&grid);

    let reference = convolute(&grid, &x, &|ix1, ix2, _| 1.0 / (x[ix1] * x[ix2]));

    let reweight = grid.subgrid_params().reweight();
    let factors: Vec<f64> =
        x.iter().map(|&x| if reweight { weightfun(x) } else { 1.0 } / x).collect();
    let mut buffer = vec![0; x.len() * x.len()];
    let mut test = 0.0;

    for i in grid.q2_slice().0..grid.q2_slice().1 {
        grid.fill_q2_slice(i, &mut buffer, &|cell: u64, ix1: usize, ix2: usize| {
            (f64::from_bits(cell) * factors[ix1] * factors[ix2]).to_bits()
        })
        .unwrap();

        test += buffer.iter().map(|&bits| f64::from_bits(bits)).sum::<f64>();
    }

    assert!(test.approx_eq(reference, F64Margin::zero().ulps(4)));
}

#[test]
fn q2_slice_sum_is_not_trivial() {
    let grid = filled(&samples()[0..4]);
    let x = grid_x(&grid);
    let reference = convolute(&grid, &x, &|ix1, ix2, _| 1.0 / (x[ix1] * x[ix2]));
    assert!(reference.is_finite());
    assert!(reference > 1.0);
}

#[test]
fn transform_round_trip() {
    for &x in &[2e-7, 1e-5, 0.001, 0.009, 0.1, 0.25, 0.5, 0.9, 0.999, 1.0] {
        assert!((fx(fy(x)) - x).abs() <= 1e-10, "x = {}", x);
    }
    for &q2 in &[1e2, 8100.0, 1e4, 1e6, 1e8] {
        assert!((fq2(ftau(q2)) / q2 - 1.0).abs() <= 1e-12, "q2 = {}", q2);
    }
}

#[test]
fn basis_is_partition_of_unity() {
    for &n in &[1_usize, 2, 3, 5] {
        for &u in &[-1.5, -0.25, 0.0, 0.3, 1.0, 1.5, 2.75, 4.5, 5.0, 7.125] {
            let sum: f64 = (0..=n).map(|i| fi(i, n, u)).sum();
            assert!((sum - 1.0).abs() < 1e-12, "n = {}, u = {}, sum = {}", n, u, sum);
        }
    }
}

#[test]
fn basis_is_one_on_its_node_and_zero_on_the_others() {
    for &n in &[1_usize, 2, 3, 5] {
        for node in 0..=n {
            for i in 0..=n {
                let expected = if i == node { 1.0 } else { 0.0 };
                assert_eq!(fi(i, n, f64_from_usize(node)), expected);
            }
        }
    }
}

#[test]
fn basis_has_exact_values() {
    // order 1 is linear interpolation
    assert_eq!(fi(0, 1, 0.25), 0.75);
    assert_eq!(fi(1, 1, 0.25), 0.25);
    // order 2 at u = 0.5: (u - 1)(u - 2) / 2, -u (u - 2), u (u - 1) / 2
    assert_eq!(fi(0, 2, 0.5), 0.375);
    assert_eq!(fi(1, 2, 0.5), 0.75);
    assert_eq!(fi(2, 2, 0.5), -0.125);
    // order 3 at u = 1.5: -1/16, 9/16, 9/16, -1/16
    assert_eq!(fi(0, 3, 1.5), -0.0625);
    assert_eq!(fi(1, 3, 1.5), 0.5625);
    assert_eq!(fi(2, 3, 1.5), 0.5625);
    assert_eq!(fi(3, 3, 1.5), -0.0625);
}

#[test]
fn new_subgrid_is_empty() {
    let grid = LagrangeSubgridV1::new(&default_params());
    assert!(grid.is_empty());
    assert_eq!(grid.q2_slice(), (0, 0));
    assert_eq!(grid.weights(), Vec::<u64>::new());
    assert_eq!(grid.subgrid_params(), default_params());
}

#[test]
fn convolute_of_empty_subgrid_is_zero() {
    let grid = LagrangeSubgridV1::new(&default_params());
    let x = grid_x(&grid);
    let result = convolute(&grid, &x, &|_, _, _| panic!("no node to ask the luminosity for"));
    assert_eq!(result.to_bits(), 0);
}

#[test]
fn sample_outside_of_the_grid_is_dropped() {
    let mut grid = LagrangeSubgridV1::new(&default_params());
    // below the smallest momentum fraction
    fill(&mut grid, 1e-8, 0.5, 8100.0, 1.0);
    assert!(grid.is_empty());
    fill(&mut grid, 0.5, 1e-8, 8100.0, 1.0);
    assert!(grid.is_empty());
    // below and above the scale range
    fill(&mut grid, 0.5, 0.5, 50.0, 1.0);
    assert!(grid.is_empty());
    fill(&mut grid, 0.5, 0.5, 2e8, 1.0);
    assert!(grid.is_empty());

    fill(&mut grid, 0.5, 0.5, 8100.0, 1.0);
    let before = (grid.q2_slice(), grid.weights());
    fill(&mut grid, 0.5, 0.5, 2e8, 1.0);
    assert_eq!((grid.q2_slice(), grid.weights()), before);
}

#[test]
fn fill_on_a_node_is_read_back_exactly() {
    for &reweight in &[false, true] {
        let params = params(40, 3, 50, 3, reweight);
        let mut grid = LagrangeSubgridV1::new(&params);
        let x = grid_x(&grid);
        let q2 = grid_q2(&grid);
        let (n1, n2, n3) = (17, 30, 12);
        let weight = 2.75;

        fill(&mut grid, x[n1], x[n2], q2[n3], weight);

        let indicator =
            |ix1: usize, ix2: usize, iq2: usize| if (ix1, ix2, iq2) == (n1, n2, n3) {
                1.0
            } else {
                0.0
            };
        let result = convolute(&grid, &x, &indicator);
        assert!((result - weight).abs() <= 1e-9 * weight, "result = {}", result);
        // nothing is lost on the other nodes
        let total = convolute(&grid, &x, &|_, _, _| 1.0);
        assert!((total - result).abs() <= 1e-9 * weight);
    }
}

#[test]
fn window_is_the_union_of_the_stencils() {
    let params = default_params();
    let mut grid = LagrangeSubgridV1::new(&params);
    let q2 = grid_q2(&grid);

    fill(&mut grid, 0.1, 0.2, q2[20] * 1.01, 1.0);
    assert_eq!(grid.q2_slice(), (19, 23));
    let first = grid.weights();

    // a stencil inside the window leaves it as it is
    fill(&mut grid, 0.3, 0.2, q2[20] * 1.02, 1.0);
    assert_eq!(grid.q2_slice(), (19, 23));

    // growth at the upper end
    let before = grid.weights();
    fill(&mut grid, 0.1, 0.2, q2[30] * 1.01, 1.0);
    assert_eq!(grid.q2_slice(), (19, 33));
    let slice = 50 * 50;
    assert_eq!(&grid.weights()[0..4 * slice], &before[..]);

    // growth at the lower end, at the very start of the axis
    let before = grid.weights();
    fill(&mut grid, 0.1, 0.2, q2[0] * 1.01, 1.0);
    assert_eq!(grid.q2_slice(), (0, 33));
    assert_eq!(&grid.weights()[19 * slice..], &before[..]);
    assert_ne!(first, vec![0; 4 * slice]);

    // the end of the axis
    fill(&mut grid, 0.1, 0.2, q2[39], 1.0);
    assert_eq!(grid.q2_slice(), (0, 40));
}

#[test]
fn fill_stencil_deposits_on_each_node_of_the_stencils() {
    let q2 = AxisParams::new(6, 1, 0, 0).unwrap();
    let x1 = AxisParams::new(3, 1, 0, 0).unwrap();
    let x2 = AxisParams::new(4, 2, 0, 0).unwrap();
    let params = SubgridParams::new(q2, x1, x2, false).unwrap();
    let mut grid = LagrangeSubgridV1::new(&params);
    let deposit = |cell: u64, b1: u64, b2: u64, b3: u64| cell + b1 * b2 * b3;

    grid.fill_stencil(1, 0, 2, &[2, 3], &[5, 7, 11], &[13, 17], &deposit);
    assert_eq!(grid.q2_slice(), (2, 4));
    let expected = vec![
        0, 0, 0, 0,
        2 * 5 * 13, 2 * 7 * 13, 2 * 11 * 13, 0,
        3 * 5 * 13, 3 * 7 * 13, 3 * 11 * 13, 0,

        0, 0, 0, 0,
        2 * 5 * 17, 2 * 7 * 17, 2 * 11 * 17, 0,
        3 * 5 * 17, 3 * 7 * 17, 3 * 11 * 17, 0,
    ];
    assert_eq!(grid.weights(), expected);

    // a second sample one scale node lower: the window grows by one row
    grid.fill_stencil(0, 1, 1, &[1, 1], &[1, 1, 1], &[1, 100], &deposit);
    assert_eq!(grid.q2_slice(), (1, 4));
    let expected = vec![
        0, 1, 1, 1,
        0, 1, 1, 1,
        0, 0, 0, 0,

        0, 100, 100, 100,
        130, 100 + 182, 100 + 286, 100,
        195, 273, 429, 0,

        0, 0, 0, 0,
        170, 238, 374, 0,
        255, 357, 561, 0,
    ];
    assert_eq!(grid.weights(), expected);
}

#[test]
fn weights_round_trip() {
    let grid = filled(&samples());
    let (lo, hi) = grid.q2_slice();
    let weights = grid.weights();
    assert_eq!(weights.len(), (hi - lo) * 50 * 50);

    let copy = LagrangeSubgridV1::from_weights(&default_params(), lo, hi, &weights).unwrap();
    assert_eq!(copy.q2_slice(), (lo, hi));
    assert_eq!(copy.weights(), weights);

    let x = grid_x(&grid);
    let lumi = smooth(&x);
    assert_eq!(convolute(&copy, &x, &lumi), convolute(&grid, &x, &lumi));
}

#[test]
fn from_weights_checks_the_window() {
    let params = default_params();
    let slice = vec![0; 50 * 50];
    assert!(LagrangeSubgridV1::from_weights(&params, 3, 4, &slice).is_some());
    // an empty window
    assert!(LagrangeSubgridV1::from_weights(&params, 4, 4, &slice).is_none());
    assert!(LagrangeSubgridV1::from_weights(&params, 5, 4, &slice).is_none());
    // a window beyond the axis
    assert!(LagrangeSubgridV1::from_weights(&params, 40, 41, &slice).is_none());
    assert!(LagrangeSubgridV1::from_weights(&params, 39, 40, &slice).is_some());
    // the wrong number of weights
    assert!(LagrangeSubgridV1::from_weights(&params, 3, 5, &slice).is_none());
    assert!(LagrangeSubgridV1::from_weights(&params, 3, 4, &slice[1..]).is_none());
    // no weights at all: no storage
    let empty = LagrangeSubgridV1::from_weights(&params, 3, 5, &[]).unwrap();
    assert!(empty.is_empty());
    assert_eq!(empty.q2_slice(), (0, 0));
}

#[test]
fn from_weights_orders_the_nodes() {
    let q2 = AxisParams::new(6, 1, 0, 0).unwrap();
    let x1 = AxisParams::new(2, 1, 0, 0).unwrap();
    let x2 = AxisParams::new(3, 1, 0, 0).unwrap();
    let params = SubgridParams::new(q2, x1, x2, false).unwrap();
    let weights: Vec<u64> = (1..=12).collect();
    let grid = LagrangeSubgridV1::from_weights(&params, 4, 6, &weights).unwrap();

    let mut buffer = vec![0; 6];
    grid.fill_q2_slice(5, &mut buffer, &|cell: u64, ix1: usize, ix2: usize| {
        cell * 100 + (ix1 * 10 + ix2) as u64
    })
    .unwrap();
    assert_eq!(buffer, vec![700, 801, 902, 1010, 1111, 1212]);

    // the nodes are visited in the same order, the scale node slowest
    let by_index = |ix1: usize, ix2: usize, iq2: usize| (iq2 * 100 + ix1 * 10 + ix2) as u64;
    let lumi = Either::<_, &fn(u64, u64, u64) -> u64>::Left(&by_index);
    let visited = std::cell::RefCell::new(Vec::new());
    let count = grid.convolute(&[], &[], &[], lumi, &|sum: u64, sigma, lumi, ix1, ix2| {
        visited.borrow_mut().push((sigma, lumi, ix1, ix2));
        sum + 1
    });
    assert_eq!(count, 12);
    assert_eq!(visited.borrow()[0], (1, 400, 0, 0));
    assert_eq!(visited.borrow()[1], (2, 401, 0, 1));
    assert_eq!(visited.borrow()[3], (4, 410, 1, 0));
    assert_eq!(visited.borrow()[6], (7, 500, 0, 0));
    assert_eq!(visited.borrow()[11], (12, 512, 1, 2));
}

#[test]
fn convolute_skips_nodes_without_weight() {
    let q2 = AxisParams::new(2, 0, 0, 0).unwrap();
    let x = AxisParams::new(2, 0, 0, 0).unwrap();
    let params = SubgridParams::new(q2, x, x, false).unwrap();
    let negative_zero = (-0.0_f64).to_bits();
    let grid =
        LagrangeSubgridV1::from_weights(&params, 0, 1, &[0, 5, negative_zero, 7]).unwrap();
    let by_index = |_: usize, _: usize, _: usize| 1;
    let lumi = Either::<_, &fn(u64, u64, u64) -> u64>::Left(&by_index);
    let sum = grid.convolute(&[], &[], &[], lumi, &|sum: u64, sigma, _, _, _| sum + sigma);
    assert_eq!(sum, 12);
}

#[test]
fn convolute_by_value_agrees_with_convolute_by_index() {
    let grid = filled(&samples());
    let x = grid_x(&grid);
    let q2 = grid_q2(&grid);
    let by_index = convolute(&grid, &x, &|ix1, ix2, iq2| x[ix1] * x[ix2] + q2[iq2].ln());
    let by_value = convolute_by_value(&grid, &x, &q2, &|x1, x2, q2| x1 * x2 + q2.ln());
    assert_eq!(by_index, by_value);
    assert!(by_index != 0.0);
}

#[test]
fn luminosity_of_one_gives_the_sum_of_the_weights() {
    let mut grid = LagrangeSubgridV1::new(&params(40, 3, 50, 3, false));
    for &(x1, x2, q2, weight) in &samples() {
        fill(&mut grid, x1, x2, q2, weight);
    }
    let x = grid_x(&grid);
    let result = convolute(&grid, &x, &|_, _, _| 1.0);
    let sum: f64 = samples().iter().map(|sample| sample.3).sum();
    assert_eq!(sum, 5.875);
    assert!((result - sum).abs() < 1e-12, "{} != {}", result, sum);
}

#[test]
fn convolute_on_nodes_does_not_depend_on_reweighting() {
    let mut results = Vec::new();
    for &reweight in &[false, true] {
        let mut grid = LagrangeSubgridV1::new(&params(40, 3, 50, 3, reweight));
        let x = grid_x(&grid);
        let q2 = grid_q2(&grid);
        for &(n1, n2, n3, weight) in &[(3, 40, 7, 1.5), (25, 25, 20, -0.5), (48, 1, 38, 4.0)] {
            fill(&mut grid, x[n1], x[n2], q2[n3], weight);
        }
        results.push(convolute(&grid, &x, &smooth(&x)));
    }
    assert!(results[0] != 0.0);
    assert!((results[0] - results[1]).abs() <= 1e-9 * results[0].abs());
}

#[test]
fn scale_is_linear() {
    let grid = filled(&samples());
    let x = grid_x(&grid);
    let lumi = smooth(&x);
    let reference = convolute(&grid, &x, &lumi);
    assert!(reference != 0.0);

    for &factor in &[2.0, 0.5, -3.0, 1e-3] {
        let mut scaled = filled(&samples());
        scale(&mut scaled, factor);
        assert_eq!(scaled.q2_slice(), grid.q2_slice());
        let result = convolute(&scaled, &x, &lumi);
        assert!(
            (result - factor * reference).abs() <= 1e-12 * (factor * reference).abs(),
            "factor = {}",
            factor
        );
    }

    // powers of two scale every weight exactly
    let mut doubled = filled(&samples());
    scale(&mut doubled, 2.0);
    assert_eq!(convolute(&doubled, &x, &lumi), 2.0 * reference);
}

#[test]
fn scale_by_zero_drops_the_storage() {
    for &zero in &[0.0, -0.0] {
        let mut grid = filled(&samples());
        assert!(!grid.is_empty());
        scale(&mut grid, zero);
        assert!(grid.is_empty());
        assert_eq!(grid.q2_slice(), (0, 0));
        assert_eq!(grid.weights(), Vec::<u64>::new());
        let x = grid_x(&grid);
        assert_eq!(convolute(&grid, &x, &smooth(&x)), 0.0);

        // the subgrid can be filled again
        fill(&mut grid, 0.1, 0.2, 8100.0, 1.0);
        assert!(!grid.is_empty());
    }
}

#[test]
fn scale_of_empty_subgrid_changes_nothing() {
    let mut grid = LagrangeSubgridV1::new(&default_params());
    scale(&mut grid, 3.0);
    assert!(grid.is_empty());
}

#[test]
fn merge_is_the_same_as_filling_everything_into_one_subgrid() {
    let all = samples();
    let whole = filled(&all);
    let x = grid_x(&whole);
    let lumi = smooth(&x);
    let reference = convolute(&whole, &x, &lumi);

    for split in 0..=all.len() {
        let (a, b) = all.split_at(split);

        let mut ab = filled(a);
        merge(&mut ab, filled(b)).unwrap();
        let mut ba = filled(b);
        merge(&mut ba, filled(a)).unwrap();

        assert_eq!(ab.q2_slice(), whole.q2_slice());
        assert_eq!(ba.q2_slice(), whole.q2_slice());
        for result in [convolute(&ab, &x, &lumi), convolute(&ba, &x, &lumi)] {
            assert!(
                (result - reference).abs() <= 1e-12 * reference.abs(),
                "split = {}: {} != {}",
                split,
                result,
                reference
            );
        }
    }
}

#[test]
fn merge_is_associative() {
    let all = samples();
    let (a, b, c) = (&all[0..2], &all[2..5], &all[5..7]);

    let mut left = filled(a);
    merge(&mut left, filled(b)).unwrap();
    merge(&mut left, filled(c)).unwrap();

    let mut right_tail = filled(b);
    merge(&mut right_tail, filled(c)).unwrap();
    let mut right = filled(a);
    merge(&mut right, right_tail).unwrap();

    assert_eq!(left.q2_slice(), right.q2_slice());
    let x = grid_x(&left);
    let lumi = smooth(&x);
    let (l, r) = (convolute(&left, &x, &lumi), convolute(&right, &x, &lumi));
    assert!((l - r).abs() <= 1e-12 * l.abs());
}

#[test]
fn merge_into_empty_subgrid_takes_the_storage() {
    let mut grid = LagrangeSubgridV1::new(&default_params());
    let other = filled(&samples());
    let (window, weights) = (other.q2_slice(), other.weights());
    let mut other = SubgridEnum::LagrangeSubgridV1(other);

    assert_eq!(grid.merge(&mut other, &plus), Ok(()));
    assert_eq!(grid.q2_slice(), window);
    assert_eq!(grid.weights(), weights);
    match other {
        SubgridEnum::LagrangeSubgridV1(other) => assert!(other.is_empty()),
        SubgridEnum::NtupleSubgrid(_) => unreachable!(),
    }
}

#[test]
fn merge_of_empty_subgrid_changes_nothing() {
    let mut grid = filled(&samples());
    let (window, weights) = (grid.q2_slice(), grid.weights());
    merge(&mut grid, LagrangeSubgridV1::new(&default_params())).unwrap();
    assert_eq!(grid.q2_slice(), window);
    assert_eq!(grid.weights(), weights);

    let mut empty = LagrangeSubgridV1::new(&default_params());
    merge(&mut empty, LagrangeSubgridV1::new(&default_params())).unwrap();
    assert!(empty.is_empty());
}

#[test]
fn merge_adds_node_by_node() {
    let q2 = AxisParams::new(6, 0, 0, 0).unwrap();
    let x = AxisParams::new(1, 0, 0, 0).unwrap();
    let params = SubgridParams::new(q2, x, x, false).unwrap();
    let sum = |a: u64, b: u64| a + b;

    let mut grid = LagrangeSubgridV1::from_weights(&params, 2, 4, &[1, 2]).unwrap();
    let other = LagrangeSubgridV1::from_weights(&params, 3, 6, &[10, 20, 30]).unwrap();
    let mut other = SubgridEnum::LagrangeSubgridV1(other);
    assert_eq!(grid.merge(&mut other, &sum), Ok(()));
    assert_eq!(grid.q2_slice(), (2, 6));
    assert_eq!(grid.weights(), vec![1, 12, 20, 30]);
    // the other subgrid is as it was
    match &other {
        SubgridEnum::LagrangeSubgridV1(other) => {
            assert_eq!(other.q2_slice(), (3, 6));
            assert_eq!(other.weights(), vec![10, 20, 30]);
        }
        SubgridEnum::NtupleSubgrid(_) => unreachable!(),
    }

    // windows that do not touch: the rows between them hold zero
    let mut grid = LagrangeSubgridV1::from_weights(&params, 4, 5, &[7]).unwrap();
    let other = LagrangeSubgridV1::from_weights(&params, 0, 2, &[1, 2]).unwrap();
    assert_eq!(grid.merge(&mut SubgridEnum::LagrangeSubgridV1(other), &sum), Ok(()));
    assert_eq!(grid.q2_slice(), (0, 5));
    assert_eq!(grid.weights(), vec![1, 2, 0, 0, 7]);
}

#[test]
fn merge_rejects_other_parameters() {
    let mut grid = filled(&samples());
    let (window, weights) = (grid.q2_slice(), grid.weights());

    for other_params in [
        params(41, 3, 50, 3, true),
        params(40, 2, 50, 3, true),
        params(40, 3, 49, 3, true),
        params(40, 3, 50, 2, true),
        params(40, 3, 50, 3, false),
    ] {
        let mut other = LagrangeSubgridV1::new(&other_params);
        let q2 = grid_q2(&other);
        fill(&mut other, 0.1, 0.2, q2[10], 1.0);
        let other_weights = other.weights();
        let mut other = SubgridEnum::LagrangeSubgridV1(other);

        assert_eq!(grid.merge(&mut other, &plus), Err(MergeError::ParameterMismatch));
        assert_eq!(grid.q2_slice(), window);
        assert_eq!(grid.weights(), weights);
        match other {
            SubgridEnum::LagrangeSubgridV1(other) => assert_eq!(other.weights(), other_weights),
            SubgridEnum::NtupleSubgrid(_) => unreachable!(),
        }
    }

    // another range of an axis
    let q2 = AxisParams::new(40, 3, ftau(1e2).to_bits(), ftau(1e7).to_bits()).unwrap();
    let x = default_params().x1();
    let other = LagrangeSubgridV1::new(&SubgridParams::new(q2, x, x, true).unwrap());
    assert_eq!(merge(&mut grid, other), Err(MergeError::ParameterMismatch));
}

#[test]
fn merge_rejects_another_storage_strategy() {
    let data = SubgridData { alphas: 0, alpha: 2, logxir: 0, logxif: 0 };
    let mut grid = filled(&samples());
    let weights = grid.weights();
    let mut other = SubgridEnum::NtupleSubgrid(NtupleSubgrid::new(1, 1, data));
    assert_eq!(grid.merge(&mut other, &plus), Err(MergeError::UnsupportedCombination));
    assert_eq!(grid.weights(), weights);

    let mut lagrange = SubgridEnum::LagrangeSubgridV1(grid);
    assert_eq!(other.merge(&mut lagrange, &plus), Err(MergeError::UnsupportedCombination));
    let mut ntuple = SubgridEnum::NtupleSubgrid(NtupleSubgrid::new(1, 1, data));
    assert_eq!(other.merge(&mut ntuple, &plus), Ok(()));
}

#[test]
fn subgrid_enum_merges_and_scales_lagrange_subgrids() {
    let all = samples();
    let whole = filled(&all);
    let mut a = SubgridEnum::LagrangeSubgridV1(filled(&all[0..3]));
    let mut b = SubgridEnum::LagrangeSubgridV1(filled(&all[3..7]));
    assert_eq!(a.merge(&mut b, &plus), Ok(()));
    a.scale(2.0_f64.to_bits(), &|weight: u64, factor: u64| {
        (f64::from_bits(weight) * f64::from_bits(factor)).to_bits()
    });
    match a {
        SubgridEnum::LagrangeSubgridV1(a) => {
            assert_eq!(a.q2_slice(), whole.q2_slice());
            let x = grid_x(&a);
            let lumi = smooth(&x);
            let (result, reference) = (convolute(&a, &x, &lumi), convolute(&whole, &x, &lumi));
            assert!((result - 2.0 * reference).abs() <= 1e-12 * reference.abs());
        }
        SubgridEnum::NtupleSubgrid(_) => unreachable!(),
    }
}

#[test]
fn fill_q2_slice_reports_what_it_cannot_export() {
    let identity = |cell: u64, _: usize, _: usize| cell;
    let mut buffer = vec![1; 50 * 50];

    let empty = LagrangeSubgridV1::new(&default_params());
    assert_eq!(empty.fill_q2_slice(0, &mut buffer, &identity), Err(SliceError::Empty));
    assert_eq!(buffer, vec![1; 50 * 50]);

    let grid = filled(&samples()[0..4]);
    let (lo, hi) = grid.q2_slice();
    assert!(0 < lo && lo < hi);
    assert_eq!(grid.fill_q2_slice(lo - 1, &mut buffer, &identity), Err(SliceError::OutsideWindow));
    assert_eq!(grid.fill_q2_slice(hi, &mut buffer, &identity), Err(SliceError::OutsideWindow));
    assert_eq!(buffer, vec![1; 50 * 50]);

    let mut long = vec![1; 50 * 50 + 1];
    assert_eq!(grid.fill_q2_slice(lo, &mut long, &identity), Err(SliceError::BufferTooLong));
    assert_eq!(long, vec![1; 50 * 50 + 1]);
    // an empty subgrid is reported before anything else
    assert_eq!(empty.fill_q2_slice(0, &mut long, &identity), Err(SliceError::Empty));

    assert_eq!(grid.fill_q2_slice(lo, &mut buffer, &identity), Ok(()));
    assert_eq!(&buffer[..], &grid.weights()[0..50 * 50]);
    assert_eq!(grid.fill_q2_slice(hi - 1, &mut buffer, &identity), Ok(()));
    assert_eq!(&buffer[..], &grid.weights()[(hi - lo - 1) * 50 * 50..]);

    // a shorter buffer takes the start of the slice
    let mut short = vec![1; 75];
    assert_eq!(grid.fill_q2_slice(lo, &mut short, &identity), Ok(()));
    assert_eq!(&short[..], &grid.weights()[0..75]);
}

#[test]
fn optimize_drops_the_rows_without_weight() {
    let q2 = AxisParams::new(8, 0, 0, 0).unwrap();
    let x = AxisParams::new(2, 0, 0, 0).unwrap();
    let params = SubgridParams::new(q2, x, x, false).unwrap();
    let negative_zero = (-0.0_f64).to_bits();
    let weights = vec![
        0, 0, 0, 0, // node 1
        0, negative_zero, 0, 0, // node 2
        0, 0, 7, 0, // node 3
        0, 0, 0, 0, // node 4
        1, 0, 0, 2, // node 5
        0, 0, 0, 0, // node 6
    ];
    let mut grid = LagrangeSubgridV1::from_weights(&params, 1, 7, &weights).unwrap();
    grid.optimize();
    assert_eq!(grid.q2_slice(), (3, 6));
    assert_eq!(grid.weights(), vec![0, 0, 7, 0, 0, 0, 0, 0, 1, 0, 0, 2]);

    // nothing is left to drop
    grid.optimize();
    assert_eq!(grid.q2_slice(), (3, 6));
    assert_eq!(grid.weights(), vec![0, 0, 7, 0, 0, 0, 0, 0, 1, 0, 0, 2]);

    // a single row with weight
    let mut grid = LagrangeSubgridV1::from_weights(&params, 1, 4, &weights[0..12]).unwrap();
    grid.optimize();
    assert_eq!(grid.q2_slice(), (3, 4));
    assert_eq!(grid.weights(), vec![0, 0, 7, 0]);
}

#[test]
fn optimize_drops_storage_without_weight() {
    let q2 = AxisParams::new(8, 0, 0, 0).unwrap();
    let x = AxisParams::new(2, 0, 0, 0).unwrap();
    let params = SubgridParams::new(q2, x, x, false).unwrap();
    let negative_zero = (-0.0_f64).to_bits();
    let weights = vec![0, 0, 0, 0, 0, negative_zero, 0, 0];
    let mut grid = LagrangeSubgridV1::from_weights(&params, 1, 3, &weights).unwrap();
    grid.optimize();
    assert!(grid.is_empty());
    assert_eq!(grid.q2_slice(), (0, 0));

    let mut empty = LagrangeSubgridV1::new(&params);
    empty.optimize();
    assert!(empty.is_empty());
}

#[test]
fn optimize_does_not_change_the_convolution() {
    let mut grid = filled(&samples());
    // weights that cancel leave rows of zeros at the lower end of the window
    fill(&mut grid, 0.3, 0.4, 250.0, -2.5);
    let x = grid_x(&grid);
    let lumi = smooth(&x);
    let reference = convolute(&grid, &x, &lumi);
    let window = grid.q2_slice();

    grid.optimize();
    assert_eq!(grid.q2_slice(), (16, window.1));
    assert!(window.0 < 16);
    assert_eq!(convolute(&grid, &x, &lumi).to_bits(), reference.to_bits());

    let mut grid = SubgridEnum::LagrangeSubgridV1(grid);
    grid.optimize();
    assert!(!grid.is_empty());
    match grid {
        SubgridEnum::LagrangeSubgridV1(grid) => {
            assert_eq!(convolute(&grid, &x, &lumi).to_bits(), reference.to_bits())
        }
        SubgridEnum::NtupleSubgrid(_) => unreachable!(),
    }
}

#[test]
fn interpolation_agrees_with_the_samples() {
    // a subgrid of samples gives the convolution without interpolation
    let data = SubgridData { alphas: 0, alpha: 2, logxir: 0, logxif: 0 };
    let mut exact = NtupleSubgrid::new(1, 1, data);
    let mut grids = vec![
        LagrangeSubgridV1::new(&params(40, 3, 50, 3, false)),
        LagrangeSubgridV1::new(&params(40, 3, 50, 3, true)),
    ];

    let mut state = 0x2545_f491_4f6c_dd1d_u64;
    let mut uniform = move || {
        state = state.wrapping_mul(6364136223846793005).wrapping_add(1442695040888963407);
        (state >> 11) as f64 / (1_u64 << 53) as f64
    };
    for _ in 0..2000 {
        let x1 = 10.0_f64.powf(-3.0 * uniform());
        let x2 = 10.0_f64.powf(-3.0 * uniform());
        let q2 = 10.0_f64.powf(3.0 + 3.0 * uniform());
        let weight = uniform() - 0.25;
        exact.fill(x1.to_bits(), x2.to_bits(), q2.to_bits(), 0, &[weight.to_bits()]);
        for grid in &mut grids {
            fill(grid, x1, x2, q2, weight);
        }
    }

    // a luminosity that falls steeply with the momentum fractions, as parton
    // distributions do
    let lumi = |x1: f64, x2: f64, q2: f64| {
        (1.0 - x1).powi(3) * (1.0 - x2).powi(3) / (x1 * x2).powf(1.2) * (1.0 + 0.1 * q2.ln())
    };
    let reference = f64::from_bits(exact.convolute(0, 0, &|sum: u64, ntuple: Ntuple| {
        let value = f64::from_bits(ntuple.weight)
            * lumi(
                f64::from_bits(ntuple.x1),
                f64::from_bits(ntuple.x2),
                f64::from_bits(ntuple.q2),
            );
        (f64::from_bits(sum) + value).to_bits()
    }));
    assert!(reference.abs() > 1.0);

    // flattening the weights makes the interpolation better
    for (grid, tolerance) in grids.iter().zip([5e-3, 1e-3]) {
        let x = grid_x(grid);
        let q2 = grid_q2(grid);
        let result = convolute_by_value(grid, &x, &q2, &lumi);
        assert!(
            (result / reference - 1.0).abs() < tolerance,
            "reweight = {}: {} != {}",
            grid.subgrid_params().reweight(),
            result,
            reference
        );
    }
}
