use pineappl::basis::{basis_denominator, fi};

fn exact(i: usize, n: usize, u: i64) -> Option<i64> {
    let factor = |product: u64, z: usize, i: usize| {
        let distance = if z < i { u - z as i64 } else { z as i64 - u };
        (product as i64 * distance) as u64
    };
    let divide = |product: u64, denominator: u64| {
        assert_eq!(product as i64 % denominator as i64, 0);
        (product as i64 / denominator as i64) as u64
    };
    fi(i, n, 1, &factor, &divide).map(|value| value as i64)
}

#[test]
fn denominator_is_a_product_of_two_factorials() {
    assert_eq!(basis_denominator(0, 0), Some(1));
    assert_eq!(basis_denominator(0, 1), Some(1));
    assert_eq!(basis_denominator(1, 1), Some(1));
    assert_eq!(basis_denominator(0, 3), Some(6));
    assert_eq!(basis_denominator(1, 3), Some(2));
    assert_eq!(basis_denominator(2, 3), Some(2));
    assert_eq!(basis_denominator(3, 3), Some(6));
    assert_eq!(basis_denominator(2, 5), Some(12));
    assert_eq!(basis_denominator(5, 5), Some(120));
    assert_eq!(basis_denominator(3, 7), Some(144));
}

#[test]
fn denominator_exists_for_nodes_of_the_stencil_only() {
    assert_eq!(basis_denominator(1, 0), None);
    assert_eq!(basis_denominator(4, 3), None);
    assert_eq!(basis_denominator(usize::MAX, 3), None);
}

#[test]
fn denominator_must_fit() {
    assert_eq!(basis_denominator(0, 20), Some(2_432_902_008_176_640_000));
    assert_eq!(basis_denominator(20, 20), Some(2_432_902_008_176_640_000));
    assert_eq!(basis_denominator(0, 21), None);
    assert_eq!(basis_denominator(21, 21), None);
    // 10! * 15! fits, 10! * 16! does not
    assert_eq!(basis_denominator(10, 25), Some(3_628_800 * 1_307_674_368_000));
    assert_eq!(basis_denominator(10, 26), None);
    assert_eq!(basis_denominator(1000, 2000), None);
    assert_eq!(basis_denominator(0, usize::MAX), None);
}

#[test]
fn fi_multiplies_the_factor_of_each_other_node_in_rising_order() {
    let calls = std::cell::RefCell::new(Vec::new());
    let factor = |product: u64, z: usize, i: usize| {
        calls.borrow_mut().push((product, z, i));
        product * 10 + z as u64
    };
    let divide = |product: u64, denominator: u64| product * 1000 + denominator;
    assert_eq!(fi(2, 4, 7, &factor, &divide), Some(70134 * 1000 + 4));
    assert_eq!(*calls.borrow(), vec![(7, 0, 2), (70, 1, 2), (701, 3, 2), (7013, 4, 2)]);

    // a stencil of one node has no factor
    calls.borrow_mut().clear();
    assert_eq!(fi(0, 0, 7, &factor, &divide), Some(7001));
    assert!(calls.borrow().is_empty());
}

#[test]
fn fi_has_no_value_without_a_denominator() {
    let factor = |_: u64, _: usize, _: usize| panic!("no factor is asked for");
    let divide = |_: u64, _: u64| panic!("nothing is divided");
    assert_eq!(fi(4, 3, 1, &factor, &divide), None);
    assert_eq!(fi(0, 21, 1, &factor, &divide), None);
}

#[test]
fn basis_at_a_node_is_one_or_zero() {
    for n in 0..8 {
        for node in 0..=n {
            for i in 0..=n {
                assert_eq!(exact(i, n, node as i64), Some(if i == node { 1 } else { 0 }));
            }
        }
    }
}

#[test]
fn basis_at_whole_offsets_sums_to_one() {
    for n in 0..8 {
        for u in -6..14 {
            let sum: i64 = (0..=n).map(|i| exact(i, n, u).unwrap()).sum();
            assert_eq!(sum, 1, "n = {}, u = {}", n, u);
        }
    }
}

#[test]
fn basis_extrapolates_with_exact_values() {
    // order 2 at u = 3: (u - 1)(u - 2) / 2, -u (u - 2), u (u - 1) / 2
    assert_eq!(exact(0, 2, 3), Some(1));
    assert_eq!(exact(1, 2, 3), Some(-3));
    assert_eq!(exact(2, 2, 3), Some(3));
    // order 3 at u = -1
    assert_eq!(exact(0, 3, -1), Some(4));
    assert_eq!(exact(1, 3, -1), Some(-6));
    assert_eq!(exact(2, 3, -1), Some(4));
    assert_eq!(exact(3, 3, -1), Some(-1));
}
