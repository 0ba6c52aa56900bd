use pineappl::params::{Axis, AxisParams, SubgridParams};

#[test]
fn axis_needs_room_for_a_stencil() {
    assert!(AxisParams::new(4, 3, 0, 0).is_some());
    assert!(AxisParams::new(1, 0, 0, 0).is_some());
    assert!(AxisParams::new(3, 3, 0, 0).is_none());
    assert!(AxisParams::new(0, 0, 0, 0).is_none());
    assert!(AxisParams::new(2, 7, 0, 0).is_none());
}

#[test]
fn axis_keeps_what_it_was_made_with() {
    let axis = AxisParams::new(50, 3, 17, 42).unwrap();
    assert_eq!(axis.bins(), 50);
    assert_eq!(axis.order(), 3);
    assert_eq!(axis.min(), 17);
    assert_eq!(axis.max(), 42);
}

#[test]
fn subgrid_params_keep_what_they_were_made_with() {
    let q2 = AxisParams::new(40, 3, 1, 2).unwrap();
    let x1 = AxisParams::new(50, 2, 3, 4).unwrap();
    let x2 = AxisParams::new(60, 1, 5, 6).unwrap();
    let params = SubgridParams::new(q2, x1, x2, true).unwrap();
    assert_eq!(params.q2(), q2);
    assert_eq!(params.x1(), x1);
    assert_eq!(params.x2(), x2);
    assert!(params.reweight());
    assert!(!SubgridParams::new(q2, x1, x2, false).unwrap().reweight());
    assert_ne!(params, SubgridParams::new(q2, x2, x1, true).unwrap());
}

#[test]
fn subgrid_params_must_be_allocatable() {
    let side = 1_usize << (usize::BITS / 3);
    let large = AxisParams::new(side, 3, 0, 0).unwrap();
    // 8 * side^3 bytes are more than isize::MAX
    assert!(SubgridParams::new(large, large, large, false).is_none());
    let huge = AxisParams::new(usize::MAX, 3, 0, 0).unwrap();
    let one = AxisParams::new(1, 0, 0, 0).unwrap();
    assert!(SubgridParams::new(huge, one, one, false).is_none());
    assert!(SubgridParams::new(one, huge, one, false).is_none());
    assert!(SubgridParams::new(one, one, huge, false).is_none());
    // exactly isize::MAX / 8 nodes can still be addressed
    let most = AxisParams::new(isize::MAX as usize / 8, 0, 0, 0).unwrap();
    assert!(SubgridParams::new(most, one, one, false).is_some());
    let more = AxisParams::new(isize::MAX as usize / 8 + 1, 0, 0, 0).unwrap();
    assert!(SubgridParams::new(one, more, one, false).is_none());
}

#[test]
fn stencil_is_centred_on_the_cell() {
    let axis = AxisParams::new(50, 3, 0, 0).unwrap();
    assert_eq!(axis.stencil_start(10), 9);
    assert_eq!(axis.stencil_start(2), 1);
    assert_eq!(axis.stencil_start(46), 45);
    assert_eq!(axis.stencil_start(47), 46);

    let axis = AxisParams::new(30, 4, 0, 0).unwrap();
    assert_eq!(axis.stencil_start(10), 8);
    let axis = AxisParams::new(30, 5, 0, 0).unwrap();
    assert_eq!(axis.stencil_start(10), 8);
    let axis = AxisParams::new(30, 1, 0, 0).unwrap();
    assert_eq!(axis.stencil_start(10), 10);
    let axis = AxisParams::new(30, 0, 0, 0).unwrap();
    assert_eq!(axis.stencil_start(10), 10);
}

#[test]
fn stencil_stays_on_the_axis() {
    let axis = AxisParams::new(50, 3, 0, 0).unwrap();
    // the lower end
    assert_eq!(axis.stencil_start(0), 0);
    assert_eq!(axis.stencil_start(1), 0);
    // the upper end: the last stencil starts at the node 46
    assert_eq!(axis.stencil_start(48), 46);
    assert_eq!(axis.stencil_start(49), 46);
    assert_eq!(axis.stencil_start(1000), 46);
    assert_eq!(axis.stencil_start(usize::MAX), 46);

    // an axis that is a single stencil
    let axis = AxisParams::new(4, 3, 0, 0).unwrap();
    for cell in 0..10 {
        assert_eq!(axis.stencil_start(cell), 0);
    }
}

#[test]
fn stencil_holds_its_cell() {
    for order in 0..6 {
        for bins in order + 1..order + 9 {
            let axis = AxisParams::new(bins, order, 0, 0).unwrap();
            for cell in 0..bins {
                let k = axis.stencil_start(cell);
                assert!(k + order < bins);
                assert!(k <= cell && cell <= k + order);
            }
        }
    }
}

#[test]
fn axes_are_told_apart() {
    assert_ne!(Axis::X1, Axis::X2);
    assert_ne!(Axis::X1, Axis::Q2);
    assert_ne!(Axis::X2, Axis::Q2);
}
