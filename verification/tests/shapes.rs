use dfdx::error::Error;
use dfdx::shapes::axes::Axes;
use dfdx::shapes::broadcasts::{can_broadcast, BroadcastStridesTo, ReduceStridesTo};
use dfdx::shapes::shape::Shape;

fn shape(dims: &[usize]) -> Shape {
    Shape::new(dims.to_vec()).unwrap()
}

fn axes(idx: &[usize]) -> Axes {
    Axes::new(idx.to_vec()).unwrap()
}

#[test]
fn test_check() {
    assert_eq!(shape(&[1]).check(&shape(&[1, 2]), &axes(&[1])), Ok(()));
}

#[test]
#[should_panic]
fn test_check_failures() {
    shape(&[1]).check(&shape(&[2, 2]), &axes(&[1])).unwrap();
}

#[test]
fn test_check_reports_shape_mismatch() {
    assert_eq!(
        shape(&[1]).check(&shape(&[2, 2]), &axes(&[1])),
        Err(Error::ShapeMismatch)
    );
}

#[test]
fn test_no_conflict_reductions() {
    let src = shape(&[1, 2, 3, 4]);

    let dst = src.reduced(&axes(&[2, 3]));
    assert_eq!(dst, Ok(shape(&[1, 2])));

    let dst = src.reduced(&axes(&[0, 3]));
    assert_eq!(dst, Ok(shape(&[2, 3])));

    let dst = src.reduced(&axes(&[1, 3]));
    assert_eq!(dst, Ok(shape(&[1, 3])));
}

#[test]
fn test_conflicting_reductions() {
    let src = shape(&[1, 2, 3]);

    let dst = src.reduced(&axes(&[1]));
    assert_eq!(dst, Ok(shape(&[1, 3])));

    let dst = src.reduced(&axes(&[0]));
    assert_eq!(dst, Ok(shape(&[2, 3])));
}

#[test]
fn test_broadcast_strides() {
    let src = shape(&[1]);
    let dst_strides = src.broadcast_strides(&src.strides(), &shape(&[4, 1, 5]), &axes(&[0, 2]));
    assert_eq!(dst_strides, Ok(vec![0, 1, 0]));
}

#[test]
fn test_can_broadcast_matches_pairwise() {
    assert!(can_broadcast(&shape(&[3]), &shape(&[5, 3]), &axes(&[0])));
    assert!(can_broadcast(&shape(&[5]), &shape(&[5, 3]), &axes(&[1])));
    assert!(!can_broadcast(&shape(&[3]), &shape(&[5, 3]), &axes(&[1])));
    assert!(!can_broadcast(&shape(&[3]), &shape(&[5, 3]), &axes(&[0, 1])));
    assert!(!can_broadcast(&shape(&[3]), &shape(&[5, 3]), &axes(&[2])));
}
