use csg_kernel::tern::Tern;

#[test]
fn hope_counts_boundary_inside() {
    assert!(Tern::Yes.hope());
    assert!(Tern::Maybe.hope());
    assert!(!Tern::No.hope());
}

#[test]
fn despair_counts_boundary_outside() {
    assert!(Tern::Yes.despair());
    assert!(!Tern::Maybe.despair());
    assert!(!Tern::No.despair());
}

#[test]
fn negate_keeps_boundary() {
    assert_eq!(Tern::Yes.negate(), Tern::No);
    assert_eq!(Tern::No.negate(), Tern::Yes);
    assert_eq!(Tern::Maybe.negate(), Tern::Maybe);
}

#[test]
fn unit_square_containment_from_windings() {
    // centre of the square: one turn about the point
    assert_eq!(Tern::from_windings(false, &vec![1]), Tern::Yes);
    // a point on an edge
    assert_eq!(Tern::from_windings(true, &vec![0]), Tern::Maybe);
    // a point beyond the square
    assert_eq!(Tern::from_windings(false, &vec![0]), Tern::No);
}

#[test]
fn windings_sum_over_loops() {
    // inside an outer loop and inside its hole: 1 + (-1) turns, outside
    assert_eq!(Tern::from_windings(false, &vec![1, -1]), Tern::No);
    // a face made of a single clockwise loop still holds its interior
    assert_eq!(Tern::from_windings(false, &vec![-1]), Tern::Yes);
    assert_eq!(Tern::from_windings(false, &vec![]), Tern::No);
    assert_eq!(Tern::from_windings(false, &vec![2, 1, 0]), Tern::Yes);
}

#[test]
fn not_operator_negates() {
    assert_eq!(!Tern::Yes, Tern::No);
    assert_eq!(!Tern::No, Tern::Yes);
    assert_eq!(!Tern::Maybe, Tern::Maybe);
}
