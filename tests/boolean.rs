use csg_kernel::boolean::{assemble, keeps_target, keeps_tool, select, Boolean};
use csg_kernel::tern::Tern;

#[test]
fn target_fragments_hope() {
    assert!(keeps_target(Boolean::Intersection, Tern::Yes));
    assert!(keeps_target(Boolean::Intersection, Tern::Maybe));
    assert!(!keeps_target(Boolean::Intersection, Tern::No));
    assert!(keeps_target(Boolean::Union, Tern::No));
    assert!(!keeps_target(Boolean::Union, Tern::Maybe));
    assert!(keeps_target(Boolean::Difference, Tern::No));
    assert!(!keeps_target(Boolean::Difference, Tern::Yes));
}

#[test]
fn tool_fragments_despair() {
    assert!(keeps_tool(Boolean::Union, Tern::No));
    assert!(keeps_tool(Boolean::Union, Tern::Maybe));
    assert!(!keeps_tool(Boolean::Union, Tern::Yes));
    assert!(keeps_tool(Boolean::Intersection, Tern::Yes));
    assert!(!keeps_tool(Boolean::Intersection, Tern::Maybe));
    assert!(keeps_tool(Boolean::Difference, Tern::Yes));
    assert!(!keeps_tool(Boolean::Difference, Tern::No));
}

#[test]
fn union_and_intersection_split_every_fragment() {
    for c in [Tern::Yes, Tern::No, Tern::Maybe] {
        assert_ne!(keeps_target(Boolean::Union, c), keeps_target(Boolean::Intersection, c));
        assert_ne!(keeps_tool(Boolean::Union, c), keeps_tool(Boolean::Intersection, c));
    }
}

#[test]
fn select_keeps_flagged_items_in_order() {
    let r = select(vec![10, 20, 30, 40], &vec![true, false, false, true]);
    assert_eq!(r, vec![10, 40]);
    let empty: Vec<u8> = select(vec![], &vec![]);
    assert!(empty.is_empty());
}

#[test]
fn assemble_picks_parts_per_operation() {
    let parts = || (vec!["ai"], vec!["ao"], vec!["bi"], vec!["bo"]);
    let (ai, ao, bi, bo) = parts();
    assert_eq!(assemble(Boolean::Union, ai, ao, bi, bo), vec!["ao", "bo"]);
    let (ai, ao, bi, bo) = parts();
    assert_eq!(assemble(Boolean::Intersection, ai, ao, bi, bo), vec!["ai", "bi"]);
    let (ai, ao, bi, bo) = parts();
    assert_eq!(assemble(Boolean::Difference, ai, ao, bi, bo), vec!["ao", "bi"]);
}

#[test]
fn shared_boundary_fragment_kept_once() {
    for op in [Boolean::Union, Boolean::Intersection] {
        assert_ne!(keeps_target(op, Tern::Maybe), keeps_tool(op, Tern::Maybe));
    }
    assert!(!keeps_target(Boolean::Difference, Tern::Maybe));
    assert!(!keeps_tool(Boolean::Difference, Tern::Maybe));
}
