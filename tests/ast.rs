use csg_kernel::ast::{Meta, Operator, RuntimeError};

#[test]
fn meta_keeps_node_and_offset() {
    let m = Meta::new(Operator::Add, 17);
    assert_eq!(m.inside, Operator::Add);
    assert_eq!(m.byte_offset, 17);
}

#[test]
fn runtime_error_message() {
    let e = RuntimeError::new("Object is not a number".to_string());
    assert_eq!(e.message(), "Object is not a number");
}
