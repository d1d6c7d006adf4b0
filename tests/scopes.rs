use csg_kernel::scopes::{Symbol, SymbolTable};

fn name(s: &str) -> String {
    s.to_string()
}

#[test]
fn inner_scope_shadows_outer() {
    let mut t: SymbolTable<i32, &str> = SymbolTable::new();
    t.insert_innermost(name("x"), Symbol::Variable(1));
    t.push_scope();
    t.insert_innermost(name("x"), Symbol::Variable(2));
    assert_eq!(t.get_var(&name("x")), Some(&2));
    t.pop_scope();
    assert_eq!(t.get_var(&name("x")), Some(&1));
    assert_eq!(t.get_var(&name("y")), None);
}

#[test]
fn assignment_replaces_binding() {
    let mut t: SymbolTable<i32, &str> = SymbolTable::new();
    t.insert_innermost(name("i"), Symbol::Variable(0));
    t.insert_innermost(name("i"), Symbol::Variable(5));
    assert_eq!(t.get_var(&name("i")), Some(&5));
    assert_eq!(t.depth(), 1);
}

#[test]
fn variable_lookup_passes_over_call_records() {
    let mut t: SymbolTable<i32, &str> = SymbolTable::new();
    t.insert_innermost(name("k"), Symbol::Variable(7));
    t.push_scope();
    t.insert_innermost(name("k"), Symbol::Function("call"));
    assert_eq!(t.get_var(&name("k")), Some(&7));
    assert_eq!(t.get_function(&name("k")), Some(&"call"));
}

#[test]
fn return_goes_to_innermost_call() {
    let mut t: SymbolTable<i32, &str> = SymbolTable::new();
    t.push_scope();
    t.insert_innermost(name("ret"), Symbol::Function("outer"));
    t.push_scope();
    t.insert_innermost(name("ret"), Symbol::Function("inner"));
    t.push_scope();
    assert!(t.set_function(&name("ret"), "value"));
    assert_eq!(t.get_function(&name("ret")), Some(&"value"));
    t.pop_scope();
    t.pop_scope();
    assert_eq!(t.get_function(&name("ret")), Some(&"outer"));
    assert!(!t.set_function(&name("missing"), "value"));
}

#[test]
fn outermost_scope_holds_library_names() {
    let mut t: SymbolTable<i32, &str> = SymbolTable::new();
    t.push_scope();
    t.insert_at(0, name("print"), Symbol::Variable(9));
    t.pop_scope();
    assert_eq!(t.get_var(&name("print")), Some(&9));
    t.insert_at(3, name("nowhere"), Symbol::Variable(1));
    assert_eq!(t.get_var(&name("nowhere")), None);
}
