use jolang::scope::{Scope, ScopeKind, VarType};

#[test]
fn scope_declare_and_get() {
    let mut s = Scope::new(ScopeKind::Root, 0, 1);
    assert_eq!(s.kind, ScopeKind::Root);
    assert_eq!((s.block, s.exit), (0, 1));
    let n = String::from("n");
    assert_eq!(s.get_var_offset(&n), None);
    s.decl_var(n.clone(), 3, VarType::SignedInt(8));
    assert_eq!(s.get_var_offset(&n), Some(3));
    assert_eq!(s.get_var_type(&n), Some(VarType::SignedInt(8)));
    assert_eq!(s.get_var_type(&String::from("m")), None);
}

#[test]
fn scope_redeclaring_replaces() {
    let mut s = Scope::new(ScopeKind::Block, 2, 3);
    s.decl_var(String::from("a"), 1, VarType::SignedInt(4));
    s.decl_var(String::from("b"), 2, VarType::UnsignedInt(1));
    s.decl_var(String::from("a"), 7, VarType::UnsignedInt(8));
    assert_eq!(s.get_var_offset(&String::from("a")), Some(7));
    assert_eq!(s.get_var_type(&String::from("a")), Some(VarType::UnsignedInt(8)));
    assert_eq!(s.get_var_offset(&String::from("b")), Some(2));
    assert_eq!(s.var_types(), vec![VarType::UnsignedInt(8), VarType::UnsignedInt(1)]);
    assert_eq!(s.get_vars().len(), 2);
}

#[test]
fn scope_update_moves_the_variable() {
    let mut s = Scope::new(ScopeKind::Loop, 0, 0);
    s.decl_var(String::from("x"), 1, VarType::SignedInt(2));
    s.decl_var(String::from("y"), 5, VarType::SignedInt(8));
    s.update_var(&String::from("x"), 9);
    assert_eq!(s.get_var_offset(&String::from("x")), Some(9));
    assert_eq!(s.get_var_type(&String::from("x")), Some(VarType::SignedInt(2)));
    assert_eq!(s.get_var_offset(&String::from("y")), Some(5));
}

#[test]
fn scope_vars_in_place() {
    let mut s = Scope::new(ScopeKind::Root, 0, 0);
    s.decl_var(String::from("x"), 1, VarType::SignedInt(2));
    s.get_vars_mut()[0].1.pos = 4;
    assert_eq!(s.get_var_offset(&String::from("x")), Some(4));
}

#[test]
fn scope_lookup_follows_the_latest_change() {
    let mut s = Scope::new(ScopeKind::Block, 0, 0);
    let a = String::from("a");
    let b = String::from("b");
    s.decl_var(a.clone(), 1, VarType::SignedInt(8));
    s.update_var(&a, 2);
    s.decl_var(b.clone(), 3, VarType::SignedInt(8));
    s.decl_var(a.clone(), 4, VarType::UnsignedInt(4));
    s.update_var(&b, 5);
    s.update_var(&a, 6);
    assert_eq!(s.get_var_offset(&a), Some(6));
    assert_eq!(s.get_var_offset(&b), Some(5));
    assert_eq!(s.get_var_offset(&String::from("c")), None);
}
