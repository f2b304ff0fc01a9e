use atomc::symbol::{MemClass, Symbol, SymbolKind, Type, TypeBase};
use atomc::symtable::SymTable;

fn var(name: &str) -> Symbol {
    Symbol::new(name.to_string(), SymbolKind::Var, 0)
}

#[test]
fn type_new_is_void_and_not_an_array() {
    let t = Type::new();
    assert_eq!(t.tb, TypeBase::Void);
    assert_eq!(t.struct_name, None);
    assert_eq!(t.elements, -1);
}

#[test]
fn type_clone_keeps_every_field() {
    let t = Type { tb: TypeBase::Struct, struct_name: Some("P".to_string()), elements: 0 };
    let c = t.clone();
    assert_eq!(c.tb, TypeBase::Struct);
    assert_eq!(c.struct_name, Some("P".to_string()));
    assert_eq!(c.elements, 0);
}

#[test]
fn symbol_new_fills_the_defaults() {
    let s = Symbol::new("main".to_string(), SymbolKind::Fn, 3);
    assert_eq!(s.name, "main");
    assert_eq!(s.kind, SymbolKind::Fn);
    assert_eq!(s.depth, 3);
    assert_eq!(s.mem, MemClass::NotApplicable);
    assert_eq!(s.type_info.tb, TypeBase::Void);
    assert_eq!(s.type_info.struct_name, None);
    assert_eq!(s.type_info.elements, -1);
    assert!(s.args.is_none());
    assert!(s.locals.is_none());
    assert!(s.members.is_none());
}

#[test]
fn new_table_is_empty_at_depth_zero() {
    let t = SymTable::new();
    assert!(t.symbols.is_empty());
    assert_eq!(t.current_depth, 0);
    assert_eq!(t.owner_idx, None);
    assert!(t.find_symbol("x").is_none());
}

#[test]
fn add_then_find() {
    let mut t = SymTable::new();
    assert_eq!(t.add_symbol(var("x")), Ok(()));
    let s = t.find_symbol("x").unwrap();
    assert_eq!(s.name, "x");
    assert_eq!(s.depth, 0);
    assert!(t.find_symbol("y").is_none());
}

#[test]
fn add_takes_the_current_depth() {
    let mut t = SymTable::new();
    t.push_domain();
    t.push_domain();
    assert_eq!(t.add_symbol(Symbol::new("x".to_string(), SymbolKind::Var, 7)), Ok(()));
    assert_eq!(t.find_symbol("x").unwrap().depth, 2);
}

#[test]
fn redefinition_at_the_same_depth_is_refused() {
    let mut t = SymTable::new();
    assert_eq!(t.add_symbol(var("x")), Ok(()));
    assert_eq!(t.add_symbol(var("x")), Err("Symbol redefinition: x".to_string()));
    assert_eq!(t.symbols.len(), 1);
}

#[test]
fn redefinition_refused_whatever_the_kind() {
    let mut t = SymTable::new();
    assert_eq!(t.add_symbol(Symbol::new("f".to_string(), SymbolKind::Fn, 0)), Ok(()));
    assert_eq!(
        t.add_symbol(Symbol::new("f".to_string(), SymbolKind::Struct, 0)),
        Err("Symbol redefinition: f".to_string())
    );
}

#[test]
fn inner_scope_may_shadow() {
    let mut t = SymTable::new();
    assert_eq!(t.add_symbol(var("x")), Ok(()));
    t.push_domain();
    assert_eq!(t.current_depth, 1);
    assert_eq!(t.add_symbol(var("x")), Ok(()));
    assert_eq!(t.find_symbol("x").unwrap().depth, 1);
    assert_eq!(t.symbols.len(), 2);
}

#[test]
fn closing_a_scope_drops_its_symbols() {
    let mut t = SymTable::new();
    assert_eq!(t.add_symbol(var("x")), Ok(()));
    assert_eq!(t.add_symbol(var("g")), Ok(()));
    t.push_domain();
    assert_eq!(t.add_symbol(var("x")), Ok(()));
    assert_eq!(t.add_symbol(var("y")), Ok(()));
    t.drop_domain();
    assert_eq!(t.current_depth, 0);
    assert_eq!(t.symbols.len(), 2);
    assert_eq!(t.find_symbol("x").unwrap().depth, 0);
    assert!(t.find_symbol("y").is_none());
    let names: Vec<&str> = t.symbols.iter().map(|s| s.name.as_str()).collect();
    assert_eq!(names, vec!["x", "g"]);
}

#[test]
fn scope_round_trip_restores_the_table() {
    let mut t = SymTable::new();
    assert_eq!(t.add_symbol(var("a")), Ok(()));
    t.push_domain();
    assert_eq!(t.add_symbol(var("b")), Ok(()));
    t.push_domain();
    assert_eq!(t.add_symbol(var("c")), Ok(()));
    t.drop_domain();
    t.drop_domain();
    assert_eq!(t.current_depth, 0);
    let names: Vec<&str> = t.symbols.iter().map(|s| s.name.as_str()).collect();
    assert_eq!(names, vec!["a"]);
}

#[test]
fn a_name_may_come_back_after_its_scope_closed() {
    let mut t = SymTable::new();
    t.push_domain();
    assert_eq!(t.add_symbol(var("i")), Ok(()));
    t.drop_domain();
    t.push_domain();
    assert_eq!(t.add_symbol(var("i")), Ok(()));
}

#[test]
fn find_symbol_mut_changes_the_last_definition() {
    let mut t = SymTable::new();
    assert_eq!(t.add_symbol(var("x")), Ok(()));
    t.push_domain();
    assert_eq!(t.add_symbol(var("x")), Ok(()));
    {
        let s = t.find_symbol_mut("x").unwrap();
        s.kind = SymbolKind::Param;
        s.mem = MemClass::Arg;
    }
    assert_eq!(t.symbols[0].kind, SymbolKind::Var);
    assert_eq!(t.symbols[1].kind, SymbolKind::Param);
    assert_eq!(t.symbols[1].mem, MemClass::Arg);
    assert!(t.find_symbol_mut("nope").is_none());
}

#[test]
fn owner_is_the_last_symbol() {
    let mut t = SymTable::new();
    t.set_owner_to_last();
    assert_eq!(t.owner_idx, None);
    assert_eq!(t.add_symbol(var("s")), Ok(()));
    assert_eq!(t.add_symbol(var("f")), Ok(()));
    t.set_owner_to_last();
    assert_eq!(t.owner_idx, Some(1));
    t.clear_owner();
    assert_eq!(t.owner_idx, None);
}

#[test]
fn symbol_clone_copies_nested_lists() {
    let mut inner = Symbol::new("x".to_string(), SymbolKind::Var, 1);
    inner.members = Some(vec![Symbol::new("y".to_string(), SymbolKind::Var, 2)]);
    let mut s = Symbol::new("S".to_string(), SymbolKind::Struct, 0);
    s.type_info.tb = TypeBase::Struct;
    s.members = Some(vec![inner, Symbol::new("z".to_string(), SymbolKind::Var, 1)]);
    s.mem = MemClass::Global;
    let c = s.clone();
    assert_eq!(c.name, "S");
    assert_eq!(c.kind, SymbolKind::Struct);
    assert_eq!(c.mem, MemClass::Global);
    assert_eq!(c.type_info.tb, TypeBase::Struct);
    assert!(c.args.is_none());
    assert!(c.locals.is_none());
    let members = c.members.unwrap();
    assert_eq!(members.len(), 2);
    assert_eq!(members[0].name, "x");
    assert_eq!(members[0].depth, 1);
    assert_eq!(members[1].name, "z");
    let nested = members[0].members.as_ref().unwrap();
    assert_eq!(nested.len(), 1);
    assert_eq!(nested[0].name, "y");
    assert_eq!(nested[0].depth, 2);
}
