use liblumoc::lumo_ast::WithId;
use liblumoc::{
    LumoExpr, LumoFnType, LumoItem, LumoMatchArm, LumoMatchExpr, LumoProductType, LumoProgram,
    LumoType, Scope, SimpleType, SimpleTypeRef,
};

fn var(s: &str) -> LumoType {
    LumoType::TypeVar(s.to_string())
}

#[test]
fn substitute_replaces_matching_variables_everywhere() {
    let t = LumoType::Fn(LumoFnType {
        parameter_types: vec![var("a"), var("b")],
        return_type: Box::new(LumoType::Product(LumoProductType::Named(vec![
            ("x".to_string(), var("a")),
            ("y".to_string(), LumoType::Product(LumoProductType::Index(vec![var("a"), var("c")]))),
        ]))),
    });
    let r = t.substitute("a", &var("z"));
    let expected = LumoType::Fn(LumoFnType {
        parameter_types: vec![var("z"), var("b")],
        return_type: Box::new(LumoType::Product(LumoProductType::Named(vec![
            ("x".to_string(), var("z")),
            ("y".to_string(), LumoType::Product(LumoProductType::Index(vec![var("z"), var("c")]))),
        ]))),
    });
    assert_eq!(r, expected);
    assert_eq!(var("q").substitute("a", &var("z")), var("q"));
}

#[test]
fn serialized_nodes_report_their_ids() {
    let name = LumoExpr::Name { id: 4, content: "f".to_string() };
    assert_eq!(name.id(), 4);
    let m = LumoMatchExpr { id: 9, target: Box::new(name), match_arms: vec![LumoMatchArm::Discard { id: 10 }] };
    assert_eq!(m.id(), 9);
    assert_eq!(m.match_arms[0].id(), 10);
    let item = LumoItem::Expr(LumoExpr::Match(m));
    assert_eq!(item.id(), 9);
    let program = LumoProgram { id: 1, items: vec![item] };
    assert_eq!(program.id(), 1);
    let e = LumoItem::DefineEnum { id: 2, name: "E".to_string(), variants: vec![] };
    assert_eq!(e.id(), 2);
}

#[test]
fn mutable_access_to_stored_types() {
    let mut scope = Scope::new();
    let a = scope.put(SimpleType::variable());
    let b = scope.put(SimpleType::Primitive("Int".to_string()));
    match scope.get_mut(a) {
        Some(SimpleType::Variable(st)) => st.upper_bounds.push(b),
        _ => panic!("a is a variable"),
    }
    match scope.get(a) {
        Some(SimpleType::Variable(st)) => assert_eq!(st.upper_bounds, vec![b]),
        _ => panic!("a is a variable"),
    }
    assert!(scope.get_mut(SimpleTypeRef(10)).is_none());
    let (x, y) = scope.get_disjoint_mut(a, a);
    assert!(x.is_none() && y.is_none());
    let (x, y) = scope.get_disjoint_mut(b, a);
    match (x, y) {
        (Some(SimpleType::Primitive(n)), Some(SimpleType::Variable(st))) => {
            n.push_str("eger");
            st.lower_bounds.push(b);
        }
        _ => panic!("both are present"),
    }
    match scope.get(b) {
        Some(SimpleType::Primitive(n)) => assert_eq!(n, "Integer"),
        _ => panic!("b is a primitive"),
    }
    let (x, y) = scope.get_disjoint_mut(a, SimpleTypeRef(10));
    assert!(x.is_some() && y.is_none());
}
