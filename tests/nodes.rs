use liblumoc::{
    DeclEnumNode, IdentifierNode, ItemNode, Offset, RepresentationalType, Scope, SimpleType,
    SimpleTypeRef, Span, Spanned, Token, TokenKind, WithId,
};

fn offset(o: usize) -> Offset {
    Offset { offset: o, line: 1, col: o }
}

fn ident(s: &str) -> WithId<Spanned<IdentifierNode>> {
    WithId::new(
        3,
        Spanned::new(
            Span::new(offset(0), offset(s.len())),
            IdentifierNode(Token { kind: TokenKind::IdentifierIdentifier, content: s.to_string() }),
        ),
    )
}

#[test]
fn span_merge_covers_both() {
    let a = Span::new(offset(2), offset(5));
    let b = Span::new(offset(4), offset(9));
    let m = a.merge(&b);
    assert_eq!(m.start().offset, 2);
    assert_eq!(m.end().offset, 9);
    let n = b.merge(&a);
    assert_eq!(n.start().offset, 2);
    assert_eq!(n.end().offset, 9);
}

#[test]
fn offsets_compare_by_byte_offset() {
    let a = Offset { offset: 3, line: 1, col: 3 };
    let b = Offset { offset: 3, line: 2, col: 0 };
    assert!(a == b);
    assert!(offset(1) < offset(2));
    assert_eq!(offset(4).partial_cmp(&offset(4)), Some(std::cmp::Ordering::Equal));
}

#[test]
fn ids_and_spans_move_and_map() {
    let w = WithId::new(7, Spanned::new(Span::new(offset(1), offset(2)), 10u32));
    assert_eq!(w.id(), 7);
    let s = w.transpose();
    assert_eq!(s.span().start().offset, 1);
    assert_eq!(s.1.id(), 7);
    let back = s.transpose();
    let doubled = back.map_deep(|v| v * 2);
    assert_eq!(doubled.id(), 7);
    assert_eq!(doubled.inner().1, 20);
    let plain = WithId::new(1, 5u32).map(|v| v + 1);
    assert_eq!(plain.inner(), 6);
    let spanned = Spanned::new(Span::new(offset(0), offset(1)), 2u32).map(|v| v * 3);
    assert_eq!(spanned.1, 6);
}

#[test]
fn items_are_named_by_their_declaration() {
    let item = ItemNode::DeclEnumNode(DeclEnumNode { name: ident("Option"), branches: vec![] });
    assert_eq!(item.representative_name(), "Option");
}

#[test]
fn scope_stores_and_binds() {
    let mut scope = Scope::new();
    assert!(scope.get(SimpleTypeRef(1)).is_none());
    let a = scope.assign(&"a".to_string(), SimpleType::Primitive("A".to_string()));
    assert_eq!(a, SimpleTypeRef(1));
    scope.assign_alias(&"b".to_string(), a);
    scope.assign_alias(&"a".to_string(), SimpleTypeRef::unit());
    assert_eq!(scope.get_ref(&"a".to_string()), Some(SimpleTypeRef::unit()));
    assert_eq!(scope.get_ref(&"b".to_string()), Some(a));
    assert_eq!(scope.get_ref(&"c".to_string()), None);
    let entries = scope.entries();
    assert_eq!(entries.len(), 2);
    assert!(entries.contains(&("a".to_string(), SimpleTypeRef::unit())));
    assert!(entries.contains(&("b".to_string(), a)));
    match scope.get(a) {
        Some(SimpleType::Primitive(n)) => assert_eq!(n, "A"),
        _ => panic!("a is the primitive A"),
    }
}

#[test]
fn render_forms() {
    let v = |i: usize| RepresentationalType::Variable(i);
    assert_eq!(RepresentationalType::Top.render(), "⊤");
    assert_eq!(RepresentationalType::Bot.render(), "⊥");
    assert_eq!(RepresentationalType::Tuple(vec![]).render(), "()");
    assert_eq!(RepresentationalType::Tuple(vec![v(1)]).render(), "(<#1>,)");
    assert_eq!(RepresentationalType::Tuple(vec![v(1), v(20)]).render(), "(<#1>, <#20>)");
    assert_eq!(RepresentationalType::Variable(1234).render(), "<#1234>");
    assert_eq!(
        RepresentationalType::Function(vec![], Box::new(v(0))).render(),
        "fn() -> <#0>"
    );
    assert_eq!(
        RepresentationalType::Inter(Box::new(v(1)), Box::new(v(2))).render(),
        "<#1> ∩ <#2>"
    );
    assert_eq!(
        RepresentationalType::VariantTag { root: ident("Option"), variant: ident("some") }.render(),
        "Option.some"
    );
}
