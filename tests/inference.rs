use liblumoc::{
    coalesce_type, coalesce_type_at, constrain, infer_expr, infer_item, infer_pat, scan,
    transform_syntax_type, BlockNode, DeclEnumNode, DeclFunctionNode, DestructuringBodyNode,
    DestructuringTagNode, EnumBranchNode, ExpressionNode, FieldsNode, FunctionCallArgumentNode,
    FunctionCallNode, FunctionParameterNode, FunctionParameterPatternNode, IdentifierNode,
    InfixOperatorKind, InfixOperatorNode, ItemNode, MatchNode, NameNode, Offset, PathNode,
    PatternNode, PostfixOperatorKind, PostfixOperatorNode, PrefixOperatorKind,
    PrefixOperatorNode, Scope, SimplePatternNode, SimpleType, SimpleTypeRef, Span, Spanned,
    Token, TokenKind, TypeNode, VariableState, WithId,
};

fn span() -> Span {
    Span::new(
        Offset { offset: 0, line: 1, col: 0 },
        Offset { offset: 0, line: 1, col: 0 },
    )
}

fn token(s: &str) -> Token {
    Token { kind: TokenKind::IdentifierIdentifier, content: s.to_string() }
}

fn ident(s: &str) -> WithId<Spanned<IdentifierNode>> {
    WithId::new(0, Spanned::new(span(), IdentifierNode(token(s))))
}

fn node<T>(value: T) -> WithId<Spanned<T>> {
    WithId::new(0, Spanned::new(span(), value))
}

fn name(s: &str) -> ExpressionNode {
    ExpressionNode::Name(NameNode(IdentifierNode(token(s))))
}

fn block(es: Vec<ExpressionNode>) -> ExpressionNode {
    ExpressionNode::Block(BlockNode(es.into_iter().map(node).collect()))
}

fn call(f: ExpressionNode, args: Vec<ExpressionNode>) -> ExpressionNode {
    ExpressionNode::FunctionCall(FunctionCallNode {
        f: Box::new(f),
        args: args.into_iter().map(FunctionCallArgumentNode::Expr).collect(),
    })
}

fn path_ty(parts: &[&str]) -> TypeNode {
    TypeNode::Path(PathNode(parts.iter().map(|p| ident(p)).collect()))
}

fn param(n: &str, ty: Option<TypeNode>) -> WithId<Spanned<FunctionParameterNode>> {
    node(FunctionParameterNode {
        pattern: node(FunctionParameterPatternNode::Bind(IdentifierNode(token(n)))),
        ty: ty.map(node),
    })
}

fn func(n: &str, params: Vec<WithId<Spanned<FunctionParameterNode>>>, body: Option<ExpressionNode>) -> ItemNode {
    ItemNode::DeclFunctionNode(DeclFunctionNode {
        name: ident(n),
        parameters: params,
        return_type: None,
        body: body.map(node),
    })
}

fn enum_decl(n: &str, branches: Vec<(&str, Option<FieldsNode>)>) -> ItemNode {
    ItemNode::DeclEnumNode(DeclEnumNode {
        name: ident(n),
        branches: branches
            .into_iter()
            .map(|(b, fields)| node(EnumBranchNode { name: ident(b), fields: fields.map(node) }))
            .collect(),
    })
}

fn items(list: Vec<ItemNode>) -> Vec<WithId<Spanned<ItemNode>>> {
    list.into_iter().map(node).collect()
}

fn error_of<T>(r: Result<T, liblumoc::InferError>) -> String {
    match r {
        Ok(_) => panic!("expected an error"),
        Err(e) => e.message,
    }
}

fn render_name(scope: &Scope, n: &str) -> String {
    let r = scope.get_ref(&n.to_string()).expect("name is bound");
    coalesce_type(scope, r).render()
}

#[test]
fn identity_function_without_annotation_has_no_core_definition() {
    let program = items(vec![func("id", vec![param("x", None)], Some(block(vec![name("x")])))]);
    assert_eq!(error_of(scan(&program)), "Function \"id\" has no core definition");
}

#[test]
fn identity_function_with_annotation_infers() {
    let program = items(vec![func(
        "id",
        vec![param("x", Some(path_ty(&["Int"])))],
        Some(block(vec![name("x")])),
    )]);
    let mut scope = scan(&program).ok().expect("scan succeeds");
    let r = infer_item(&mut scope, &program[0].1 .1).ok().expect("inference succeeds");
    assert_eq!(scope.get_ref(&"id".to_string()), Some(r));
    assert_eq!(coalesce_type(&scope, r).render(), "fn(<#1>) -> <#2>");
}

#[test]
fn option_enum_variants() {
    let program = items(vec![enum_decl(
        "Option",
        vec![("none", None), ("some", Some(FieldsNode::Unnamed(vec![node(path_ty(&["Int"]))])))],
    )]);
    let scope = scan(&program).ok().expect("scan succeeds");
    assert_eq!(render_name(&scope, "Option.none"), "Option.none");
    assert_eq!(render_name(&scope, "Option.some"), "fn(Primitive(\"Int\")) -> Option.some");
    assert_eq!(render_name(&scope, "Option"), "<#1> ∪ Option.some ∪ Option.none");
}

#[test]
fn apply_function_without_annotations_has_no_core_definition() {
    let body = block(vec![call(name("f"), vec![name("x")])]);
    let program = items(vec![func("apply", vec![param("f", None), param("x", None)], Some(body))]);
    assert_eq!(error_of(scan(&program)), "Function \"apply\" has no core definition");
}

#[test]
fn application_relates_argument_to_callee_domain() {
    let mut scope = Scope::new();
    let f = scope.assign(&"f".to_string(), SimpleType::variable());
    let x = scope.assign(&"x".to_string(), SimpleType::variable());
    let r = infer_expr(&mut scope, &call(name("f"), vec![name("x")])).ok().expect("call infers");
    match scope.get(f) {
        Some(SimpleType::Variable(st)) => {
            assert_eq!(st.upper_bounds.len(), 1);
            match scope.get(st.upper_bounds[0]) {
                Some(SimpleType::Function(args, ret)) => {
                    assert_eq!(args, &vec![x]);
                    assert_eq!(*ret, r);
                }
                _ => panic!("f is used as a function"),
            }
        }
        _ => panic!("f is a variable"),
    }
    assert_eq!(coalesce_type_at(&scope, f, false).render(), "<#3> ∪ fn(<#1>) -> <#2>");
}

#[test]
fn unknown_name_is_reported() {
    let program = items(vec![func("bad", vec![], Some(block(vec![name("zzz")])))]);
    let mut scope = scan(&program).ok().expect("scan succeeds");
    assert_eq!(
        error_of(infer_item(&mut scope, &program[0].1 .1)),
        "There is no \"zzz\" in scope"
    );
}

#[test]
fn duplicate_declaration_is_reported() {
    let program = items(vec![enum_decl("A", vec![]), func("A", vec![], Some(block(vec![])))]);
    assert_eq!(error_of(scan(&program)), "Item \"A\" declared multiple times");
}

#[test]
fn duplicate_function_after_enum_order_is_reported() {
    let program = items(vec![func("A", vec![], None), enum_decl("A", vec![])]);
    assert_eq!(error_of(scan(&program)), "Item \"A\" declared multiple times");
}

#[test]
fn arity_mismatch_is_reported() {
    let program = items(vec![
        enum_decl("B", vec![("tag", Some(FieldsNode::Unnamed(vec![node(path_ty(&["Int"]))])))]),
        func("f", vec![], Some(block(vec![call(name("B.tag"), vec![])]))),
    ]);
    let mut scope = scan(&program).ok().expect("scan succeeds");
    let message = error_of(infer_item(&mut scope, &program[1].1 .1));
    assert!(message.contains("Cannot constraint"));
    assert_eq!(message, "Cannot constraint Function(_) -> _ <: Function() -> _");
}

#[test]
fn overloads_need_exactly_one_core_definition() {
    let two = items(vec![
        func("g", vec![param("a", Some(path_ty(&["Int"])))], None),
        func("g", vec![], None),
    ]);
    assert_eq!(error_of(scan(&two)), "Function \"g\" has multiple core definition");
    let one = items(vec![
        func("g", vec![param("a", Some(path_ty(&["Int"])))], None),
        func("g", vec![param("a", None)], None),
    ]);
    let scope = scan(&one).ok().expect("one core definition");
    let g = scope.get_ref(&"g".to_string()).unwrap();
    match scope.get(g) {
        Some(SimpleType::Function(args, _)) => assert_eq!(args.len(), 1),
        _ => panic!("g is declared as a function"),
    }
}

#[test]
fn named_fields_are_not_supported() {
    let program = items(vec![enum_decl(
        "P",
        vec![("at", Some(FieldsNode::Named(vec![(ident("x"), node(path_ty(&["Int"])))])))],
    )]);
    assert_eq!(error_of(scan(&program)), "enum variant with named fields is not supported yet");
}

#[test]
fn unknown_field_type_is_reported() {
    let program = items(vec![enum_decl(
        "P",
        vec![("at", Some(FieldsNode::Unnamed(vec![node(path_ty(&["Nope"]))])))],
    )]);
    assert_eq!(error_of(scan(&program)), "cannot transform path type syntax");
}

#[test]
fn lowering_paths_and_tuples() {
    let mut scope = Scope::new();
    let int = scope.assign(&"Std.Int".to_string(), SimpleType::Primitive("Int".to_string()));
    assert_eq!(transform_syntax_type(&mut scope, &path_ty(&["Std", "Int"])).ok(), Some(int));
    assert_eq!(
        error_of(transform_syntax_type(&mut scope, &TypeNode::Tuple(vec![]))),
        "cannot transform tuple type syntax"
    );
}

#[test]
fn unsupported_expressions_are_reported() {
    let mut scope = Scope::new();
    let prefix = ExpressionNode::PrefixOperator(PrefixOperatorNode {
        kind: node(PrefixOperatorKind::Not),
        expr: node(Box::new(block(vec![]))),
    });
    assert_eq!(error_of(infer_expr(&mut scope, &prefix)), "prefix operator is not implemented yet");
    let infix = ExpressionNode::InfixOperator(InfixOperatorNode {
        lhs: node(Box::new(block(vec![]))),
        kind: node(InfixOperatorKind::Add),
        rhs: node(Box::new(block(vec![]))),
    });
    assert_eq!(error_of(infer_expr(&mut scope, &infix)), "infix operator is not implemented yet");
    let field = ExpressionNode::PostfixOperator(PostfixOperatorNode {
        expr: node(Box::new(block(vec![]))),
        kind: node(PostfixOperatorKind::FieldAccess(ident("x"))),
    });
    assert_eq!(error_of(infer_expr(&mut scope, &field)), "field access is not implemented yet");
    let index = ExpressionNode::PostfixOperator(PostfixOperatorNode {
        expr: node(Box::new(block(vec![]))),
        kind: node(PostfixOperatorKind::Index(vec![])),
    });
    assert_eq!(error_of(infer_expr(&mut scope, &index)), "index operator is not implemented yet");
    let mut_arg = ExpressionNode::FunctionCall(FunctionCallNode {
        f: Box::new(block(vec![])),
        args: vec![FunctionCallArgumentNode::MutName(IdentifierNode(token("v")))],
    });
    assert_eq!(
        error_of(infer_expr(&mut scope, &mut_arg)),
        "mut name in argument position is not supported yet"
    );
}

#[test]
fn postfix_call_behaves_like_call() {
    let mut scope = Scope::new();
    let unit = SimpleTypeRef::unit();
    let f = scope.put(SimpleType::Function(vec![unit], unit));
    scope.assign_alias(&"f".to_string(), f);
    let expr = ExpressionNode::PostfixOperator(PostfixOperatorNode {
        expr: node(Box::new(name("f"))),
        kind: node(PostfixOperatorKind::FunctionCall(vec![node(block(vec![]))])),
    });
    let r = infer_expr(&mut scope, &expr).ok().expect("call infers");
    match scope.get(r) {
        Some(SimpleType::Variable(st)) => assert_eq!(st.lower_bounds, vec![unit]),
        _ => panic!("the result is a variable"),
    }
}

#[test]
fn blocks_matches_and_variants() {
    let mut scope = Scope::new();
    assert_eq!(infer_expr(&mut scope, &block(vec![])).ok(), Some(SimpleTypeRef::unit()));
    let before = scope.len();
    let m = ExpressionNode::Match(MatchNode { expr: Box::new(node(block(vec![]))), arms: vec![] });
    let r = infer_expr(&mut scope, &m).ok().unwrap();
    assert_eq!(r, SimpleTypeRef(before));
    let variant = ExpressionNode::EnumVariant(liblumoc::EnumVariantNode {
        tag: node(liblumoc::EnumTagNode::Inferred(ident("some"))),
        body: node(liblumoc::CompoundExprBodyNode::Empty),
    });
    let v = infer_expr(&mut scope, &variant).ok().unwrap();
    assert_eq!(v, SimpleTypeRef(before + 1));
}

#[test]
fn patterns_bind_fresh_variables() {
    let mut scope = Scope::new();
    let x = infer_pat(&mut scope, &PatternNode::NameBind(Spanned::new(span(), IdentifierNode(token("x"))))).ok().unwrap();
    assert_eq!(scope.get_ref(&"x".to_string()), Some(x));
    let tagged = PatternNode::SimplePattern(SimplePatternNode::TaggedDestructuring(
        node(DestructuringTagNode::Inferred(ident("some"))),
        node(DestructuringBodyNode::Positional(vec![node(PatternNode::NameBind(Spanned::new(
            span(),
            IdentifierNode(token("y")),
        )))])),
    ));
    let t = infer_pat(&mut scope, &tagged).ok().unwrap();
    assert_eq!(t, SimpleTypeRef(x.0 + 1));
    assert_eq!(scope.get_ref(&"y".to_string()), Some(SimpleTypeRef(x.0 + 2)));
    let named = PatternNode::SimplePattern(SimplePatternNode::TaggedDestructuring(
        node(DestructuringTagNode::Inferred(ident("some"))),
        node(DestructuringBodyNode::Named(vec![])),
    ));
    assert_eq!(error_of(infer_pat(&mut scope, &named)), "named destructuring pattern is not supported yet");
}

#[test]
fn mut_bind_parameters_are_not_supported() {
    let p = node(FunctionParameterNode {
        pattern: node(FunctionParameterPatternNode::MutBind(IdentifierNode(token("x")))),
        ty: Some(node(path_ty(&["Int"]))),
    });
    let program = items(vec![func("m", vec![p], None)]);
    let mut scope = scan(&program).ok().expect("the annotated declaration is the core definition");
    assert_eq!(error_of(infer_item(&mut scope, &program[0].1 .1)), "mut bind pattern is not supported yet");
}

#[test]
fn constrain_only_adds_bounds() {
    let mut scope = Scope::new();
    let int = scope.put(SimpleType::Primitive("Int".to_string()));
    let v = scope.put(SimpleType::variable());
    let w = scope.put(SimpleType::variable());
    assert!(constrain(&mut scope, int, v).is_ok());
    assert!(constrain(&mut scope, v, w).is_ok());
    match scope.get(v) {
        Some(SimpleType::Variable(st)) => {
            assert_eq!(st.lower_bounds, vec![int]);
            assert_eq!(st.upper_bounds, vec![w]);
        }
        _ => panic!("v stays a variable"),
    }
    match scope.get(w) {
        Some(SimpleType::Variable(st)) => assert_eq!(st.lower_bounds, vec![int]),
        _ => panic!("w stays a variable"),
    }
    assert!(constrain(&mut scope, v, w).is_ok());
    match scope.get(v) {
        Some(SimpleType::Variable(st)) => assert_eq!(st.upper_bounds, vec![w, w]),
        _ => panic!("v stays a variable"),
    }
}

#[test]
fn constrain_functions_of_different_arity_fails() {
    let mut scope = Scope::new();
    let unit = SimpleTypeRef::unit();
    let one = scope.put(SimpleType::Function(vec![unit], unit));
    let two = scope.put(SimpleType::Function(vec![unit, unit], unit));
    assert_eq!(
        error_of(constrain(&mut scope, one, two)),
        "Cannot constraint Function(_) -> _ <: Function(_, _) -> _"
    );
}

#[test]
fn constrain_functions_is_contravariant_in_arguments() {
    let mut scope = Scope::new();
    let a = scope.put(SimpleType::variable());
    let r = scope.put(SimpleType::variable());
    let b = scope.put(SimpleType::variable());
    let s = scope.put(SimpleType::variable());
    let f = scope.put(SimpleType::Function(vec![a], r));
    let g = scope.put(SimpleType::Function(vec![b], s));
    assert!(constrain(&mut scope, f, g).is_ok());
    match scope.get(b) {
        Some(SimpleType::Variable(st)) => assert_eq!(st.upper_bounds, vec![a]),
        _ => panic!("b stays a variable"),
    }
    match scope.get(r) {
        Some(SimpleType::Variable(st)) => assert_eq!(st.upper_bounds, vec![s]),
        _ => panic!("r stays a variable"),
    }
}

#[test]
fn constrain_primitives() {
    let mut scope = Scope::new();
    let int = scope.put(SimpleType::Primitive("Int".to_string()));
    let int2 = scope.put(SimpleType::Primitive("Int".to_string()));
    assert!(constrain(&mut scope, int, int2).is_ok());
    assert_eq!(
        error_of(constrain(&mut scope, int, SimpleTypeRef::unit())),
        "Cannot constraint Primitive(Int) <: Primitive(Unit)"
    );
    assert!(constrain(&mut scope, int, SimpleTypeRef(99)).is_ok());
}

#[test]
fn coalescing_a_cycle_terminates_with_a_binder() {
    let mut scope = Scope::new();
    let v = scope.put(SimpleType::variable());
    let f = scope.put(SimpleType::Function(vec![], v));
    assert!(constrain(&mut scope, f, v).is_ok());
    assert_eq!(coalesce_type(&scope, v).render(), "μ<#1>. (<#2> ∪ fn() -> <#1>)");
}

#[test]
fn polarity_swaps_bounds_and_joins() {
    let mut scope = Scope::new();
    let int = scope.put(SimpleType::Primitive("Int".to_string()));
    let unit = SimpleTypeRef::unit();
    let v = scope.put(SimpleType::Variable(VariableState {
        lower_bounds: vec![int, unit],
        upper_bounds: vec![unit, int],
    }));
    assert_eq!(
        coalesce_type_at(&scope, v, true).render(),
        "<#1> ∪ Primitive(\"Int\") ∪ Primitive(\"Unit\")"
    );
    assert_eq!(
        coalesce_type_at(&scope, v, false).render(),
        "<#1> ∪ Primitive(\"Unit\") ∩ Primitive(\"Int\")"
    );
    let f = scope.put(SimpleType::Function(vec![v], v));
    assert_eq!(
        coalesce_type_at(&scope, f, true).render(),
        "fn(<#1> ∪ Primitive(\"Unit\") ∩ Primitive(\"Int\")) -> <#2> ∪ Primitive(\"Int\") ∪ Primitive(\"Unit\")"
    );
}

#[test]
fn unit_coalesces_to_unit_primitive() {
    let scope = Scope::new();
    assert_eq!(scope.len(), 1);
    assert_eq!(coalesce_type(&scope, SimpleTypeRef::unit()).render(), "Primitive(\"Unit\")");
    assert_eq!(scope.len(), 1);
}

#[test]
fn enum_fields_may_name_enums() {
    let program = items(vec![enum_decl(
        "List",
        vec![
            ("nil", None),
            ("cons", Some(FieldsNode::Unnamed(vec![node(path_ty(&["Int"])), node(path_ty(&["List"]))]))),
        ],
    )]);
    let mut scope = scan(&program).ok().expect("fields resolve");
    let list = scope.get_ref(&"List".to_string()).unwrap();
    let cons = scope.get_ref(&"List.cons".to_string()).unwrap();
    match scope.get(cons) {
        Some(SimpleType::Function(args, _)) => {
            assert_eq!(args.len(), 2);
            assert_eq!(args[1], list);
        }
        _ => panic!("cons is a constructor"),
    }
    assert_eq!(infer_item(&mut scope, &program[0].1 .1).ok(), Some(list));
    assert_eq!(render_name(&scope, "List.cons"), "fn(Primitive(\"Int\"), <#1>) -> List.cons");
}

#[test]
fn duplicate_error_names_the_first_collision() {
    let program = items(vec![
        enum_decl("A", vec![]),
        func("B", vec![], None),
        enum_decl("B", vec![]),
        enum_decl("A", vec![]),
    ]);
    assert_eq!(error_of(scan(&program)), "Item \"B\" declared multiple times");
    let fns = items(vec![func("g", vec![], None), func("g", vec![param("a", None)], None)]);
    assert!(scan(&fns).is_ok());
}

#[test]
fn enum_variable_has_one_tag_per_branch_below_it() {
    let program = items(vec![enum_decl(
        "Option",
        vec![("none", None), ("some", Some(FieldsNode::Unnamed(vec![node(path_ty(&["Int"]))])))],
    )]);
    let scope = scan(&program).ok().unwrap();
    let int = scope.get_ref(&"Int".to_string()).unwrap();
    match scope.get(int) {
        Some(SimpleType::Primitive(n)) => assert_eq!(n, "Int"),
        _ => panic!("Int is the primitive Int"),
    }
    let option = scope.get_ref(&"Option".to_string()).unwrap();
    let none = scope.get_ref(&"Option.none".to_string()).unwrap();
    let some = scope.get_ref(&"Option.some".to_string()).unwrap();
    match scope.get(option) {
        Some(SimpleType::Variable(st)) => {
            assert!(st.upper_bounds.is_empty());
            assert_eq!(st.lower_bounds, vec![SimpleTypeRef(none.0 + 1), none]);
        }
        _ => panic!("Option is a variable"),
    }
    match scope.get(some) {
        Some(SimpleType::Function(args, tag)) => {
            assert_eq!(args, &vec![int]);
            assert_eq!(*tag, SimpleTypeRef(none.0 + 1));
        }
        _ => panic!("Option.some is a constructor"),
    }
}
