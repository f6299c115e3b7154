use crate::ast::{
    DestructuringBodyNode, ExpressionNode, FunctionCallArgumentNode, FunctionParameterPatternNode,
    ItemNode, PatternNode, PostfixOperatorKind, SimplePatternNode,
};
use crate::constrain::{constrain, constrain_model, grows, lemma_grows_refl, lemma_grows_trans, unification_message};
use crate::error::InferError;
use crate::scope::Scope;
use crate::syntax::{path_message, transform_syntax_type, tuple_message};
use crate::ty::{fresh_variable, SimpleType, SimpleTypeRef, TypeModel};
use vstd::prelude::*;

verus! {

/// `b` is `a` with bounds added to its types and new types stored after them.
pub open spec fn extends(a: Seq<TypeModel>, b: Seq<TypeModel>) -> bool {
    &&& a.len() <= b.len()
    &&& grows(a, b.subrange(0, a.len() as int))
}

pub proof fn lemma_extends_refl(a: Seq<TypeModel>)
    ensures
        extends(a, a),
{
    assert(a.subrange(0, a.len() as int) =~= a);
    lemma_grows_refl(a);
}

pub proof fn lemma_extends_trans(a: Seq<TypeModel>, b: Seq<TypeModel>, c: Seq<TypeModel>)
    requires
        extends(a, b),
        extends(b, c),
    ensures
        extends(a, c),
{
    let bs = b.subrange(0, a.len() as int);
    let cb = c.subrange(0, b.len() as int);
    let ca = c.subrange(0, a.len() as int);
    assert(grows(bs, ca)) by {
        assert forall|i: int| 0 <= i < bs.len() && !(bs[i] is Variable) implies #[trigger] ca[i] == bs[i] by {
            assert(bs[i] == b[i]);
            assert(cb[i] == ca[i]);
        }
        assert forall|i: int| 0 <= i < bs.len() && (#[trigger] bs[i]) is Variable implies {
            &&& ca[i] is Variable
            &&& forall|x: SimpleTypeRef| #[trigger] bs[i]->Variable_lower.contains(x) ==> ca[i]->Variable_lower.contains(x)
            &&& forall|x: SimpleTypeRef| #[trigger] bs[i]->Variable_upper.contains(x) ==> ca[i]->Variable_upper.contains(x)
        } by {
            assert(bs[i] == b[i]);
            assert(cb[i] == ca[i]);
        }
    }
    lemma_grows_trans(a, bs, ca);
}

pub proof fn lemma_extends_push(a: Seq<TypeModel>, t: TypeModel)
    ensures
        extends(a, a.push(t)),
{
    assert(a.push(t).subrange(0, a.len() as int) =~= a);
    lemma_grows_refl(a);
}

pub proof fn lemma_grows_extends(a: Seq<TypeModel>, b: Seq<TypeModel>)
    requires
        grows(a, b),
    ensures
        extends(a, b),
{
    assert(b.subrange(0, a.len() as int) =~= b);
}

pub open spec fn no_name_message(name: Seq<char>) -> Seq<char> {
    "There is no \""@ + name + "\" in scope"@
}

pub open spec fn mut_bind_message() -> Seq<char> {
    "mut bind pattern is not supported yet"@
}

pub open spec fn named_destructuring_message() -> Seq<char> {
    "named destructuring pattern is not supported yet"@
}

pub open spec fn mut_name_message() -> Seq<char> {
    "mut name in argument position is not supported yet"@
}

pub open spec fn field_access_message() -> Seq<char> {
    "field access is not implemented yet"@
}

pub open spec fn index_message() -> Seq<char> {
    "index operator is not implemented yet"@
}

pub open spec fn prefix_message() -> Seq<char> {
    "prefix operator is not implemented yet"@
}

pub open spec fn infix_message() -> Seq<char> {
    "infix operator is not implemented yet"@
}

/// The messages that inference can fail with.
pub open spec fn infer_error(m: Seq<char>) -> bool {
    ||| exists|n: Seq<char>| m == #[trigger] no_name_message(n)
    ||| exists|l: TypeModel, r: TypeModel| m == #[trigger] unification_message(l, r)
    ||| m == path_message()
    ||| m == tuple_message()
    ||| m == mut_bind_message()
    ||| m == named_destructuring_message()
    ||| m == mut_name_message()
    ||| m == field_access_message()
    ||| m == index_message()
    ||| m == prefix_message()
    ||| m == infix_message()
}


/// The view of an inference result: the type, or the error message.
pub open spec fn result_view(r: Result<SimpleTypeRef, InferError>) -> Result<SimpleTypeRef, Seq<char>> {
    match r {
        Ok(t) => Ok(t),
        Err(e) => Err(e.message@),
    }
}

/// A call whose callee has type `callee`, with arguments of types `args` and result `res`:
/// the store gains the expected function type, and the callee is constrained below it.
pub open spec fn call_model(ts: Seq<TypeModel>, callee: SimpleTypeRef, args: Seq<SimpleTypeRef>, res: SimpleTypeRef) -> (
    Seq<TypeModel>,
    Result<SimpleTypeRef, Seq<char>>,
) {
    let ts1 = ts.push(TypeModel::Function(args, res));
    let c = constrain_model(ts1, ts1.len(), callee.0, ts.len() as usize, seq![]);
    match c.1 {
        None => (c.0, Ok(res)),
        Some(f) => (c.0, Err(unification_message(f.0, f.1))),
    }
}

/// What inferring `e` does: the store afterwards, and the type or the error.
pub open spec fn infer_model(ts: Seq<TypeModel>, names: Map<Seq<char>, SimpleTypeRef>, e: ExpressionNode) -> (
    Seq<TypeModel>,
    Result<SimpleTypeRef, Seq<char>>,
)
    decreases e, 0nat,
{
    match e {
        ExpressionNode::FunctionCall(c) => {
            let res = SimpleTypeRef(ts.len() as usize);
            proof {
                assert(decreases_to!(e => e->FunctionCall_0));
                assert(decreases_to!(e->FunctionCall_0 => c.args));
                assert(decreases_to!(c.args => c.args@));
            }
            let a = args_model(ts.push(fresh_variable()), names, c.args@, 0, seq![]);
            match a.1 {
                Err(m) => (a.0, Err(m)),
                Ok(arg_types) => {
                    let f = infer_model(a.0, names, *c.f);
                    match f.1 {
                        Err(m) => (f.0, Err(m)),
                        Ok(callee) => call_model(f.0, callee, arg_types, res),
                    }
                },
            }
        },
        ExpressionNode::Match(m) => {
            let d = infer_model(ts, names, m.expr.1.1);
            match d.1 {
                Err(msg) => (d.0, Err(msg)),
                Ok(_) => (d.0.push(fresh_variable()), Ok(SimpleTypeRef(d.0.len() as usize))),
            }
        },
        ExpressionNode::PrefixOperator(_) => (ts, Err(prefix_message())),
        ExpressionNode::InfixOperator(_) => (ts, Err(infix_message())),
        ExpressionNode::PostfixOperator(p) => {
            let x = infer_model(ts, names, *p.expr.1.1);
            match x.1 {
                Err(m) => (x.0, Err(m)),
                Ok(callee) => match p.kind.1.1 {
                    PostfixOperatorKind::FieldAccess(_) => (x.0, Err(field_access_message())),
                    PostfixOperatorKind::Index(_) => (x.0, Err(index_message())),
                    PostfixOperatorKind::FunctionCall(args) => {
                        let res = SimpleTypeRef(x.0.len() as usize);
                        proof {
                            assert(decreases_to!(e => e->PostfixOperator_0));
                            assert(decreases_to!(p => p.kind));
                            assert(decreases_to!(p.kind => p.kind.1));
                            assert(decreases_to!(p.kind.1 => p.kind.1.1));
                            assert(decreases_to!(p.kind.1.1 => p.kind.1.1->FunctionCall_0));
                            assert(decreases_to!(args => args@));
                        }
                        let a = exprs_model(x.0.push(fresh_variable()), names, args@, 0, seq![]);
                        match a.1 {
                            Err(m) => (a.0, Err(m)),
                            Ok(arg_types) => call_model(a.0, callee, arg_types, res),
                        }
                    },
                },
            }
        },
        ExpressionNode::Name(n) => if names.dom().contains(n.0.0.content@) {
            (ts, Ok(names[n.0.0.content@]))
        } else {
            (ts, Err(no_name_message(n.0.0.content@)))
        },
        ExpressionNode::Block(b) => {
            proof {
                assert(decreases_to!(e => e->Block_0));
                assert(decreases_to!(e->Block_0 => b.0));
                assert(decreases_to!(b.0 => b.0@));
            }
            block_model(ts, names, b.0@, 0, SimpleTypeRef(0))
        },
        ExpressionNode::EnumVariant(_) => (ts.push(fresh_variable()), Ok(SimpleTypeRef(ts.len() as usize))),
    }
}

/// Infers the arguments of a call from index `i` on, collecting their types after `acc`.
pub open spec fn args_model(
    ts: Seq<TypeModel>,
    names: Map<Seq<char>, SimpleTypeRef>,
    args: Seq<FunctionCallArgumentNode>,
    i: int,
    acc: Seq<SimpleTypeRef>,
) -> (Seq<TypeModel>, Result<Seq<SimpleTypeRef>, Seq<char>>)
    decreases args, args.len() - i,
{
    if i < 0 || i >= args.len() {
        (ts, Ok(acc))
    } else {
        match args[i] {
            FunctionCallArgumentNode::MutName(_) => (ts, Err(mut_name_message())),
            FunctionCallArgumentNode::Expr(e) => {
                proof {
                    assert(decreases_to!(args => args[i]));
                    assert(decreases_to!(args[i] => args[i]->Expr_0));
                }
                let x = infer_model(ts, names, e);
                match x.1 {
                    Err(m) => (x.0, Err(m)),
                    Ok(t) => args_model(x.0, names, args, i + 1, acc.push(t)),
                }
            },
        }
    }
}

/// Infers the argument expressions of a postfix call from index `i` on.
pub open spec fn exprs_model(
    ts: Seq<TypeModel>,
    names: Map<Seq<char>, SimpleTypeRef>,
    es: Seq<crate::ast::WithId<crate::span::Spanned<ExpressionNode>>>,
    i: int,
    acc: Seq<SimpleTypeRef>,
) -> (Seq<TypeModel>, Result<Seq<SimpleTypeRef>, Seq<char>>)
    decreases es, es.len() - i,
{
    if i < 0 || i >= es.len() {
        (ts, Ok(acc))
    } else {
        proof {
            assert(decreases_to!(es => es[i]));
            assert(decreases_to!(es[i] => es[i].1));
            assert(decreases_to!(es[i].1 => es[i].1.1));
        }
        let x = infer_model(ts, names, es[i].1.1);
        match x.1 {
            Err(m) => (x.0, Err(m)),
            Ok(t) => exprs_model(x.0, names, es, i + 1, acc.push(t)),
        }
    }
}

/// Infers the expressions of a block from index `i` on; the block has the type of the last.
pub open spec fn block_model(
    ts: Seq<TypeModel>,
    names: Map<Seq<char>, SimpleTypeRef>,
    es: Seq<crate::ast::WithId<crate::span::Spanned<ExpressionNode>>>,
    i: int,
    last: SimpleTypeRef,
) -> (Seq<TypeModel>, Result<SimpleTypeRef, Seq<char>>)
    decreases es, es.len() - i,
{
    if i < 0 || i >= es.len() {
        (ts, Ok(last))
    } else {
        proof {
            assert(decreases_to!(es => es[i]));
            assert(decreases_to!(es[i] => es[i].1));
            assert(decreases_to!(es[i].1 => es[i].1.1));
        }
        let x = infer_model(ts, names, es[i].1.1);
        match x.1 {
            Err(m) => (x.0, Err(m)),
            Ok(t) => block_model(x.0, names, es, i + 1, t),
        }
    }
}


/// What inferring a pattern does: the store and the environment afterwards, and the type
/// or the error.
pub open spec fn pat_model(ts: Seq<TypeModel>, names: Map<Seq<char>, SimpleTypeRef>, p: PatternNode) -> (
    Seq<TypeModel>,
    Map<Seq<char>, SimpleTypeRef>,
    Result<SimpleTypeRef, Seq<char>>,
)
    decreases p, 0nat,
{
    let r = SimpleTypeRef(ts.len() as usize);
    match p {
        PatternNode::NameBind(n) => (ts.push(fresh_variable()), names.insert(n.1.0.content@, r), Ok(r)),
        PatternNode::SimplePattern(SimplePatternNode::Discard(_)) => (ts.push(fresh_variable()), names, Ok(r)),
        PatternNode::SimplePattern(SimplePatternNode::TaggedDestructuring(_, body)) => match body.1.1 {
            DestructuringBodyNode::Empty => (ts.push(fresh_variable()), names, Ok(r)),
            DestructuringBodyNode::Positional(items) => {
                proof {
                    assert(decreases_to!(p => p->SimplePattern_0));
                    assert(decreases_to!(p->SimplePattern_0 => body));
                    assert(decreases_to!(body => body.1));
                    assert(decreases_to!(body.1 => body.1.1));
                    assert(decreases_to!(body.1.1 => body.1.1->Positional_0));
                    assert(decreases_to!(items => items@));
                }
                let x = pats_model(ts.push(fresh_variable()), names, items@, 0);
                match x.2 {
                    Err(m) => (x.0, x.1, Err(m)),
                    Ok(_) => (x.0, x.1, Ok(r)),
                }
            },
            DestructuringBodyNode::Named(_) => (ts, names, Err(named_destructuring_message())),
        },
    }
}

/// Infers the sub-patterns of a positional destructuring from index `i` on.
pub open spec fn pats_model(
    ts: Seq<TypeModel>,
    names: Map<Seq<char>, SimpleTypeRef>,
    items: Seq<crate::ast::WithId<crate::span::Spanned<PatternNode>>>,
    i: int,
) -> (Seq<TypeModel>, Map<Seq<char>, SimpleTypeRef>, Result<(), Seq<char>>)
    decreases items, items.len() - i,
{
    if i < 0 || i >= items.len() {
        (ts, names, Ok(()))
    } else {
        proof {
            assert(decreases_to!(items => items[i]));
            assert(decreases_to!(items[i] => items[i].1));
            assert(decreases_to!(items[i].1 => items[i].1.1));
        }
        let x = pat_model(ts, names, items[i].1.1);
        match x.2 {
            Err(m) => (x.0, x.1, Err(m)),
            Ok(_) => pats_model(x.0, x.1, items, i + 1),
        }
    }
}

/// Binds the parameters of a function from index `i` on.
pub open spec fn params_model(
    ts: Seq<TypeModel>,
    names: Map<Seq<char>, SimpleTypeRef>,
    ps: Seq<crate::ast::WithId<crate::span::Spanned<crate::ast::FunctionParameterNode>>>,
    i: int,
) -> (Seq<TypeModel>, Map<Seq<char>, SimpleTypeRef>, Result<(), Seq<char>>)
    decreases ps.len() - i,
{
    if i < 0 || i >= ps.len() {
        (ts, names, Ok(()))
    } else {
        let param = ps[i].1.1;
        match param.pattern.1.1 {
            FunctionParameterPatternNode::Bind(n) => {
                let v = SimpleTypeRef(ts.len() as usize);
                let ts1 = ts.push(fresh_variable());
                let names1 = names.insert(n.0.content@, v);
                match param.ty {
                    None => params_model(ts1, names1, ps, i + 1),
                    Some(a) => match crate::syntax::lowered(names1, a.1.1) {
                        Err(m) => (ts1, names1, Err(m)),
                        Ok(rhs) => {
                            let c = constrain_model(ts1, ts1.len(), v.0, rhs.0, seq![]);
                            match c.1 {
                                Some(f) => (c.0, names1, Err(unification_message(f.0, f.1))),
                                None => params_model(c.0, names1, ps, i + 1),
                            }
                        },
                    },
                }
            },
            FunctionParameterPatternNode::MutBind(_) => (ts, names, Err(mut_bind_message())),
            FunctionParameterPatternNode::SimplePattern(p) => {
                let x = pat_model(ts, names, p);
                match x.2 {
                    Err(m) => (x.0, x.1, Err(m)),
                    Ok(_) => params_model(x.0, x.1, ps, i + 1),
                }
            },
        }
    }
}

/// What inferring an item does: an enum is its declared type; a function binds its
/// parameters, infers its body and constrains the body below its declared result.
pub open spec fn item_model(ts: Seq<TypeModel>, names: Map<Seq<char>, SimpleTypeRef>, item: ItemNode) -> (
    Seq<TypeModel>,
    Map<Seq<char>, SimpleTypeRef>,
    Result<SimpleTypeRef, Seq<char>>,
) {
    match item {
        ItemNode::DeclEnumNode(e) => (ts, names, Ok(names[e.name.1.1.0.content@])),
        ItemNode::DeclFunctionNode(f) => {
            let ty_ref = names[f.name.1.1.0.content@];
            let ret = ts[ty_ref.0 as int]->Function_1;
            let p = params_model(ts, names, f.parameters@, 0);
            match p.2 {
                Err(m) => (p.0, p.1, Err(m)),
                Ok(_) => match f.body {
                    None => (p.0, p.1, Ok(ty_ref)),
                    Some(body) => {
                        let b = infer_model(p.0, p.1, body.1.1);
                        match b.1 {
                            Err(m) => (b.0, p.1, Err(m)),
                            Ok(bt) => {
                                let c = constrain_model(b.0, b.0.len(), bt.0, ret.0, seq![]);
                                match c.1 {
                                    None => (c.0, p.1, Ok(ty_ref)),
                                    Some(fl) => (c.0, p.1, Err(unification_message(fl.0, fl.1))),
                                }
                            },
                        }
                    },
                },
            }
        },
    }
}

fn fail(message: &str) -> (r: Result<SimpleTypeRef, InferError>)
    ensures
        r is Err,
        r->Err_0.message@ == message@,
{
    Err(InferError::new(String::from_str(message)))
}

/// Relates a callee of type `callee` to the call: the callee must be a function from the
/// argument types to the result `res`.
fn finish_call(scope: &mut Scope, callee: SimpleTypeRef, arg_types: Vec<SimpleTypeRef>, res: SimpleTypeRef) -> (r: Result<
    SimpleTypeRef,
    InferError,
>)
    requires
        old(scope).wf(),
        callee.0 < old(scope).types().len(),
        res.0 < old(scope).types().len(),
        forall|i: int| 0 <= i < arg_types@.len() ==> (#[trigger] arg_types@[i]).0 < old(scope).types().len(),
    ensures
        final(scope).wf(),
        final(scope).names() == old(scope).names(),
        extends(old(scope).types(), final(scope).types()),
        r is Ok ==> r->Ok_0 == res,
        r is Err ==> infer_error(r->Err_0.message@),
        (final(scope).types(), result_view(r)) == call_model(old(scope).types(), callee, arg_types@, res),
{
    let ghost ts0 = scope.types();
    let ghost args = arg_types@;
    let expected = scope.put(SimpleType::Function(arg_types, res));
    let ghost ts1 = scope.types();
    proof {
        lemma_extends_push(ts0, ts1.last());
        assert(ts1 =~= ts0.push(ts1.last()));
    }
    match constrain(scope, callee, expected) {
        Ok(()) => {
            proof {
                lemma_grows_extends(ts1, scope.types());
                lemma_extends_trans(ts0, ts1, scope.types());
            }
            Ok(res)
        },
        Err(e) => {
            proof {
                lemma_grows_extends(ts1, scope.types());
                lemma_extends_trans(ts0, ts1, scope.types());
            }
            Err(e)
        },
    }
}

/// Infers the type of an expression: a name is looked up, a block has the type of its last
/// expression (unit when empty), a call relates its callee to a function from the argument
/// types to a fresh result, and a match or a bare variant is a fresh variable. Operators
/// and field or index access are not supported yet.
pub fn infer_expr(scope: &mut Scope, term: &ExpressionNode) -> (r: Result<SimpleTypeRef, InferError>)
    requires
        old(scope).wf(),
    ensures
        final(scope).wf(),
        final(scope).names() == old(scope).names(),
        extends(old(scope).types(), final(scope).types()),
        r is Ok ==> r->Ok_0.0 < final(scope).types().len(),
        r is Err ==> infer_error(r->Err_0.message@),
        (final(scope).types(), result_view(r)) == infer_model(old(scope).types(), old(scope).names(), *term),
        match term {
            ExpressionNode::Name(n) => {
                &&& final(scope).types() == old(scope).types()
                &&& r == (if old(scope).names().dom().contains(n.0.0.content@) {
                    Ok::<SimpleTypeRef, InferError>(old(scope).names()[n.0.0.content@])
                } else {
                    r
                })
                &&& !old(scope).names().dom().contains(n.0.0.content@) ==> r is Err && r->Err_0.message@
                    == no_name_message(n.0.0.content@)
            },
            ExpressionNode::Block(b) => b.0@.len() == 0 ==> final(scope).types() == old(scope).types() && r
                is Ok && r->Ok_0.0 == 0,
            ExpressionNode::PrefixOperator(_) => final(scope).types() == old(scope).types() && r is Err
                && r->Err_0.message@ == prefix_message(),
            ExpressionNode::InfixOperator(_) => final(scope).types() == old(scope).types() && r is Err
                && r->Err_0.message@ == infix_message(),
            ExpressionNode::EnumVariant(_) => final(scope).types() == old(scope).types().push(fresh_variable())
                && r is Ok && r->Ok_0.0 == old(scope).types().len(),
            ExpressionNode::Match(_) => r is Ok ==> r->Ok_0.0 == final(scope).types().len() - 1
                && final(scope).types()[r->Ok_0.0 as int] == fresh_variable(),
            ExpressionNode::FunctionCall(_) => r is Ok ==> r->Ok_0.0 == old(scope).types().len()
                && final(scope).types()[r->Ok_0.0 as int] is Variable,
            ExpressionNode::PostfixOperator(p) => match p.kind.1.1 {
                PostfixOperatorKind::FunctionCall(_) => r is Ok ==> final(scope).types()[r->Ok_0.0 as int] is Variable,
                _ => r is Err,
            },
        },
    decreases term,
{
    let ghost ts0 = scope.types();
    match term {
        ExpressionNode::FunctionCall(call) => {
            let res = scope.put(SimpleType::variable());
            proof {
                lemma_extends_push(ts0, fresh_variable());
            }
            let mut arg_types: Vec<SimpleTypeRef> = Vec::new();
            assert(arg_types@ =~= seq![]);
            let mut i: usize = 0;
            while i < call.args.len()
                invariant
                    i <= call.args@.len(),
                    ts0 == old(scope).types(),
                    *term == ExpressionNode::FunctionCall(*call),
                    args_model(ts0.push(fresh_variable()), old(scope).names(), call.args@, 0, seq![]) == args_model(
                        scope.types(),
                        old(scope).names(),
                        call.args@,
                        i as int,
                        arg_types@,
                    ),
                    scope.wf(),
                    scope.names() == old(scope).names(),
                    extends(ts0, scope.types()),
                    res.0 == ts0.len(),
                    res.0 < scope.types().len(),
                    extends(ts0.push(fresh_variable()), scope.types()),
                    forall|k: int| 0 <= k < arg_types@.len() ==> (#[trigger] arg_types@[k]).0 < scope.types().len(),
                decreases call.args@.len() - i,
            {
                match &call.args[i] {
                    FunctionCallArgumentNode::Expr(e) => {
                        let ghost before = scope.types();
                        proof {
                            assert(decreases_to!(call.args => call.args@[i as int]));
                            assert(decreases_to!(*term => (*term)->FunctionCall_0));
                            assert(decreases_to!(*call => call.args));
                            assert(decreases_to!(*term => *e));
                        }
                        let ghost acc = arg_types@;
                        match infer_expr(scope, e) {
                            Ok(t) => {
                                arg_types.push(t);
                                assert(arg_types@ == acc.push(t));
                            },
                            Err(err) => {
                                proof {
                                    lemma_extends_trans(ts0, before, scope.types());
                                }
                                return Err(err);
                            },
                        }
                        proof {
                            lemma_extends_trans(ts0, before, scope.types());
                            lemma_extends_trans(ts0.push(fresh_variable()), before, scope.types());
                        }
                    },
                    FunctionCallArgumentNode::MutName(_) => {
                        return fail("mut name in argument position is not supported yet");
                    },
                }
                i = i + 1;
            }
            let ghost before = scope.types();
            let callee = match infer_expr(scope, &call.f) {
                Ok(t) => t,
                Err(err) => {
                    proof {
                        lemma_extends_trans(ts0, before, scope.types());
                    }
                    return Err(err);
                },
            };
            proof {
                lemma_extends_trans(ts0, before, scope.types());
                lemma_extends_trans(ts0.push(fresh_variable()), before, scope.types());
            }
            let ghost before2 = scope.types();
            let r = finish_call(scope, callee, arg_types, res);
            proof {
                lemma_extends_trans(ts0, before2, scope.types());
                lemma_extends_trans(ts0.push(fresh_variable()), before2, scope.types());
                assert(ts0.push(fresh_variable())[res.0 as int] is Variable);
            }
            r
        },
        ExpressionNode::Match(m) => {
            let ghost before = scope.types();
            match infer_expr(scope, &m.expr.1.1) {
                Ok(_) => {},
                Err(err) => {
                    return Err(err);
                },
            }
            let ghost mid = scope.types();
            let ret = scope.put(SimpleType::variable());
            proof {
                lemma_extends_push(mid, fresh_variable());
                lemma_extends_trans(ts0, mid, scope.types());
            }
            Ok(ret)
        },
        ExpressionNode::PrefixOperator(_) => {
            proof {
                lemma_extends_refl(ts0);
            }
            fail("prefix operator is not implemented yet")
        },
        ExpressionNode::InfixOperator(_) => {
            proof {
                lemma_extends_refl(ts0);
            }
            fail("infix operator is not implemented yet")
        },
        ExpressionNode::PostfixOperator(p) => {
            let callee = match infer_expr(scope, &p.expr.1.1) {
                Ok(t) => t,
                Err(err) => {
                    return Err(err);
                },
            };
            let ghost mid = scope.types();
            match &p.kind.1.1 {
                PostfixOperatorKind::FieldAccess(_) => fail("field access is not implemented yet"),
                PostfixOperatorKind::Index(_) => fail("index operator is not implemented yet"),
                PostfixOperatorKind::FunctionCall(args) => {
                    let res = scope.put(SimpleType::variable());
                    proof {
                        lemma_extends_push(mid, fresh_variable());
                        lemma_extends_trans(ts0, mid, scope.types());
                    }
                    let ghost base = scope.types();
                    let mut arg_types: Vec<SimpleTypeRef> = Vec::new();
                    assert(arg_types@ =~= seq![]);
                    let mut i: usize = 0;
                    while i < args.len()
                        invariant
                            i <= args@.len(),
                            ts0 == old(scope).types(),
                            *term == ExpressionNode::PostfixOperator(*p),
                            infer_model(ts0, old(scope).names(), *p.expr.1.1) == (mid, Ok::<SimpleTypeRef, Seq<char>>(callee)),
                            base == mid.push(fresh_variable()),
                            res.0 == mid.len(),
                            exprs_model(base, old(scope).names(), args@, 0, seq![]) == exprs_model(
                                scope.types(),
                                old(scope).names(),
                                args@,
                                i as int,
                                arg_types@,
                            ),
                            p.kind.1.1 == PostfixOperatorKind::FunctionCall(*args),
                            scope.wf(),
                            scope.names() == old(scope).names(),
                            extends(ts0, scope.types()),
                            extends(base, scope.types()),
                            res.0 == base.len() - 1,
                            base[res.0 as int] == fresh_variable(),
                            callee.0 < scope.types().len(),
                            res.0 < scope.types().len(),
                            forall|k: int| 0 <= k < arg_types@.len() ==> (#[trigger] arg_types@[k]).0 < scope.types().len(),
                        decreases args@.len() - i,
                    {
                        let ghost before = scope.types();
                        proof {
                            assert(decreases_to!(*args => args@[i as int]));
                            assert(decreases_to!(*term => *p));
                            assert(decreases_to!(*p => p.kind));
                            assert(decreases_to!(p.kind => p.kind.1));
                            assert(decreases_to!(p.kind.1 => p.kind.1.1));
                            assert(decreases_to!(p.kind.1.1 => p.kind.1.1->FunctionCall_0));
                            assert(decreases_to!(*term => args@[i as int].1.1));
                        }
                        let ghost acc = arg_types@;
                        match infer_expr(scope, &args[i].1.1) {
                            Ok(t) => {
                                arg_types.push(t);
                                assert(arg_types@ == acc.push(t));
                            },
                            Err(err) => {
                                proof {
                                    lemma_extends_trans(ts0, before, scope.types());
                                }
                                return Err(err);
                            },
                        }
                        proof {
                            lemma_extends_trans(ts0, before, scope.types());
                            lemma_extends_trans(base, before, scope.types());
                        }
                        i = i + 1;
                    }
                    let ghost before2 = scope.types();
                    let r = finish_call(scope, callee, arg_types, res);
                    proof {
                        lemma_extends_trans(ts0, before2, scope.types());
                        lemma_extends_trans(base, before2, scope.types());
                    }
                    r
                },
            }
        },
        ExpressionNode::Name(name_node) => {
            proof {
                lemma_extends_refl(ts0);
            }
            match scope.get_ref(&name_node.0.0.content) {
                Some(t) => Ok(t),
                None => {
                    let mut message = String::new();
                    message.append("There is no \"");
                    message.append(name_node.0.0.content.as_str());
                    message.append("\" in scope");
                    assert(message@ =~= no_name_message(name_node.0.0.content@));
                    Err(InferError::new(message))
                },
            }
        },
        ExpressionNode::Block(block) => {
            proof {
                lemma_extends_refl(ts0);
            }
            let mut result = SimpleTypeRef::unit();
            let mut i: usize = 0;
            while i < block.0.len()
                invariant
                    i <= block.0@.len(),
                    ts0 == old(scope).types(),
                    *term == ExpressionNode::Block(*block),
                    block_model(ts0, old(scope).names(), block.0@, 0, SimpleTypeRef(0)) == block_model(
                        scope.types(),
                        old(scope).names(),
                        block.0@,
                        i as int,
                        result,
                    ),
                    scope.wf(),
                    scope.names() == old(scope).names(),
                    extends(ts0, scope.types()),
                    result.0 < scope.types().len(),
                    i == 0 ==> scope.types() == ts0 && result.0 == 0,
                decreases block.0@.len() - i,
            {
                let ghost before = scope.types();
                proof {
                    assert(decreases_to!(block.0 => block.0@[i as int]));
                    assert(decreases_to!(*term => (*term)->Block_0));
                    assert(decreases_to!(*block => block.0));
                    assert(decreases_to!(*term => block.0@[i as int].1.1));
                }
                match infer_expr(scope, &block.0[i].1.1) {
                    Ok(t) => {
                        result = t;
                    },
                    Err(err) => {
                        proof {
                            lemma_extends_trans(ts0, before, scope.types());
                        }
                        return Err(err);
                    },
                }
                proof {
                    lemma_extends_trans(ts0, before, scope.types());
                }
                i = i + 1;
            }
            Ok(result)
        },
        ExpressionNode::EnumVariant(_) => {
            let r = scope.put(SimpleType::variable());
            proof {
                lemma_extends_push(ts0, fresh_variable());
            }
            Ok(r)
        },
    }
}

/// `b` is `a` followed by fresh variables only.
pub open spec fn appends_fresh(a: Seq<TypeModel>, b: Seq<TypeModel>) -> bool {
    &&& a.len() <= b.len()
    &&& b.subrange(0, a.len() as int) == a
    &&& forall|i: int| a.len() <= i < b.len() ==> #[trigger] b[i] == fresh_variable()
}

/// `b` binds every name that `a` binds.
pub open spec fn binds_more(a: Map<Seq<char>, SimpleTypeRef>, b: Map<Seq<char>, SimpleTypeRef>) -> bool {
    forall|k: Seq<char>| #[trigger] a.dom().contains(k) ==> b.dom().contains(k)
}

proof fn lemma_appends_fresh_trans(a: Seq<TypeModel>, b: Seq<TypeModel>, c: Seq<TypeModel>)
    requires
        appends_fresh(a, b),
        appends_fresh(b, c),
    ensures
        appends_fresh(a, c),
{
    assert(c.subrange(0, a.len() as int) =~= b.subrange(0, a.len() as int));
    assert forall|i: int| a.len() <= i < c.len() implies #[trigger] c[i] == fresh_variable() by {
        if i < b.len() {
            assert(c[i] == c.subrange(0, b.len() as int)[i]);
        }
    }
}

proof fn lemma_appends_fresh_extends(a: Seq<TypeModel>, b: Seq<TypeModel>)
    requires
        appends_fresh(a, b),
    ensures
        extends(a, b),
{
    lemma_grows_refl(a);
}

/// Infers the type of a pattern: every pattern is a fresh variable, and a name pattern binds
/// the name to it. Sub-patterns of a positional destructuring are inferred too; named
/// destructuring is not supported yet.
pub fn infer_pat(scope: &mut Scope, pat: &PatternNode) -> (r: Result<SimpleTypeRef, InferError>)
    requires
        old(scope).wf(),
    ensures
        final(scope).wf(),
        appends_fresh(old(scope).types(), final(scope).types()),
        binds_more(old(scope).names(), final(scope).names()),
        r is Ok ==> r->Ok_0.0 == old(scope).types().len() && r->Ok_0.0 < final(scope).types().len(),
        r is Err ==> r->Err_0.message@ == named_destructuring_message(),
        (final(scope).types(), final(scope).names(), result_view(r)) == pat_model(old(scope).types(), old(scope).names(), *pat),
        match pat {
            PatternNode::NameBind(name) => {
                &&& r is Ok
                &&& final(scope).types() == old(scope).types().push(fresh_variable())
                &&& final(scope).names() == old(scope).names().insert(name.1.0.content@, r->Ok_0)
            },
            PatternNode::SimplePattern(SimplePatternNode::Discard(_)) => {
                &&& r is Ok
                &&& final(scope).types() == old(scope).types().push(fresh_variable())
                &&& final(scope).names() == old(scope).names()
            },
            PatternNode::SimplePattern(SimplePatternNode::TaggedDestructuring(_, body)) => match body.1.1 {
                DestructuringBodyNode::Empty => {
                    &&& r is Ok
                    &&& final(scope).types() == old(scope).types().push(fresh_variable())
                    &&& final(scope).names() == old(scope).names()
                },
                DestructuringBodyNode::Positional(_) => true,
                DestructuringBodyNode::Named(_) => {
                    &&& r is Err
                    &&& final(scope).types() == old(scope).types()
                    &&& final(scope).names() == old(scope).names()
                },
            },
        },
    decreases pat,
{
    let ghost ts0 = scope.types();
    match pat {
        PatternNode::NameBind(name) => {
            let r = scope.assign(&name.1.0.content, SimpleType::variable());
            assert(scope.types().subrange(0, ts0.len() as int) =~= ts0);
            Ok(r)
        },
        PatternNode::SimplePattern(SimplePatternNode::Discard(_)) => {
            let r = scope.put(SimpleType::variable());
            assert(scope.types().subrange(0, ts0.len() as int) =~= ts0);
            Ok(r)
        },
        PatternNode::SimplePattern(SimplePatternNode::TaggedDestructuring(_, body)) => match &body.1.1 {
            DestructuringBodyNode::Empty => {
                let r = scope.put(SimpleType::variable());
                assert(scope.types().subrange(0, ts0.len() as int) =~= ts0);
                Ok(r)
            },
            DestructuringBodyNode::Positional(items) => {
                let result = scope.put(SimpleType::variable());
                assert(scope.types().subrange(0, ts0.len() as int) =~= ts0);
                let mut i: usize = 0;
                while i < items.len()
                    invariant
                        i <= items@.len(),
                        ts0 == old(scope).types(),
                        *pat == PatternNode::SimplePattern(SimplePatternNode::TaggedDestructuring(
                            (*pat)->SimplePattern_0->TaggedDestructuring_0,
                            *body,
                        )),
                        body.1.1 == DestructuringBodyNode::Positional(*items),
                        pats_model(ts0.push(fresh_variable()), old(scope).names(), items@, 0) == pats_model(
                            scope.types(),
                            scope.names(),
                            items@,
                            i as int,
                        ),
                        scope.wf(),
                        appends_fresh(ts0, scope.types()),
                        binds_more(old(scope).names(), scope.names()),
                        result.0 == ts0.len(),
                        result.0 < scope.types().len(),
                    decreases items@.len() - i,
                {
                    let ghost before = scope.types();
                    proof {
                        assert(decreases_to!(*pat => (*pat)->SimplePattern_0));
                        assert(decreases_to!((*pat)->SimplePattern_0 => *body));
                        assert(decreases_to!(*body => body.1));
                        assert(decreases_to!(body.1 => body.1.1));
                        assert(decreases_to!(body.1.1 => body.1.1->Positional_0));
                        assert(decreases_to!(*items => items@[i as int]));
                        assert(decreases_to!(items@[i as int] => items@[i as int].1));
                    }
                    match infer_pat(scope, &items[i].1.1) {
                        Ok(_) => {},
                        Err(err) => {
                            proof {
                                lemma_appends_fresh_trans(ts0, before, scope.types());
                            }
                            return Err(err);
                        },
                    }
                    proof {
                        lemma_appends_fresh_trans(ts0, before, scope.types());
                    }
                    i = i + 1;
                }
                Ok(result)
            },
            DestructuringBodyNode::Named(_) => {
                assert(scope.types().subrange(0, ts0.len() as int) =~= ts0);
                let r = fail("named destructuring pattern is not supported yet");
                r
            },
        },
    }
}

/// What `infer_item` needs from the scan: the item's name is declared, a function's as a
/// function type.
pub open spec fn item_declared(scope: Scope, term: ItemNode) -> bool {
    match term {
        ItemNode::DeclEnumNode(e) => scope.names().dom().contains(e.name.1.1.0.content@),
        ItemNode::DeclFunctionNode(f) => {
            &&& scope.names().dom().contains(f.name.1.1.0.content@)
            &&& scope.types()[scope.names()[f.name.1.1.0.content@].0 as int] is Function
        },
    }
}

/// Infers an item against the declarations of the scan: an enum is its declared type; a
/// function binds each parameter to a fresh variable (below its annotation, if any) and
/// relates its body to the declared result type. The item's declared type is returned.
pub fn infer_item(scope: &mut Scope, term: &ItemNode) -> (r: Result<SimpleTypeRef, InferError>)
    requires
        old(scope).wf(),
        item_declared(*old(scope), *term),
    ensures
        final(scope).wf(),
        extends(old(scope).types(), final(scope).types()),
        binds_more(old(scope).names(), final(scope).names()),
        r is Ok ==> r->Ok_0 == old(scope).names()[crate::ast::item_name(*term)],
        r is Err ==> infer_error(r->Err_0.message@),
        term is DeclEnumNode ==> r is Ok && final(scope).types() == old(scope).types(),
        (final(scope).types(), final(scope).names(), result_view(r)) == item_model(old(scope).types(), old(scope).names(), *term),
{
    let ghost ts0 = scope.types();
    proof {
        lemma_extends_refl(ts0);
    }
    match term {
        ItemNode::DeclEnumNode(decl_enum_node) => {
            let r = scope.get_ref(&decl_enum_node.name.1.1.0.content);
            Ok(r.unwrap())
        },
        ItemNode::DeclFunctionNode(f) => {
            let ty_ref = scope.get_ref(&f.name.1.1.0.content).unwrap();
            let ret = match scope.get(ty_ref) {
                Some(SimpleType::Function(_, ret)) => *ret,
                _ => ty_ref,
            };
            proof {
                assert(crate::ty::refs_below(crate::ty::children(ts0[ty_ref.0 as int]), ts0.len()));
                let c = crate::ty::children(ts0[ty_ref.0 as int]);
                assert(c[c.len() - 1] == ret);
            }
            let mut i: usize = 0;
            while i < f.parameters.len()
                invariant
                    i <= f.parameters@.len(),
                    ts0 == old(scope).types(),
                    *term == ItemNode::DeclFunctionNode(*f),
                    old(scope).names().dom().contains(crate::ast::item_name(*term)),
                    ty_ref == old(scope).names()[crate::ast::item_name(*term)],
                    ret == ts0[ty_ref.0 as int]->Function_1,
                    params_model(ts0, old(scope).names(), f.parameters@, 0) == params_model(
                        scope.types(),
                        scope.names(),
                        f.parameters@,
                        i as int,
                    ),
                    scope.wf(),
                    extends(ts0, scope.types()),
                    binds_more(old(scope).names(), scope.names()),
                    ret.0 < scope.types().len(),
                decreases f.parameters@.len() - i,
            {
                let param = &f.parameters[i].1.1;
                let ghost before = scope.types();
                match &param.pattern.1.1 {
                    FunctionParameterPatternNode::Bind(name) => {
                        let ty = scope.assign(&name.0.content, SimpleType::variable());
                        proof {
                            lemma_extends_push(before, fresh_variable());
                            lemma_extends_trans(ts0, before, scope.types());
                        }
                        match &param.ty {
                            Some(annotation) => {
                                let rhs = transform_syntax_type(scope, &annotation.1.1);
                                match rhs {
                                    Ok(rhs) => {
                                        let ghost mid = scope.types();
                                        let res = constrain(scope, ty, rhs);
                                        proof {
                                            lemma_grows_extends(mid, scope.types());
                                            lemma_extends_trans(ts0, mid, scope.types());
                                        }
                                        match res {
                                            Ok(()) => {},
                                            Err(e) => {
                                                return Err(e);
                                            },
                                        }
                                    },
                                    Err(e) => {
                                        return Err(e);
                                    },
                                }
                            },
                            None => {},
                        }
                    },
                    FunctionParameterPatternNode::MutBind(_) => {
                        return fail("mut bind pattern is not supported yet");
                    },
                    FunctionParameterPatternNode::SimplePattern(p) => {
                        let res = infer_pat(scope, p);
                        proof {
                            lemma_appends_fresh_extends(before, scope.types());
                            lemma_extends_trans(ts0, before, scope.types());
                        }
                        match res {
                            Ok(_) => {},
                            Err(e) => {
                                return Err(e);
                            },
                        }
                    },
                }
                i = i + 1;
            }
            match &f.body {
                Some(body) => {
                    let ghost before = scope.types();
                    let b = infer_expr(scope, &body.1.1);
                    proof {
                        lemma_extends_trans(ts0, before, scope.types());
                    }
                    match b {
                        Ok(b) => {
                            let ghost mid = scope.types();
                            let res = constrain(scope, b, ret);
                            proof {
                                lemma_grows_extends(mid, scope.types());
                                lemma_extends_trans(ts0, mid, scope.types());
                            }
                            match res {
                                Ok(()) => {},
                                Err(e) => {
                                    return Err(e);
                                },
                            }
                        },
                        Err(e) => {
                            return Err(e);
                        },
                    }
                },
                None => {},
            }
            Ok(ty_ref)
        },
    }
}

} // verus!
