use crate::ast::{copy_identifier, ident_text};
use crate::scope::Scope;
use crate::ty::{RepresentationalType, SimpleType, SimpleTypeRef, TypeModel, VariableState};
use vstd::prelude::*;

verus! {

/// The bounds of a variable, which identify it during coalescence.
pub type VarKey = (Seq<SimpleTypeRef>, Seq<SimpleTypeRef>);

pub open spec fn var_key(t: TypeModel) -> VarKey {
    (t->Variable_lower, t->Variable_upper)
}

pub open spec fn state_key(st: VariableState) -> VarKey {
    (st.lower_bounds@, st.upper_bounds@)
}

pub open spec fn wip_keys(w: Seq<(VariableState, bool)>) -> Seq<(VarKey, bool)> {
    w.map_values(|e: (VariableState, bool)| (state_key(e.0), e.1))
}

/// How many (variable, polarity) pairs among the first `k` stored types are not on the stack.
pub open spec fn unvisited(ts: Seq<TypeModel>, keys: Seq<(VarKey, bool)>, k: nat) -> nat
    decreases k,
{
    if k == 0 {
        0
    } else {
        let t = ts[k - 1];
        unvisited(ts, keys, (k - 1) as nat) + (if t is Variable && !keys.contains((var_key(t), true)) {
            1nat
        } else {
            0nat
        }) + (if t is Variable && !keys.contains((var_key(t), false)) {
            1nat
        } else {
            0nat
        })
    }
}

pub proof fn lemma_unvisited_stack_push(ts: Seq<TypeModel>, keys: Seq<(VarKey, bool)>, p: (VarKey, bool), j: int, k: nat)
    requires
        !keys.contains(p),
    ensures
        unvisited(ts, keys.push(p), k) <= unvisited(ts, keys, k),
        0 <= j < k && ts[j] is Variable && p == (var_key(ts[j]), p.1) ==> unvisited(ts, keys.push(p), k)
            < unvisited(ts, keys, k),
    decreases k,
{
    if k > 0 {
        lemma_unvisited_stack_push(ts, keys, p, j, (k - 1) as nat);
        let t = ts[k - 1];
        let k2 = keys.push(p);
        assert forall|q: (VarKey, bool)| keys.contains(q) implies k2.contains(q) by {
            let i = choose|i: int| 0 <= i < keys.len() && keys[i] == q;
            assert(k2[i] == q);
        }
        if j == k - 1 && ts[j] is Variable && p == (var_key(ts[j]), p.1) {
            assert(k2[keys.len() as int] == p);
        }
    }
}

/// The outer form of a coalesced variable with `n` bounds of the polarity: the variable
/// alone, or the variable joined (`∪`) with its bounds, themselves joined by `∪` in a
/// positive and by `∩` in a negative position.
pub open spec fn joined_shape(r: RepresentationalType, n: nat, polar: bool) -> bool {
    if n == 0 {
        r is Variable
    } else {
        &&& r is Union
        &&& *r->Union_0 is Variable
        &&& n >= 2 ==> if polar {
            *r->Union_1 is Union
        } else {
            *r->Union_1 is Inter
        }
    }
}

/// The outer form of a coalesced type `t` at polarity `polar` (true for positive):
/// primitives and tags are kept, functions and tuples keep their arity, and a variable
/// reads its lower bounds at positive and its upper bounds at negative polarity, possibly
/// under a recursive binder.
pub open spec fn top_shape(t: TypeModel, r: RepresentationalType, polar: bool) -> bool {
    match t {
        TypeModel::Primitive(name) => r is Primitive && r->Primitive_0@ == name,
        TypeModel::VariantTag { root, variant } => r is VariantTag && ident_text(r->VariantTag_root) == root
            && ident_text(r->VariantTag_variant) == variant,
        TypeModel::Function(args, _) => r is Function && r->Function_0@.len() == args.len(),
        TypeModel::Tuple(elements) => r is Tuple && r->Tuple_0@.len() == elements.len(),
        TypeModel::Variable { lower, upper } => {
            let n = if polar {
                lower.len()
            } else {
                upper.len()
            };
            ||| joined_shape(r, n, polar)
            ||| (r is Recursive && joined_shape(*r->Recursive_1, n, polar))
        },
    }
}

/// `top_shape`, and for a function one level more: each argument at the opposite polarity
/// and the result at the same one, where those are not variables already being walked.
pub open spec fn rep_shape(ts: Seq<TypeModel>, keys: Seq<(VarKey, bool)>, t: TypeModel, r: RepresentationalType, polar: bool) -> bool {
    &&& top_shape(t, r, polar)
    &&& t is Function ==> {
        &&& forall|i: int|
            0 <= i < t->Function_0.len() && !(ts[t->Function_0[i].0 as int] is Variable && keys.contains(
                (var_key(ts[t->Function_0[i].0 as int]), !polar),
            )) ==> top_shape(ts[t->Function_0[i].0 as int], #[trigger] r->Function_0@[i], !polar)
        &&& !(ts[t->Function_1.0 as int] is Variable && keys.contains((var_key(ts[t->Function_1.0 as int]), polar)))
            ==> top_shape(ts[t->Function_1.0 as int], *r->Function_1, polar)
    }
}


/// What a representational type denotes: names as character sequences.
pub enum RepModel {
    Top,
    Bot,
    Union(Box<RepModel>, Box<RepModel>),
    Inter(Box<RepModel>, Box<RepModel>),
    Function(Seq<RepModel>, Box<RepModel>),
    Recursive(usize, Box<RepModel>),
    Variable(usize),
    Primitive(Seq<char>),
    VariantTag { root: Seq<char>, variant: Seq<char> },
    Tuple(Seq<RepModel>),
}

pub open spec fn rep_view(t: RepresentationalType) -> RepModel
    decreases t,
{
    match t {
        RepresentationalType::Top => RepModel::Top,
        RepresentationalType::Bot => RepModel::Bot,
        RepresentationalType::Union(l, r) => RepModel::Union(Box::new(rep_view(*l)), Box::new(rep_view(*r))),
        RepresentationalType::Inter(l, r) => RepModel::Inter(Box::new(rep_view(*l)), Box::new(rep_view(*r))),
        RepresentationalType::Function(args, ret) => {
            proof {
                assert(decreases_to!(t => args));
                assert(decreases_to!(args => args@));
            }
            RepModel::Function(rep_list_view(args@, args@.len()), Box::new(rep_view(*ret)))
        },
        RepresentationalType::Recursive(id, body) => RepModel::Recursive(id, Box::new(rep_view(*body))),
        RepresentationalType::Variable(id) => RepModel::Variable(id),
        RepresentationalType::Primitive(name) => RepModel::Primitive(name@),
        RepresentationalType::VariantTag { root, variant } => RepModel::VariantTag {
            root: ident_text(root),
            variant: ident_text(variant),
        },
        RepresentationalType::Tuple(elements) => {
            proof {
                assert(decreases_to!(t => elements));
                assert(decreases_to!(elements => elements@));
            }
            RepModel::Tuple(rep_list_view(elements@, elements@.len()))
        },
    }
}

/// The views of the first `n` types of `s`.
pub open spec fn rep_list_view(s: Seq<RepresentationalType>, n: nat) -> Seq<RepModel>
    decreases s, n,
{
    if n == 0 || n > s.len() {
        Seq::empty()
    } else {
        proof {
            assert(decreases_to!(s => s[n - 1]));
        }
        rep_list_view(s, (n - 1) as nat).push(rep_view(s[n - 1]))
    }
}

/// The binders minted so far: a variable's bounds, a polarity and the binder's id.
pub open spec fn binder_keys(v: Seq<(VariableState, bool, usize)>) -> Seq<(VarKey, bool, usize)> {
    v.map_values(|e: (VariableState, bool, usize)| (state_key(e.0), e.1, e.2))
}

/// The id of the first binder for `(key, polar)` from index `i` on.
pub open spec fn find_binder(rec: Seq<(VarKey, bool, usize)>, key: VarKey, polar: bool, i: int) -> Option<usize>
    decreases rec.len() - i,
{
    if i < 0 || i >= rec.len() {
        None
    } else if rec[i].0 == key && rec[i].1 == polar {
        Some(rec[i].2)
    } else {
        find_binder(rec, key, polar, i + 1)
    }
}

pub open spec fn next_counter(c: usize) -> usize {
    if c < usize::MAX {
        (c + 1) as usize
    } else {
        c
    }
}

/// Coalescing the type at `ty` at polarity `polar`, with the variables of `wip` being
/// walked, the binders `rec` minted and the last id `c` given out: the result, and the
/// binders and last id afterwards.
pub open spec fn visit_model(
    ts: Seq<TypeModel>,
    rec: Seq<(VarKey, bool, usize)>,
    c: usize,
    wip: Seq<(VarKey, bool)>,
    ty: SimpleTypeRef,
    polar: bool,
) -> (RepModel, Seq<(VarKey, bool, usize)>, usize)
    decreases unvisited(ts, wip, ts.len()), ty.0 + 1, 0nat,
{
    if ty.0 >= ts.len() {
        (RepModel::Top, rec, c)
    } else {
        match ts[ty.0 as int] {
            TypeModel::Primitive(name) => (RepModel::Primitive(name), rec, c),
            TypeModel::VariantTag { root, variant } => (RepModel::VariantTag { root, variant }, rec, c),
            TypeModel::Function(args, ret) => {
                let a = list_model(ts, rec, c, wip, args, 0, !polar, ty.0 as nat, Seq::empty());
                let r = if ret.0 < ty.0 {
                    visit_model(ts, a.1, a.2, wip, ret, polar)
                } else {
                    (RepModel::Top, a.1, a.2)
                };
                (RepModel::Function(a.0, Box::new(r.0)), r.1, r.2)
            },
            TypeModel::Tuple(elements) => {
                let a = list_model(ts, rec, c, wip, elements, 0, polar, ty.0 as nat, Seq::empty());
                (RepModel::Tuple(a.0), a.1, a.2)
            },
            TypeModel::Variable { lower, upper } => {
                let key = (lower, upper);
                if wip.contains((key, polar)) {
                    match find_binder(rec, key, polar, 0) {
                        Some(id) => (RepModel::Variable(id), rec, c),
                        None => {
                            let id = next_counter(c);
                            (RepModel::Variable(id), rec.push((key, polar, id)), id)
                        },
                    }
                } else {
                    let bounds = if polar {
                        lower
                    } else {
                        upper
                    };
                    proof {
                        lemma_unvisited_stack_push(ts, wip, (key, polar), ty.0 as int, ts.len());
                    }
                    let b = bounds_model(ts, rec, c, wip.push((key, polar)), bounds, 0, polar, None);
                    let id = next_counter(b.2);
                    let res = match b.0 {
                        Some(v) => RepModel::Union(Box::new(RepModel::Variable(id)), Box::new(v)),
                        None => RepModel::Variable(id),
                    };
                    match find_binder(b.1, key, polar, 0) {
                        Some(x) => (RepModel::Recursive(x, Box::new(res)), b.1, id),
                        None => (res, b.1, id),
                    }
                }
            },
        }
    }
}

/// Coalesces the children `refs` of a structural type at index `parent`, from index `i` on.
pub open spec fn list_model(
    ts: Seq<TypeModel>,
    rec: Seq<(VarKey, bool, usize)>,
    c: usize,
    wip: Seq<(VarKey, bool)>,
    refs: Seq<SimpleTypeRef>,
    i: int,
    polar: bool,
    parent: nat,
    acc: Seq<RepModel>,
) -> (Seq<RepModel>, Seq<(VarKey, bool, usize)>, usize)
    decreases unvisited(ts, wip, ts.len()), parent, refs.len() - i,
{
    if i < 0 || i >= refs.len() {
        (acc, rec, c)
    } else if refs[i].0 < parent {
        let x = visit_model(ts, rec, c, wip, refs[i], polar);
        list_model(ts, x.1, x.2, wip, refs, i + 1, polar, parent, acc.push(x.0))
    } else {
        list_model(ts, rec, c, wip, refs, i + 1, polar, parent, acc.push(RepModel::Top))
    }
}

/// Coalesces the bounds of a variable from index `i` on, joining them onto `acc`.
pub open spec fn bounds_model(
    ts: Seq<TypeModel>,
    rec: Seq<(VarKey, bool, usize)>,
    c: usize,
    wip: Seq<(VarKey, bool)>,
    bounds: Seq<SimpleTypeRef>,
    i: int,
    polar: bool,
    acc: Option<RepModel>,
) -> (Option<RepModel>, Seq<(VarKey, bool, usize)>, usize)
    decreases unvisited(ts, wip, ts.len()), ts.len() + 1, bounds.len() - i,
{
    if i < 0 || i >= bounds.len() {
        (acc, rec, c)
    } else if bounds[i].0 < ts.len() {
        let x = visit_model(ts, rec, c, wip, bounds[i], polar);
        let joined = match acc {
            None => Some(x.0),
            Some(a) => Some(
                if polar {
                    RepModel::Union(Box::new(a), Box::new(x.0))
                } else {
                    RepModel::Inter(Box::new(a), Box::new(x.0))
                },
            ),
        };
        bounds_model(ts, x.1, x.2, wip, bounds, i + 1, polar, joined)
    } else {
        bounds_model(ts, rec, c, wip, bounds, i + 1, polar, acc)
    }
}

pub open spec fn option_view(o: Option<RepresentationalType>) -> Option<RepModel> {
    match o {
        Some(t) => Some(rep_view(t)),
        None => None,
    }
}

fn copy_state(st: &VariableState) -> (r: VariableState)
    ensures
        state_key(r) == state_key(*st),
{
    VariableState {
        lower_bounds: crate::constrain::copy_refs(&st.lower_bounds),
        upper_bounds: crate::constrain::copy_refs(&st.upper_bounds),
    }
}

fn same_refs(a: &Vec<SimpleTypeRef>, b: &Vec<SimpleTypeRef>) -> (r: bool)
    ensures
        r == (a@ == b@),
{
    if a.len() != b.len() {
        return false;
    }
    let mut i: usize = 0;
    while i < a.len()
        invariant
            a@.len() == b@.len(),
            i <= a@.len(),
            forall|k: int| 0 <= k < i ==> a@[k] == b@[k],
        decreases a@.len() - i,
    {
        if a[i] != b[i] {
            return false;
        }
        i = i + 1;
    }
    assert(a@ =~= b@);
    true
}

fn same_state(a: &VariableState, b: &VariableState) -> (r: bool)
    ensures
        r == (state_key(*a) == state_key(*b)),
{
    same_refs(&a.lower_bounds, &b.lower_bounds) && same_refs(&a.upper_bounds, &b.upper_bounds)
}

fn on_stack(wip: &Vec<(VariableState, bool)>, st: &VariableState, polar: bool) -> (r: bool)
    ensures
        r == wip_keys(wip@).contains((state_key(*st), polar)),
{
    let mut i: usize = 0;
    while i < wip.len()
        invariant
            i <= wip@.len(),
            forall|k: int| 0 <= k < i ==> wip_keys(wip@)[k] != (state_key(*st), polar),
        decreases wip@.len() - i,
    {
        if wip[i].1 == polar && same_state(&wip[i].0, st) {
            assert(wip_keys(wip@)[i as int] == (state_key(*st), polar));
            return true;
        }
        i = i + 1;
    }
    false
}

fn binder_of(recursive: &Vec<(VariableState, bool, usize)>, st: &VariableState, polar: bool) -> (r: Option<usize>)
    ensures
        r == find_binder(binder_keys(recursive@), state_key(*st), polar, 0),
{
    let ghost keys = binder_keys(recursive@);
    let mut i: usize = 0;
    while i < recursive.len()
        invariant
            i <= recursive@.len(),
            keys == binder_keys(recursive@),
            find_binder(keys, state_key(*st), polar, 0) == find_binder(keys, state_key(*st), polar, i as int),
        decreases recursive@.len() - i,
    {
        if recursive[i].1 == polar && same_state(&recursive[i].0, st) {
            return Some(recursive[i].2);
        }
        i = i + 1;
    }
    None
}

proof fn lemma_rep_list_prefix(s: Seq<RepresentationalType>, t: Seq<RepresentationalType>, n: nat)
    requires
        n <= s.len(),
        n <= t.len(),
        forall|k: int| 0 <= k < n ==> s[k] == t[k],
    ensures
        rep_list_view(s, n) == rep_list_view(t, n),
    decreases n,
{
    if n > 0 {
        lemma_rep_list_prefix(s, t, (n - 1) as nat);
    }
}

proof fn lemma_rep_list_push(s: Seq<RepresentationalType>, x: RepresentationalType)
    ensures
        rep_list_view(s.push(x), s.len() + 1) == rep_list_view(s, s.len()).push(rep_view(x)),
{
    lemma_rep_list_prefix(s.push(x), s, s.len());
}

/// The next fresh id; ids stop growing at `usize::MAX`.
fn next_id(counter: &mut usize) -> (r: usize)
    ensures
        r == *final(counter),
        r == next_counter(*old(counter)),
{
    if *counter < usize::MAX {
        *counter = *counter + 1;
    }
    *counter
}

fn visit(
    recursive: &mut Vec<(VariableState, bool, usize)>,
    counter: &mut usize,
    scope: &Scope,
    wip: &mut Vec<(VariableState, bool)>,
    ty: SimpleTypeRef,
    polar: bool,
) -> (r: RepresentationalType)
    requires
        scope.wf(),
        ty.0 < scope.types().len(),
    ensures
        final(wip)@ == old(wip)@,
        scope.types()[ty.0 as int] is Variable && wip_keys(old(wip)@).contains((var_key(scope.types()[ty.0 as int]), polar))
            ==> r is Variable,
        !(scope.types()[ty.0 as int] is Variable && wip_keys(old(wip)@).contains((var_key(scope.types()[ty.0 as int]), polar)))
            ==> rep_shape(scope.types(), wip_keys(old(wip)@), scope.types()[ty.0 as int], r, polar),
        (rep_view(r), binder_keys(final(recursive)@), *final(counter)) == visit_model(
            scope.types(),
            binder_keys(old(recursive)@),
            *old(counter),
            wip_keys(old(wip)@),
            ty,
            polar,
        ),
    decreases unvisited(scope.types(), wip_keys(old(wip)@), scope.types().len()), ty.0,
{
    let ghost ts = scope.types();
    let ghost keys0 = wip_keys(wip@);
    proof {
        assert(crate::ty::refs_below(crate::ty::children(ts[ty.0 as int]), ts.len()));
    }
    match scope.get(ty).unwrap() {
        SimpleType::Primitive(name) => RepresentationalType::Primitive(name.clone()),
        SimpleType::VariantTag { root, variant } => RepresentationalType::VariantTag {
            root: copy_identifier(root),
            variant: copy_identifier(variant),
        },
        SimpleType::Function(args, ret) => {
            proof {
                assert(crate::ty::refs_below(crate::ty::children(ts[ty.0 as int]), ty.0 as nat));
            }
            let mut arg_types: Vec<RepresentationalType> = Vec::new();
            assert(rep_list_view(arg_types@, 0) =~= Seq::empty());
            let mut i: usize = 0;
            while i < args.len()
                invariant
                    i <= args@.len(),
                    ts == scope.types(),
                    scope.wf(),
                    wip@ == old(wip)@,
                    keys0 == wip_keys(old(wip)@),
                    ts[ty.0 as int] == TypeModel::Function(args@, *ret),
                    crate::ty::refs_below(crate::ty::children(ts[ty.0 as int]), ty.0 as nat),
                    ty.0 < ts.len(),
                    arg_types@.len() == i,
                    list_model(ts, binder_keys(old(recursive)@), *old(counter), keys0, args@, 0, !polar, ty.0 as nat, Seq::empty())
                        == list_model(ts, binder_keys(recursive@), *counter, keys0, args@, i as int, !polar, ty.0 as nat, rep_list_view(arg_types@, i as nat)),
                    forall|k: int|
                        0 <= k < i && !(ts[args@[k].0 as int] is Variable && keys0.contains((var_key(ts[args@[k].0 as int]), !polar)))
                            ==> top_shape(ts[args@[k].0 as int], #[trigger] arg_types@[k], !polar),
                decreases args@.len() - i,
            {
                assert(crate::ty::children(ts[ty.0 as int])[i as int] == args@[i as int]);
                let a = visit(recursive, counter, scope, wip, args[i], !polar);
                proof {
                    lemma_rep_list_push(arg_types@, a);
                }
                arg_types.push(a);
                i = i + 1;
            }
            assert(crate::ty::children(ts[ty.0 as int])[args@.len() as int] == *ret);
            let ret_type = visit(recursive, counter, scope, wip, *ret, polar);
            RepresentationalType::Function(arg_types, Box::new(ret_type))
        },
        SimpleType::Tuple(elements) => {
            proof {
                assert(crate::ty::refs_below(crate::ty::children(ts[ty.0 as int]), ty.0 as nat));
            }
            let mut types: Vec<RepresentationalType> = Vec::new();
            assert(rep_list_view(types@, 0) =~= Seq::empty());
            let mut i: usize = 0;
            while i < elements.len()
                invariant
                    i <= elements@.len(),
                    ts == scope.types(),
                    scope.wf(),
                    wip@ == old(wip)@,
                    keys0 == wip_keys(old(wip)@),
                    ts[ty.0 as int] == TypeModel::Tuple(elements@),
                    crate::ty::refs_below(crate::ty::children(ts[ty.0 as int]), ty.0 as nat),
                    ty.0 < ts.len(),
                    types@.len() == i,
                    list_model(ts, binder_keys(old(recursive)@), *old(counter), keys0, elements@, 0, polar, ty.0 as nat, Seq::empty())
                        == list_model(ts, binder_keys(recursive@), *counter, keys0, elements@, i as int, polar, ty.0 as nat, rep_list_view(types@, i as nat)),
                decreases elements@.len() - i,
            {
                assert(crate::ty::children(ts[ty.0 as int])[i as int] == elements@[i as int]);
                let e = visit(recursive, counter, scope, wip, elements[i], polar);
                proof {
                    lemma_rep_list_push(types@, e);
                }
                types.push(e);
                i = i + 1;
            }
            RepresentationalType::Tuple(types)
        },
        SimpleType::Variable(st) => {
            if on_stack(wip, st, polar) {
                match binder_of(recursive, st, polar) {
                    Some(id) => RepresentationalType::Variable(id),
                    None => {
                        let id = next_id(counter);
                        let ghost before = recursive@;
                        recursive.push((copy_state(st), polar, id));
                        assert(binder_keys(recursive@) =~= binder_keys(before).push((state_key(*st), polar, id)));
                        RepresentationalType::Variable(id)
                    },
                }
            } else {
                let bounds = if polar {
                    &st.lower_bounds
                } else {
                    &st.upper_bounds
                };
                let ghost p = (state_key(*st), polar);
                wip.push((copy_state(st), polar));
                proof {
                    assert(wip_keys(wip@) =~= keys0.push(p));
                    lemma_unvisited_stack_push(ts, keys0, p, ty.0 as int, ts.len());
                }
                let mut acc: Option<RepresentationalType> = None;
                let mut i: usize = 0;
                while i < bounds.len()
                    invariant
                        i <= bounds@.len(),
                        ts == scope.types(),
                        scope.wf(),
                        wip_keys(wip@) == keys0.push(p),
                        wip@ == old(wip)@.push(wip@.last()),
                        keys0 == wip_keys(old(wip)@),
                        unvisited(ts, keys0.push(p), ts.len()) < unvisited(ts, keys0, ts.len()),
                        ty.0 < ts.len(),
                        bounds@ == (if polar { var_key(ts[ty.0 as int]).0 } else { var_key(ts[ty.0 as int]).1 }),
                        ts[ty.0 as int] is Variable,
                        crate::ty::refs_below(crate::ty::children(ts[ty.0 as int]), ts.len()),
                        i == 0 <==> acc is None,
                        bounds_model(ts, binder_keys(old(recursive)@), *old(counter), keys0.push(p), bounds@, 0, polar, None)
                            == bounds_model(ts, binder_keys(recursive@), *counter, keys0.push(p), bounds@, i as int, polar, option_view(acc)),
                        p == (var_key(ts[ty.0 as int]), polar),
                        i >= 2 ==> (if polar {
                            acc->Some_0 is Union
                        } else {
                            acc->Some_0 is Inter
                        }),
                    decreases bounds@.len() - i,
                {
                    proof {
                        let c = crate::ty::children(ts[ty.0 as int]);
                        if polar {
                            assert(c[i as int] == bounds@[i as int]);
                        } else {
                            assert(c[var_key(ts[ty.0 as int]).0.len() + i] == bounds@[i as int]);
                        }
                    }
                    let b = visit(recursive, counter, scope, wip, bounds[i], polar);
                    acc = match acc {
                        None => Some(b),
                        Some(a) => if polar {
                            Some(RepresentationalType::Union(Box::new(a), Box::new(b)))
                        } else {
                            Some(RepresentationalType::Inter(Box::new(a), Box::new(b)))
                        },
                    };
                    i = i + 1;
                }
                wip.pop();
                proof {
                    assert(wip@ =~= old(wip)@);
                }
                let ghost key = state_key(*st);
                let ghost b = bounds_model(ts, binder_keys(old(recursive)@), *old(counter), keys0.push(p), bounds@, 0, polar, None);
                let id = next_id(counter);
                assert(rep_view(RepresentationalType::Variable(id)) == RepModel::Variable(id));
                let res = match acc {
                    Some(v) => {
                        RepresentationalType::Union(Box::new(RepresentationalType::Variable(id)), Box::new(v))
                    },
                    None => RepresentationalType::Variable(id),
                };
                let ghost id_m = next_counter(b.2);
                let ghost res_m = match b.0 {
                    Some(v) => RepModel::Union(Box::new(RepModel::Variable(id_m)), Box::new(v)),
                    None => RepModel::Variable(id_m),
                };
                let ghost expect = match find_binder(b.1, key, polar, 0) {
                    Some(x) => (RepModel::Recursive(x, Box::new(res_m)), b.1, id_m),
                    None => (res_m, b.1, id_m),
                };
                assert(visit_model(ts, binder_keys(old(recursive)@), *old(counter), keys0, ty, polar) == expect);
                let r = match binder_of(recursive, st, polar) {
                    Some(id) => RepresentationalType::Recursive(id, Box::new(res)),
                    None => res,
                };
                assert((rep_view(r), binder_keys(recursive@), *counter) == expect);
                r
            }
        },
    }
}

/// Coalesces the type at `ty` into a representational type, starting at the given
/// polarity (true for a positive, output position).
pub fn coalesce_type_at(scope: &Scope, ty: SimpleTypeRef, polar: bool) -> (r: RepresentationalType)
    requires
        scope.wf(),
        ty.0 < scope.types().len(),
    ensures
        rep_view(r) == visit_model(scope.types(), Seq::empty(), 0, Seq::empty(), ty, polar).0,
        rep_shape(scope.types(), Seq::empty(), scope.types()[ty.0 as int], r, polar),
{
    let mut recursive: Vec<(VariableState, bool, usize)> = Vec::new();
    let mut counter: usize = 0;
    let mut wip: Vec<(VariableState, bool)> = Vec::new();
    assert(wip_keys(wip@) =~= Seq::empty());
    assert(binder_keys(recursive@) =~= Seq::empty());
    visit(&mut recursive, &mut counter, scope, &mut wip, ty, polar)
}

/// Coalesces the type at `ty` into a representational type, at positive polarity.
pub fn coalesce_type(scope: &Scope, ty: SimpleTypeRef) -> (r: RepresentationalType)
    requires
        scope.wf(),
        ty.0 < scope.types().len(),
    ensures
        rep_view(r) == visit_model(scope.types(), Seq::empty(), 0, Seq::empty(), ty, true).0,
        rep_shape(scope.types(), Seq::empty(), scope.types()[ty.0 as int], r, true),
{
    coalesce_type_at(scope, ty, true)
}

/// Swapping the starting polarity of coalescence swaps what the root reads and how it
/// joins: a variable reads its lower bounds joined by `∪` at positive polarity and its
/// upper bounds joined by `∩` at negative polarity, and a function's arguments take the
/// polarity opposite to the root's.
pub proof fn lemma_polarity_duality(
    ts: Seq<TypeModel>,
    ty: SimpleTypeRef,
    pos: RepresentationalType,
    neg: RepresentationalType,
)
    requires
        rep_shape(ts, Seq::empty(), ts[ty.0 as int], pos, true),
        rep_shape(ts, Seq::empty(), ts[ty.0 as int], neg, false),
    ensures
        ts[ty.0 as int] is Variable ==> {
            &&& (joined_shape(pos, ts[ty.0 as int]->Variable_lower.len(), true) || (pos is Recursive
                && joined_shape(*pos->Recursive_1, ts[ty.0 as int]->Variable_lower.len(), true)))
            &&& (joined_shape(neg, ts[ty.0 as int]->Variable_upper.len(), false) || (neg is Recursive
                && joined_shape(*neg->Recursive_1, ts[ty.0 as int]->Variable_upper.len(), false)))
        },
        ts[ty.0 as int] is Function ==> forall|i: int|
            0 <= i < ts[ty.0 as int]->Function_0.len() ==> {
                &&& top_shape(ts[ts[ty.0 as int]->Function_0[i].0 as int], #[trigger] pos->Function_0@[i], false)
                &&& top_shape(ts[ts[ty.0 as int]->Function_0[i].0 as int], neg->Function_0@[i], true)
            },
{
    let t = ts[ty.0 as int];
    if t is Function {
        assert forall|i: int| 0 <= i < t->Function_0.len() implies {
            &&& top_shape(ts[t->Function_0[i].0 as int], #[trigger] pos->Function_0@[i], false)
            &&& top_shape(ts[t->Function_0[i].0 as int], neg->Function_0@[i], true)
        } by {
            assert(!Seq::<(VarKey, bool)>::empty().contains((var_key(ts[t->Function_0[i].0 as int]), false)));
            assert(!Seq::<(VarKey, bool)>::empty().contains((var_key(ts[t->Function_0[i].0 as int]), true)));
        }
    }
}

/// The unit type of a fresh scope coalesces to the primitive `Unit`, at either polarity.
pub proof fn lemma_unit_identity(polar: bool)
    ensures
        visit_model(seq![TypeModel::Primitive(crate::ty::unit_name())], Seq::empty(), 0, Seq::empty(), SimpleTypeRef(0), polar).0
            == RepModel::Primitive(crate::ty::unit_name()),
{
}

} // verus!
