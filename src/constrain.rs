use crate::error::InferError;
use crate::scope::Scope;
use crate::ty::{types_wf, SimpleType, SimpleTypeRef, TypeModel, VariableState};
use vstd::prelude::*;

verus! {

// ---------------------------------------------------------------- model

/// The immediate effect of `l <: r` on two distinct stored types: the updated store and
/// the pairs still to be related, in order; `None` where the two types cannot be related.
pub open spec fn constrain_step(ts: Seq<TypeModel>, l: usize, r: usize) -> Option<(Seq<TypeModel>, Seq<(usize, usize)>)> {
    let lt = ts[l as int];
    let rt = ts[r as int];
    if lt is Primitive && rt is Primitive && lt->Primitive_0 == rt->Primitive_0 {
        Some((ts, Seq::empty()))
    } else if lt is Function && rt is Function && lt->Function_0.len() == rt->Function_0.len() {
        let la = lt->Function_0;
        let ra = rt->Function_0;
        // arguments are contravariant, the result covariant
        Some((ts, Seq::new(la.len(), |i: int| (ra[i].0, la[i].0)).push((lt->Function_1.0, rt->Function_1.0))))
    } else if lt is Variable {
        let lower = lt->Variable_lower;
        let upper = lt->Variable_upper;
        Some((
            ts.update(l as int, TypeModel::Variable { lower, upper: seq![SimpleTypeRef(r)] + upper }),
            lower.map_values(|lb: SimpleTypeRef| (lb.0, r)),
        ))
    } else if rt is Variable {
        let lower = rt->Variable_lower;
        let upper = rt->Variable_upper;
        Some((
            ts.update(r as int, TypeModel::Variable { lower: seq![SimpleTypeRef(l)] + lower, upper }),
            upper.map_values(|ub: SimpleTypeRef| (l, ub.0)),
        ))
    } else {
        None
    }
}

/// How many of the pairs `(a, b)` with `b < len` are not in `cache`.
pub open spec fn row_unvisited(cache: Seq<(usize, usize)>, a: usize, len: nat) -> nat
    decreases len,
{
    if len == 0 {
        0
    } else {
        row_unvisited(cache, a, (len - 1) as nat) + (if cache.contains((a, (len - 1) as usize)) {
            0nat
        } else {
            1nat
        })
    }
}

/// How many of the pairs `(a, b)` with `a < rows` and `b < n` are not in `cache`: a bound
/// on how deep `constrain` can recurse.
pub open spec fn unvisited_pairs(cache: Seq<(usize, usize)>, n: nat, rows: nat) -> nat
    decreases rows,
{
    if rows == 0 {
        0
    } else {
        unvisited_pairs(cache, n, (rows - 1) as nat) + row_unvisited(cache, (rows - 1) as usize, n)
    }
}

pub proof fn lemma_row_unvisited_push(cache: Seq<(usize, usize)>, x: usize, y: usize, a: usize, len: nat)
    requires
        !cache.contains((x, y)),
        len <= usize::MAX + 1,
    ensures
        row_unvisited(cache.push((x, y)), a, len) + (if a == x && (y as nat) < len {
            1nat
        } else {
            0nat
        }) == row_unvisited(cache, a, len),
    decreases len,
{
    if len > 0 {
        lemma_row_unvisited_push(cache, x, y, a, (len - 1) as nat);
        let q = (a, (len - 1) as usize);
        let c2 = cache.push((x, y));
        if c2.contains(q) {
            let k = choose|k: int| 0 <= k < c2.len() && c2[k] == q;
            if k < cache.len() {
                assert(cache[k] == c2[k]);
            }
        }
        if cache.contains(q) {
            let k = choose|k: int| 0 <= k < cache.len() && cache[k] == q;
            assert(c2[k] == cache[k]);
        }
        if q == (x, y) {
            assert(c2[cache.len() as int] == q);
        }
    }
}

pub proof fn lemma_unvisited_push(cache: Seq<(usize, usize)>, x: usize, y: usize, n: nat, rows: nat)
    requires
        !cache.contains((x, y)),
        (y as nat) < n,
        n <= usize::MAX + 1,
        rows <= usize::MAX + 1,
    ensures
        unvisited_pairs(cache.push((x, y)), n, rows) + (if (x as nat) < rows {
            1nat
        } else {
            0nat
        }) == unvisited_pairs(cache, n, rows),
    decreases rows,
{
    if rows > 0 {
        lemma_unvisited_push(cache, x, y, n, (rows - 1) as nat);
        lemma_row_unvisited_push(cache, x, y, (rows - 1) as usize, n);
    }
}

/// What `lhs <: rhs` does to a store `ts` of `n` types when the pairs in `cache` are
/// already being related: the resulting store, and the two types that could not be
/// related where it fails.
pub open spec fn constrain_model(
    ts: Seq<TypeModel>,
    n: nat,
    l: usize,
    r: usize,
    cache: Seq<(usize, usize)>,
) -> (Seq<TypeModel>, Option<(TypeModel, TypeModel)>)
    decreases unvisited_pairs(cache, n, n), 0nat,
{
    if cache.contains((l, r)) || l == r || l >= ts.len() || r >= ts.len() || l >= n || r >= n
        || n > usize::MAX {
        (ts, None)
    } else {
        match constrain_step(ts, l, r) {
            None => (ts, Some((ts[l as int], ts[r as int]))),
            Some(step) => {
                proof {
                    lemma_unvisited_push(cache, l, r, n, n);
                }
                constrain_each(step.0, n, step.1, 0, cache.push((l, r)))
            },
        }
    }
}

/// Relates the pairs of `pairs` from index `i` on, in order, stopping at the first failure.
pub open spec fn constrain_each(
    ts: Seq<TypeModel>,
    n: nat,
    pairs: Seq<(usize, usize)>,
    i: nat,
    cache: Seq<(usize, usize)>,
) -> (Seq<TypeModel>, Option<(TypeModel, TypeModel)>)
    decreases unvisited_pairs(cache, n, n), 1 + pairs.len() - i,
{
    if i >= pairs.len() {
        (ts, None)
    } else {
        let first = constrain_model(ts, n, pairs[i as int].0, pairs[i as int].1, cache);
        if first.1 is Some {
            first
        } else {
            constrain_each(first.0, n, pairs, i + 1, cache)
        }
    }
}

/// `new` is `old` with bounds added: the same length, structural types unchanged, and every
/// bound of a variable still there.
pub open spec fn grows(old_ts: Seq<TypeModel>, new_ts: Seq<TypeModel>) -> bool {
    &&& new_ts.len() == old_ts.len()
    &&& forall|i: int| 0 <= i < old_ts.len() && !(old_ts[i] is Variable) ==> #[trigger] new_ts[i] == old_ts[i]
    &&& forall|i: int| 0 <= i < old_ts.len() && (#[trigger] old_ts[i]) is Variable ==> {
        &&& new_ts[i] is Variable
        &&& forall|x: SimpleTypeRef| #[trigger] old_ts[i]->Variable_lower.contains(x) ==> new_ts[i]->Variable_lower.contains(x)
        &&& forall|x: SimpleTypeRef| #[trigger] old_ts[i]->Variable_upper.contains(x) ==> new_ts[i]->Variable_upper.contains(x)
    }
}


/// `old` is what is left of `new` after dropping some elements from its front.
pub open spec fn is_suffix(old: Seq<SimpleTypeRef>, new: Seq<SimpleTypeRef>) -> bool {
    old.len() <= new.len() && new.subrange(new.len() - old.len(), new.len() as int) == old
}

/// Bounds are only ever put in front: every variable keeps its old bound lists as suffixes
/// of its new ones, and structural types are unchanged.
pub open spec fn prepends_only(old_ts: Seq<TypeModel>, new_ts: Seq<TypeModel>) -> bool {
    &&& new_ts.len() == old_ts.len()
    &&& forall|i: int| 0 <= i < old_ts.len() && !(old_ts[i] is Variable) ==> #[trigger] new_ts[i] == old_ts[i]
    &&& forall|i: int| 0 <= i < old_ts.len() && (#[trigger] old_ts[i]) is Variable ==> {
        &&& new_ts[i] is Variable
        &&& is_suffix(old_ts[i]->Variable_lower, new_ts[i]->Variable_lower)
        &&& is_suffix(old_ts[i]->Variable_upper, new_ts[i]->Variable_upper)
    }
}

pub proof fn lemma_prepends_only_refl(ts: Seq<TypeModel>)
    ensures
        prepends_only(ts, ts),
{
    assert forall|i: int| 0 <= i < ts.len() && (#[trigger] ts[i]) is Variable implies {
        &&& is_suffix(ts[i]->Variable_lower, ts[i]->Variable_lower)
        &&& is_suffix(ts[i]->Variable_upper, ts[i]->Variable_upper)
    } by {
        assert(ts[i]->Variable_lower.subrange(0, ts[i]->Variable_lower.len() as int) =~= ts[i]->Variable_lower);
        assert(ts[i]->Variable_upper.subrange(0, ts[i]->Variable_upper.len() as int) =~= ts[i]->Variable_upper);
    }
}

pub proof fn lemma_suffix_trans(a: Seq<SimpleTypeRef>, b: Seq<SimpleTypeRef>, c: Seq<SimpleTypeRef>)
    requires
        is_suffix(a, b),
        is_suffix(b, c),
    ensures
        is_suffix(a, c),
{
    assert(c.subrange(c.len() - a.len(), c.len() as int) =~= b.subrange(b.len() - a.len(), b.len() as int));
}

pub proof fn lemma_prepends_only_trans(a: Seq<TypeModel>, b: Seq<TypeModel>, c: Seq<TypeModel>)
    requires
        prepends_only(a, b),
        prepends_only(b, c),
    ensures
        prepends_only(a, c),
{
    assert forall|i: int| 0 <= i < a.len() && (#[trigger] a[i]) is Variable implies {
        &&& c[i] is Variable
        &&& is_suffix(a[i]->Variable_lower, c[i]->Variable_lower)
        &&& is_suffix(a[i]->Variable_upper, c[i]->Variable_upper)
    } by {
        lemma_suffix_trans(a[i]->Variable_lower, b[i]->Variable_lower, c[i]->Variable_lower);
        lemma_suffix_trans(a[i]->Variable_upper, b[i]->Variable_upper, c[i]->Variable_upper);
    }
}

proof fn lemma_step_prepends(ts: Seq<TypeModel>, l: usize, r: usize)
    requires
        l < ts.len(),
        r < ts.len(),
        constrain_step(ts, l, r) is Some,
    ensures
        prepends_only(ts, constrain_step(ts, l, r)->Some_0.0),
{
    let ts2 = constrain_step(ts, l, r)->Some_0.0;
    assert forall|i: int| 0 <= i < ts.len() && (#[trigger] ts[i]) is Variable implies {
        &&& ts2[i] is Variable
        &&& is_suffix(ts[i]->Variable_lower, ts2[i]->Variable_lower)
        &&& is_suffix(ts[i]->Variable_upper, ts2[i]->Variable_upper)
    } by {
        let lo = ts2[i]->Variable_lower;
        let up = ts2[i]->Variable_upper;
        assert(lo.subrange(lo.len() - ts[i]->Variable_lower.len(), lo.len() as int) =~= ts[i]->Variable_lower);
        assert(up.subrange(up.len() - ts[i]->Variable_upper.len(), up.len() as int) =~= ts[i]->Variable_upper);
    }
}

pub proof fn lemma_grows_refl(ts: Seq<TypeModel>)
    ensures
        grows(ts, ts),
{
}

pub proof fn lemma_grows_trans(a: Seq<TypeModel>, b: Seq<TypeModel>, c: Seq<TypeModel>)
    requires
        grows(a, b),
        grows(b, c),
    ensures
        grows(a, c),
{
    assert forall|i: int| 0 <= i < a.len() && (#[trigger] a[i]) is Variable implies {
        &&& c[i] is Variable
        &&& forall|x: SimpleTypeRef| #[trigger] a[i]->Variable_lower.contains(x) ==> c[i]->Variable_lower.contains(x)
        &&& forall|x: SimpleTypeRef| #[trigger] a[i]->Variable_upper.contains(x) ==> c[i]->Variable_upper.contains(x)
    } by {
        assert(b[i] is Variable);
        assert forall|x: SimpleTypeRef| #[trigger] a[i]->Variable_lower.contains(x) implies c[i]->Variable_lower.contains(x) by {
            assert(b[i]->Variable_lower.contains(x));
        }
        assert forall|x: SimpleTypeRef| #[trigger] a[i]->Variable_upper.contains(x) implies c[i]->Variable_upper.contains(x) by {
            assert(b[i]->Variable_upper.contains(x));
        }
    }
}

// ---------------------------------------------------------------- messages

/// `_, _, _` with `k` holes.
pub open spec fn holes(k: nat) -> Seq<char>
    decreases k,
{
    if k == 0 {
        Seq::empty()
    } else if k == 1 {
        "_"@
    } else {
        holes((k - 1) as nat) + ", _"@
    }
}

/// A one-line description of a type for error messages.
pub open spec fn summary(t: TypeModel) -> Seq<char> {
    match t {
        TypeModel::Variable { .. } => "Variable"@,
        TypeModel::Primitive(name) => "Primitive("@ + name + ")"@,
        TypeModel::Tuple(elements) => "Tuple("@ + holes(elements.len()) + ")"@,
        TypeModel::VariantTag { root, variant } => root + "."@ + variant,
        TypeModel::Function(args, _) => "Function("@ + holes(args.len()) + ") -> _"@,
    }
}

/// The message of a failed `l <: r`.
pub open spec fn unification_message(l: TypeModel, r: TypeModel) -> Seq<char> {
    "Cannot constraint "@ + summary(l) + " <: "@ + summary(r)
}

fn push_holes(s: &mut String, k: usize)
    ensures
        final(s)@ == old(s)@ + holes(k as nat),
{
    let mut i: usize = 0;
    while i < k
        invariant
            i <= k,
            s@ == old(s)@ + holes(i as nat),
        decreases k - i,
    {
        if i == 0 {
            s.append("_");
        } else {
            s.append(", _");
        }
        i = i + 1;
        assert(s@ =~= old(s)@ + holes(i as nat));
    }
}

fn describe(t: &SimpleType) -> (r: String)
    ensures
        r@ == summary(t@),
{
    let mut s = String::new();
    match t {
        SimpleType::Variable(_) => {
            s.append("Variable");
        },
        SimpleType::Primitive(name) => {
            s.append("Primitive(");
            s.append(name.as_str());
            s.append(")");
        },
        SimpleType::Tuple(elements) => {
            s.append("Tuple(");
            push_holes(&mut s, elements.len());
            s.append(")");
        },
        SimpleType::VariantTag { root, variant } => {
            s.append(root.1.1.0.content.as_str());
            s.append(".");
            s.append(variant.1.1.0.content.as_str());
        },
        SimpleType::Function(args, _) => {
            s.append("Function(");
            push_holes(&mut s, args.len());
            s.append(") -> _");
        },
    }
    assert(s@ =~= summary(t@));
    s
}

// ---------------------------------------------------------------- algorithm

pub(crate) fn copy_refs(v: &Vec<SimpleTypeRef>) -> (r: Vec<SimpleTypeRef>)
    ensures
        r@ == v@,
{
    let mut r: Vec<SimpleTypeRef> = Vec::new();
    let mut i: usize = 0;
    while i < v.len()
        invariant
            i <= v@.len(),
            r@ == v@.subrange(0, i as int),
        decreases v@.len() - i,
    {
        r.push(v[i]);
        i = i + 1;
        assert(r@ =~= v@.subrange(0, i as int));
    }
    assert(r@ =~= v@);
    r
}

fn cache_contains(cache: &Vec<(usize, usize)>, l: usize, r: usize) -> (b: bool)
    ensures
        b == cache@.contains((l, r)),
{
    let mut i: usize = 0;
    while i < cache.len()
        invariant
            i <= cache@.len(),
            forall|k: int| 0 <= k < i ==> cache@[k] != (l, r),
        decreases cache@.len() - i,
    {
        if cache[i].0 == l && cache[i].1 == r {
            assert(cache@[i as int] == (l, r));
            return true;
        }
        i = i + 1;
    }
    false
}

proof fn lemma_step_wf(ts: Seq<TypeModel>, l: usize, r: usize)
    requires
        types_wf(ts),
        l < ts.len(),
        r < ts.len(),
        constrain_step(ts, l, r) is Some,
    ensures
        types_wf(constrain_step(ts, l, r)->Some_0.0),
        grows(ts, constrain_step(ts, l, r)->Some_0.0),
{
    let ts2 = constrain_step(ts, l, r)->Some_0.0;
    assert forall|i: int| 0 <= i < ts2.len() implies crate::ty::refs_below(crate::ty::children(#[trigger] ts2[i]), ts2.len()) by {
        assert(crate::ty::refs_below(crate::ty::children(ts[i]), ts.len()));
        if ts2[i] != ts[i] {
            let c = crate::ty::children(ts[i]);
            let c2 = crate::ty::children(ts2[i]);
            let lower = ts[i]->Variable_lower;
            let upper = ts[i]->Variable_upper;
            if i == l && ts[l as int] is Variable {
                assert(c2 == lower + (seq![SimpleTypeRef(r)] + upper));
                assert forall|k: int| 0 <= k < c2.len() implies (#[trigger] c2[k]).0 < ts2.len() by {
                    if k < lower.len() {
                        assert(c2[k] == c[k]);
                    } else if k > lower.len() {
                        assert(c2[k] == c[k - 1]);
                    }
                }
            } else {
                assert(c2 == (seq![SimpleTypeRef(l)] + lower) + upper);
                assert forall|k: int| 0 <= k < c2.len() implies (#[trigger] c2[k]).0 < ts2.len() by {
                    if k > 0 {
                        assert(c2[k] == c[k - 1]);
                    }
                }
            }
        }
    }
    assert forall|i: int| 0 <= i < ts2.len() && !(ts2[i] is Variable) implies crate::ty::refs_below(
        crate::ty::children(#[trigger] ts2[i]),
        i as nat,
    ) by {
        assert(ts2[i] == ts[i]);
    }
    assert forall|i: int| 0 <= i < ts.len() && (#[trigger] ts[i]) is Variable implies {
        &&& ts2[i] is Variable
        &&& forall|x: SimpleTypeRef| #[trigger] ts[i]->Variable_lower.contains(x) ==> ts2[i]->Variable_lower.contains(x)
        &&& forall|x: SimpleTypeRef| #[trigger] ts[i]->Variable_upper.contains(x) ==> ts2[i]->Variable_upper.contains(x)
    } by {
        assert forall|x: SimpleTypeRef| #[trigger] ts[i]->Variable_lower.contains(x) implies ts2[i]->Variable_lower.contains(x) by {
            if ts2[i] != ts[i] {
                let k = choose|k: int| 0 <= k < ts[i]->Variable_lower.len() && ts[i]->Variable_lower[k] == x;
                if i == r && !(ts[l as int] is Variable) {
                    assert(ts2[i]->Variable_lower[k + 1] == x);
                }
            }
        }
        assert forall|x: SimpleTypeRef| #[trigger] ts[i]->Variable_upper.contains(x) implies ts2[i]->Variable_upper.contains(x) by {
            if ts2[i] != ts[i] {
                let k = choose|k: int| 0 <= k < ts[i]->Variable_upper.len() && ts[i]->Variable_upper[k] == x;
                if i == l && ts[l as int] is Variable {
                    assert(ts2[i]->Variable_upper[k + 1] == x);
                }
            }
        }
    }
}

fn constrain_in(
    scope: &mut Scope,
    lhs: SimpleTypeRef,
    rhs: SimpleTypeRef,
    cache: &mut Vec<(usize, usize)>,
    Ghost(n): Ghost<nat>,
) -> (res: Result<(), InferError>)
    requires
        old(scope).wf(),
        n == old(scope).types().len(),
    ensures
        final(scope).wf(),
        final(scope).names() == old(scope).names(),
        final(cache)@ == old(cache)@,
        grows(old(scope).types(), final(scope).types()),
        prepends_only(old(scope).types(), final(scope).types()),
        final(scope).types() == constrain_model(old(scope).types(), old(scope).types().len(), lhs.0, rhs.0, old(cache)@).0,
        res is Ok <==> constrain_model(old(scope).types(), old(scope).types().len(), lhs.0, rhs.0, old(cache)@).1 is None,
        res is Err ==> ({
            let failed = constrain_model(old(scope).types(), old(scope).types().len(), lhs.0, rhs.0, old(cache)@).1->Some_0;
            res->Err_0.message@ == unification_message(failed.0, failed.1)
        }),
    decreases unvisited_pairs(old(cache)@, n, n), 0nat,
{
    let ghost ts0 = scope.types();
    proof {
        lemma_prepends_only_refl(ts0);
    }
    let l = lhs.0;
    let r = rhs.0;
    if cache_contains(cache, l, r) || l == r {
        return Ok(());
    }
    let len = scope.len();
    if l >= len || r >= len {
        return Ok(());
    }
    let mut pairs: Vec<(usize, usize)> = Vec::new();
    let mut update: Option<(SimpleTypeRef, SimpleType)> = None;
    {
        let lt = scope.get(lhs).unwrap();
        let rt = scope.get(rhs).unwrap();
        let same_primitive = match (lt, rt) {
            (SimpleType::Primitive(a), SimpleType::Primitive(b)) => *a == *b,
            _ => false,
        };
        let same_arity = match (lt, rt) {
            (SimpleType::Function(la, _), SimpleType::Function(ra, _)) => la.len() == ra.len(),
            _ => false,
        };
        if same_primitive {
            return Ok(());
        } else if same_arity {
            match (lt, rt) {
                (SimpleType::Function(la, lret), SimpleType::Function(ra, rret)) => {
                    let mut i: usize = 0;
                    while i < la.len()
                        invariant
                            la@.len() == ra@.len(),
                            i <= la@.len(),
                            pairs@ == Seq::new(i as nat, |k: int| (ra@[k].0, la@[k].0)),
                        decreases la@.len() - i,
                    {
                        pairs.push((ra[i].0, la[i].0));
                        i = i + 1;
                        assert(pairs@ =~= Seq::new(i as nat, |k: int| (ra@[k].0, la@[k].0)));
                    }
                    pairs.push((lret.0, rret.0));
                },
                _ => {},
            }
        } else {
            match lt {
                SimpleType::Variable(st) => {
                    let lower = copy_refs(&st.lower_bounds);
                    let mut upper = copy_refs(&st.upper_bounds);
                    upper.insert(0, rhs);
                    let mut i: usize = 0;
                    while i < lower.len()
                        invariant
                            i <= lower@.len(),
                            pairs@ == lower@.subrange(0, i as int).map_values(|lb: SimpleTypeRef| (lb.0, r)),
                        decreases lower@.len() - i,
                    {
                        pairs.push((lower[i].0, r));
                        i = i + 1;
                        assert(pairs@ =~= lower@.subrange(0, i as int).map_values(|lb: SimpleTypeRef| (lb.0, r)));
                    }
                    assert(lower@.subrange(0, lower@.len() as int) =~= lower@);
                    assert(upper@ =~= seq![rhs] + st.upper_bounds@);
                    update = Some((lhs, SimpleType::Variable(VariableState { lower_bounds: lower, upper_bounds: upper })));
                },
                _ => {
                    match rt {
                        SimpleType::Variable(st) => {
                            let mut lower = copy_refs(&st.lower_bounds);
                            let upper = copy_refs(&st.upper_bounds);
                            lower.insert(0, lhs);
                            let mut i: usize = 0;
                            while i < upper.len()
                                invariant
                                    i <= upper@.len(),
                                    pairs@ == upper@.subrange(0, i as int).map_values(|ub: SimpleTypeRef| (l, ub.0)),
                                decreases upper@.len() - i,
                            {
                                pairs.push((l, upper[i].0));
                                i = i + 1;
                                assert(pairs@ =~= upper@.subrange(0, i as int).map_values(|ub: SimpleTypeRef| (l, ub.0)));
                            }
                            assert(upper@.subrange(0, upper@.len() as int) =~= upper@);
                            assert(lower@ =~= seq![lhs] + st.lower_bounds@);
                            update = Some((rhs, SimpleType::Variable(VariableState { lower_bounds: lower, upper_bounds: upper })));
                        },
                        _ => {
                            let mut message = String::new();
                            message.append("Cannot constraint ");
                            let ls = describe(lt);
                            let rs = describe(rt);
                            message.append(ls.as_str());
                            message.append(" <: ");
                            message.append(rs.as_str());
                            assert(message@ =~= unification_message(lt@, rt@));
                            return Err(InferError::new(message));
                        },
                    }
                },
            }
        }
    }
    match update {
        Some((at, ty)) => {
            scope.set(at, ty);
        },
        None => {},
    }
    let ghost step = constrain_step(ts0, l, r)->Some_0;
    assert(scope.types() =~= step.0);
    assert(pairs@ =~= step.1);
    proof {
        lemma_step_wf(ts0, l, r);
        lemma_step_prepends(ts0, l, r);
        lemma_unvisited_push(cache@, l, r, n, n);
        lemma_grows_refl(scope.types());
    }
    cache.push((l, r));
    let ghost c1 = cache@;
    assert(constrain_model(ts0, n, l, r, old(cache)@) == constrain_each(step.0, n, pairs@, 0, c1));
    let mut i: usize = 0;
    while i < pairs.len()
        invariant
            scope.wf(),
            scope.names() == old(scope).names(),
            scope.types().len() == n,
            cache@ == c1,
            c1 == old(cache)@.push((l, r)),
            unvisited_pairs(c1, n, n) < unvisited_pairs(old(cache)@, n, n),
            i <= pairs@.len(),
            ts0 == old(scope).types(),
            l == lhs.0,
            r == rhs.0,
            grows(ts0, scope.types()),
            prepends_only(ts0, scope.types()),
            constrain_model(ts0, n, l, r, old(cache)@) == constrain_each(step.0, n, pairs@, 0, c1),
            constrain_each(step.0, n, pairs@, 0, c1) == constrain_each(scope.types(), n, pairs@, i as nat, c1),
        decreases pairs@.len() - i,
    {
        let ghost before = scope.types();
        let res = constrain_in(scope, SimpleTypeRef(pairs[i].0), SimpleTypeRef(pairs[i].1), cache, Ghost(n));
        proof {
            lemma_grows_trans(ts0, before, scope.types());
            lemma_prepends_only_trans(ts0, before, scope.types());
        }
        match res {
            Err(e) => {
                assert(constrain_model(before, n, pairs@[i as int].0, pairs@[i as int].1, c1).1 is Some);
                assert(constrain_each(before, n, pairs@, i as nat, c1) == constrain_model(
                    before,
                    n,
                    pairs@[i as int].0,
                    pairs@[i as int].1,
                    c1,
                ));
                cache.pop();
                assert(cache@ =~= old(cache)@);
                return Err(e);
            },
            Ok(()) => {},
        }
        i = i + 1;
    }
    cache.pop();
    assert(cache@ =~= old(cache)@);
    Ok(())
}

/// Records `lhs <: rhs`: values of type `lhs` may stand where `rhs` is expected.
/// Bounds are only ever added (the store grows), and the result is the one the model gives.
pub fn constrain(scope: &mut Scope, lhs: SimpleTypeRef, rhs: SimpleTypeRef) -> (res: Result<(), InferError>)
    requires
        old(scope).wf(),
    ensures
        final(scope).wf(),
        final(scope).names() == old(scope).names(),
        grows(old(scope).types(), final(scope).types()),
        prepends_only(old(scope).types(), final(scope).types()),
        final(scope).types() == constrain_model(old(scope).types(), old(scope).types().len(), lhs.0, rhs.0, seq![]).0,
        res is Ok <==> constrain_model(old(scope).types(), old(scope).types().len(), lhs.0, rhs.0, seq![]).1 is None,
        res is Err ==> ({
            let failed = constrain_model(old(scope).types(), old(scope).types().len(), lhs.0, rhs.0, seq![]).1->Some_0;
            res->Err_0.message@ == unification_message(failed.0, failed.1)
        }),
{
    let mut cache: Vec<(usize, usize)> = Vec::new();
    assert(cache@ =~= seq![]);
    constrain_in(scope, lhs, rhs, &mut cache, Ghost(scope.types().len()))
}

/// Two function types of different arity are never related: the attempt fails on them.
pub proof fn lemma_arity_mismatch_fails(ts: Seq<TypeModel>, l: usize, r: usize)
    requires
        types_wf(ts),
        ts.len() <= usize::MAX,
        l < ts.len(),
        r < ts.len(),
        ts[l as int] is Function,
        ts[r as int] is Function,
        ts[l as int]->Function_0.len() != ts[r as int]->Function_0.len(),
    ensures
        constrain_model(ts, ts.len(), l, r, seq![]).1 == Some((ts[l as int], ts[r as int])),
{
    assert(l != r);
    assert(!seq![].contains((l, r)));
}

/// `constrain` on a store of `n` types nests at most `n * n` calls: every nested call
/// adds a new pair of indices below `n` to the cache, and there are `n * n` such pairs.
pub proof fn lemma_constrain_depth_bound(cache: Seq<(usize, usize)>, n: nat)
    ensures
        unvisited_pairs(cache, n, n) <= n * n,
{
    lemma_unvisited_pairs_bound(cache, n, n);
}

proof fn lemma_row_bound(cache: Seq<(usize, usize)>, a: usize, len: nat)
    ensures
        row_unvisited(cache, a, len) <= len,
    decreases len,
{
    if len > 0 {
        lemma_row_bound(cache, a, (len - 1) as nat);
    }
}

proof fn lemma_unvisited_pairs_bound(cache: Seq<(usize, usize)>, n: nat, rows: nat)
    ensures
        unvisited_pairs(cache, n, rows) <= rows * n,
    decreases rows,
{
    if rows > 0 {
        lemma_unvisited_pairs_bound(cache, n, (rows - 1) as nat);
        lemma_row_bound(cache, (rows - 1) as usize, n);
        let r1 = (rows - 1) as nat;
        assert(r1 * n + n == (r1 + 1) * n) by (nonlinear_arith);
    }
}

} // verus!
